//! Binding the meshes and materials that geoms refer to by name.

use vstd::prelude::*;
use crate::assets::{last_named, bound, bound_asset, lemma_bound_twice};
use crate::attrs::{Attrs, AttrMap, has_key, value_of};
use crate::defaults::lemma_node_children;
use crate::error::ModelError;
use crate::node::{
    Node, NodeView, AssetsManager, Geom, GeomType, views_of, lemma_views_of, lemma_node_view,
};
use crate::rules::{name_of, extends, lemma_extends_refl};
use crate::schema::NodeKind;
use crate::text::same_text;

verus! {

/// The form of a geom: what its `type` names, and a box where it names
/// nothing known or was not set.
pub open spec fn geom_type_of(attrs: Attrs) -> GeomType {
    if !has_key(attrs, "type"@) {
        GeomType::Box
    } else {
        let t = value_of(attrs, "type"@);
        if t == "plane"@ {
            GeomType::Plane
        } else if t == "hfield"@ {
            GeomType::Hfield
        } else if t == "sphere"@ {
            GeomType::Sphere
        } else if t == "capsule"@ {
            GeomType::Capsule
        } else if t == "ellipsoid"@ {
            GeomType::Ellipsoid
        } else if t == "cylinder"@ {
            GeomType::Cylinder
        } else if t == "box"@ {
            GeomType::Box
        } else if t == "mesh"@ {
            GeomType::Mesh
        } else if t == "sdf"@ {
            GeomType::Sdf
        } else {
            GeomType::Box
        }
    }
}

/// The value of a key, or the empty text where it has none.
pub open spec fn text_of(attrs: Attrs, key: Seq<char>) -> Seq<char> {
    if has_key(attrs, key) {
        value_of(attrs, key)
    } else {
        Seq::empty()
    }
}

/// The value of a key, or the empty text where it has none.
pub fn text_in(attrs_map: &AttrMap, key: &str) -> (r: String)
    ensures
        r@ == text_of(attrs_map@, key@),
{
    match attrs_map.get(key) {
        Some(v) => v.clone(),
        None => String::new(),
    }
}

/// The kinds and names of a list of assets: all that a reference goes by.
pub type AssetKeys = Seq<(NodeKind, Seq<char>)>;

/// The kinds and names of a list of assets.
pub open spec fn keys_of(assets: Seq<NodeView>) -> AssetKeys {
    Seq::new(assets.len(), |i: int| (assets[i].kind, name_of(assets[i])))
}

/// The last of the first `k` keys that has a kind and a name.
pub open spec fn last_key(keys: AssetKeys, kind: NodeKind, name: Seq<char>, k: nat) -> Option<int>
    decreases k,
{
    if k == 0 || k > keys.len() {
        None
    } else if keys[k - 1] == (kind, name) {
        Some(k - 1)
    } else {
        last_key(keys, kind, name, (k - 1) as nat)
    }
}

/// The place that a name refers to among assets of a kind.
pub open spec fn key_named(keys: AssetKeys, kind: NodeKind, name: Seq<char>) -> Option<int> {
    last_key(keys, kind, name, keys.len())
}

/// A name refers to the same asset whether one goes by the assets or by
/// their keys.
pub proof fn lemma_keys(assets: Seq<NodeView>, kind: NodeKind, name: Seq<char>, k: nat)
    requires
        k <= assets.len(),
    ensures
        last_key(keys_of(assets), kind, name, k) == last_named(assets, kind, name, k),
    decreases k,
{
    if k > 0 {
        lemma_keys(assets, kind, name, (k - 1) as nat);
    }
}

/// Binding textures changes no key.
pub proof fn lemma_bound_keys(assets: Seq<NodeView>)
    ensures
        keys_of(bound(assets)) == keys_of(assets),
{
    assert forall|i: int| 0 <= i < assets.len() implies keys_of(bound(assets))[i] == keys_of(
        assets,
    )[i] by {
        assert(bound(assets)[i] == bound_asset(assets, i));
    }
    assert(keys_of(bound(assets)) =~= keys_of(assets));
}

/// A geom after the assets it refers to were bound: its mesh where it has
/// the form of one, its material where one was set on it. A name that
/// refers to nothing is an error.
pub open spec fn geom_bound(geom: NodeView, keys: AssetKeys) -> Result<NodeView, ModelError> {
    let need_mesh = geom_type_of(geom.attrs) == GeomType::Mesh;
    let need_material = has_key(geom.attrs, "material"@);
    let mesh = key_named(keys, NodeKind::Mesh, text_of(geom.attrs, "mesh"@));
    let material = key_named(keys, NodeKind::Material, text_of(geom.attrs, "material"@));
    if need_mesh && mesh is None {
        Err(ModelError::AssetResolution)
    } else if need_material && material is None {
        Err(ModelError::AssetResolution)
    } else {
        Ok(
            NodeView {
                mesh: if need_mesh {
                    Some(mesh->0 as usize)
                } else {
                    geom.mesh
                },
                material: if need_material {
                    Some(material->0 as usize)
                } else {
                    geom.material
                },
                ..geom
            },
        )
    }
}

/// Whether binding the assets of a tree looks a material up: it does for a
/// geom on which one was set.
pub open spec fn asks_material(node: NodeView) -> bool
    decreases node,
{
    match node.kind {
        NodeKind::Geom => has_key(node.attrs, "material"@),
        NodeKind::Body | NodeKind::WorldBody => asks_material_first(
            node.children,
            node.children.len(),
        ),
        _ => false,
    }
}

/// Whether one of the first `k` trees of a list looks a material up.
pub open spec fn asks_material_first(nodes: Seq<NodeView>, k: nat) -> bool
    decreases nodes, k,
{
    if k == 0 || k > nodes.len() {
        false
    } else {
        asks_material_first(nodes, (k - 1) as nat) || asks_material(nodes[k - 1])
    }
}

/// A tree after the assets that its geoms refer to were bound, or the first
/// error met. Bodies hand the work to their children; the other kinds have
/// no assets.
pub open spec fn tree_bound(node: NodeView, keys: AssetKeys) -> Result<NodeView, ModelError>
    decreases node,
{
    match node.kind {
        NodeKind::Geom => geom_bound(node, keys),
        NodeKind::Body | NodeKind::WorldBody => match trees_bound(
            node.children,
            keys,
            node.children.len(),
        ) {
            Err(e) => Err(e),
            Ok(cs) => Ok(NodeView { children: cs, ..node }),
        },
        _ => Ok(node),
    }
}

/// A list of trees after the assets of the first `k` were bound.
pub open spec fn trees_bound(nodes: Seq<NodeView>, keys: AssetKeys, k: nat) -> Result<
    Seq<NodeView>,
    ModelError,
>
    decreases nodes, k,
{
    if k == 0 || k > nodes.len() {
        Ok(nodes)
    } else {
        match trees_bound(nodes, keys, (k - 1) as nat) {
            Err(e) => Err(e),
            Ok(cs) => match tree_bound(nodes[k - 1], keys) {
                Err(e) => Err(e),
                Ok(c) => Ok(cs.update(k - 1, c)),
            },
        }
    }
}

/// An error met while binding a list of trees stays the result.
pub proof fn lemma_trees_bound_err(nodes: Seq<NodeView>, keys: AssetKeys, k: nat, n: nat)
    requires
        k <= n <= nodes.len(),
        trees_bound(nodes, keys, k) is Err,
    ensures
        trees_bound(nodes, keys, n) == trees_bound(nodes, keys, k),
    decreases n - k,
{
    if k < n {
        lemma_trees_bound_err(nodes, keys, k, (n - 1) as nat);
    }
}

/// The assets after a tree was bound to them: with textures bound to
/// materials where the tree looked a material up.
pub open spec fn assets_after(asked: bool, assets: Seq<NodeView>) -> Seq<NodeView> {
    if asked {
        bound(assets)
    } else {
        assets
    }
}

/// Names the form that a `type` stands for.
pub fn geom_type_named(attrs_map: &AttrMap) -> (r: GeomType)
    ensures
        r == geom_type_of(attrs_map@),
{
    match attrs_map.get("type") {
        None => GeomType::Box,
        Some(t) => {
            let t = t.as_str();
            if same_text(t, "plane") {
                GeomType::Plane
            } else if same_text(t, "hfield") {
                GeomType::Hfield
            } else if same_text(t, "sphere") {
                GeomType::Sphere
            } else if same_text(t, "capsule") {
                GeomType::Capsule
            } else if same_text(t, "ellipsoid") {
                GeomType::Ellipsoid
            } else if same_text(t, "cylinder") {
                GeomType::Cylinder
            } else if same_text(t, "box") {
                GeomType::Box
            } else if same_text(t, "mesh") {
                GeomType::Mesh
            } else if same_text(t, "sdf") {
                GeomType::Sdf
            } else {
                GeomType::Box
            }
        },
    }
}

impl Geom {
    /// The form of the geom.
    pub fn geom_type(&self) -> (r: GeomType)
        ensures
            r == geom_type_of(self@.attrs),
    {
        geom_type_named(&self.attrs_map)
    }

    /// Binds the mesh and the material that the geom refers to: see
    /// [`geom_bound`]. Looking a material up binds textures to materials.
    pub fn apply_assets(&mut self, asset_manager: &mut AssetsManager) -> (r: Result<
        (),
        ModelError,
    >)
        ensures
            match geom_bound(old(self)@, keys_of(old(asset_manager)@.children)) {
                Ok(g) => r is Ok && final(self)@ == g && final(asset_manager)@.children
                    == assets_after(
                    has_key(old(self)@.attrs, "material"@),
                    old(asset_manager)@.children,
                ),
                Err(e) => r == Err::<(), ModelError>(e),
            },
            keys_of(final(asset_manager)@.children) == keys_of(old(asset_manager)@.children),
            final(asset_manager)@.children == old(asset_manager)@.children || final(asset_manager)@.children == bound(old(asset_manager)@.children),
    {
        let ghost assets = asset_manager@.children;
        proof {
            lemma_keys(assets, NodeKind::Mesh, text_of(self@.attrs, "mesh"@), assets.len());
            lemma_keys(
                assets,
                NodeKind::Material,
                text_of(self@.attrs, "material"@),
                assets.len(),
            );
            lemma_bound_keys(assets);
        }
        match self.geom_type() {
            GeomType::Mesh => {
                let name = text_in(&self.attrs_map, "mesh");
                match asset_manager.get_mesh(name) {
                    Some(i) => {
                        self.mesh = Some(i);
                    },
                    None => {
                        return Err(ModelError::AssetResolution);
                    },
                }
            },
            _ => {},
        }
        if self.attrs_map.contains_key("material") {
            let name = text_in(&self.attrs_map, "material");
            match asset_manager.get_material(name) {
                Some(i) => {
                    self.material = Some(i);
                },
                None => {
                    return Err(ModelError::AssetResolution);
                },
            }
        }
        Ok(())
    }
}

impl Node {
    /// Binds the assets that the geoms of a tree refer to: see
    /// [`tree_bound`].
    pub fn apply_assets(&mut self, asset_manager: &mut AssetsManager) -> (r: Result<(), ModelError>)
        ensures
            match tree_bound(old(self)@, keys_of(old(asset_manager)@.children)) {
                Ok(n) => r is Ok && final(self)@ == n && final(asset_manager)@.children
                    == assets_after(asks_material(old(self)@), old(asset_manager)@.children),
                Err(e) => r == Err::<(), ModelError>(e),
            },
            keys_of(final(asset_manager)@.children) == keys_of(old(asset_manager)@.children),
            final(asset_manager)@.children == old(asset_manager)@.children || final(asset_manager)@.children == bound(old(asset_manager)@.children),
        decreases *old(self),
    {
        proof {
            lemma_node_view(*self);
            lemma_node_children(*self);
        }
        let r = match self {
            Node::Geom(e) => e.apply_assets(asset_manager),
            Node::Body(e) => bind_all(&mut e.children, asset_manager),
            Node::WorldBody(e) => bind_all(&mut e.children, asset_manager),
            _ => Ok(()),
        };
        proof {
            lemma_node_view(*self);
            lemma_node_children(*self);
            if r is Ok {
                assert(self@ =~= tree_bound(old(self)@, keys_of(old(asset_manager)@.children))->Ok_0);
            }
        }
        r
    }
}

/// Binds the assets of every tree of a list, one after the other.
pub fn bind_all(nodes: &mut Vec<Node>, asset_manager: &mut AssetsManager) -> (r: Result<
    (),
    ModelError,
>)
    ensures
        match trees_bound(
            views_of(old(nodes)@),
            keys_of(old(asset_manager)@.children),
            old(nodes)@.len(),
        ) {
            Ok(cs) => r is Ok && views_of(final(nodes)@) == cs && final(asset_manager)@.children
                == assets_after(
                asks_material_first(views_of(old(nodes)@), old(nodes)@.len()),
                old(asset_manager)@.children,
            ),
            Err(e) => r == Err::<(), ModelError>(e),
        },
        keys_of(final(asset_manager)@.children) == keys_of(old(asset_manager)@.children),
        final(asset_manager)@.children == old(asset_manager)@.children || final(asset_manager)@.children == bound(old(asset_manager)@.children),
    decreases *old(nodes),
{
    let n = nodes.len();
    let ghost nodes0 = views_of(nodes@);
    let ghost assets0 = asset_manager@.children;
    let ghost keys = keys_of(assets0);
    proof {
        lemma_views_of(nodes@);
    }
    let mut i: usize = 0;
    while i < n
        invariant
            i <= n,
            n == nodes.len(),
            n == old(nodes)@.len(),
            nodes0 == views_of(old(nodes)@),
            nodes0.len() == n,
            assets0 == old(asset_manager)@.children,
            keys == keys_of(assets0),
            keys_of(asset_manager@.children) == keys,
            trees_bound(nodes0, keys, i as nat) == Ok::<Seq<NodeView>, ModelError>(views_of(nodes@)),
            asset_manager@.children == assets_after(asks_material_first(nodes0, i as nat), assets0),
            forall|j: int| i <= j < n ==> nodes[j] == old(nodes)[j],
        decreases n - i,
    {
        let ghost done = views_of(nodes@);
        let ghost current = asset_manager@.children;
        proof {
            lemma_views_of(nodes@);
            lemma_views_of(old(nodes)@);
            broadcast use vstd::std_specs::vec::axiom_vec_index_decreases;
            assert(decreases_to!(*old(nodes) => old(nodes)[i as int]));
            lemma_bound_twice(assets0);
        }
        match nodes[i].apply_assets(asset_manager) {
            Err(e) => {
                proof {
                    lemma_trees_bound_err(nodes0, keys, (i + 1) as nat, n as nat);
                }
                return Err(e);
            },
            Ok(()) => {},
        }
        proof {
            lemma_views_of(nodes@);
            assert(views_of(nodes@) =~= done.update(i as int, nodes[i as int]@));
        }
        i += 1;
    }
    Ok(())
}

/// What binding the first `k` trees of a list leaves: as many trees, the
/// first `k` bound and the others as they were.
pub proof fn lemma_trees_bound(nodes: Seq<NodeView>, keys: AssetKeys, k: nat)
    requires
        k <= nodes.len(),
        trees_bound(nodes, keys, k) is Ok,
    ensures
        trees_bound(nodes, keys, k)->Ok_0.len() == nodes.len(),
        forall|i: int|
            0 <= i < k ==> tree_bound(nodes[i], keys) == Ok::<NodeView, ModelError>(
                #[trigger] trees_bound(nodes, keys, k)->Ok_0[i],
            ),
        forall|i: int|
            k <= i < nodes.len() ==> (#[trigger] trees_bound(nodes, keys, k)->Ok_0[i]) == nodes[i],
    decreases k,
{
    if k > 0 {
        lemma_trees_bound(nodes, keys, (k - 1) as nat);
    }
}

/// Binding assets sets no attribute and takes none away.
pub proof fn lemma_tree_bound_extends(node: NodeView, keys: AssetKeys)
    requires
        tree_bound(node, keys) is Ok,
    ensures
        extends(tree_bound(node, keys)->Ok_0, node),
    decreases node,
{
    let bound = tree_bound(node, keys)->Ok_0;
    match node.kind {
        NodeKind::Body | NodeKind::WorldBody => {
            lemma_trees_bound(node.children, keys, node.children.len());
            assert forall|i: int| 0 <= i < node.children.len() implies extends(
                #[trigger] bound.children[i],
                node.children[i],
            ) by {
                assert(tree_bound(node.children[i], keys) == Ok::<NodeView, ModelError>(
                    trees_bound(node.children, keys, node.children.len())->Ok_0[i],
                ));
                lemma_tree_bound_extends(node.children[i], keys);
            }
        },
        _ => {
            lemma_extends_refl(node);
        },
    }
}

} // verus!
