//! Setting attributes on elements and giving them children.

use vstd::prelude::*;
use vstd::string::StrSliceExecFns;
use crate::attrs::{AttrMap, has_key, value_of, Attrs, pair_views};
use crate::defaults::{size, size_all, lemma_size_first, lemma_offered_size};
use crate::error::ModelError;
use crate::node::{
    Node, NodeView, Geom, WorldBody, Body, Joint, Defaults, AssetsManager, Mesh, Texture, Material,
    MeshType, views_of, lemma_views_of, lemma_node_view, tag_views,
};
use crate::rules::{
    attr_outcome, offered, handed, handed_first, lemma_handed_first, lemma_handed, offered_list, class_of, name_of,
    stem, index_of, stamped, tag_at, with_tag, keeps_child, with_child,
};
use crate::scalar::{scalar_views, all_numbers, lemma_numerals_are_numbers};
use crate::schema::{tag_of, tag, NodeKind, ValueShape, shape_of_key, check_shape, read_scalars};
use crate::text::{chars_of, Separator, tokens_of, same_text};

verus! {

/// Decides what offering a key with a value to an element of a kind comes to.
pub fn outcome(kind: NodeKind, attrs_map: &AttrMap, key: &str, value: &str) -> (r: Result<
    bool,
    ModelError,
>)
    ensures
        r == attr_outcome(kind, attrs_map@, key@, value@),
{
    if attrs_map.contains_key(key) {
        Ok(false)
    } else {
        match shape_of_key(kind, key) {
            None => Ok(false),
            Some(shape) => if check_shape(shape, value) {
                Ok(true)
            } else {
                Err(ModelError::AttributeValue)
            },
        }
    }
}

/// Offers a key to an element that keeps nothing of it but the attribute.
fn take(kind: NodeKind, attrs_map: &mut AttrMap, key: String, value: String) -> (r: Result<
    bool,
    ModelError,
>)
    ensures
        r == attr_outcome(kind, old(attrs_map)@, key@, value@),
        final(attrs_map)@ == if r == Ok::<bool, ModelError>(true) {
            old(attrs_map)@.push((key@, value@))
        } else {
            old(attrs_map)@
        },
{
    let r = outcome(kind, attrs_map, key.as_str(), value.as_str());
    if let Ok(true) = r {
        attrs_map.set(key, value);
    }
    r
}

impl Geom {
    /// Offers a key with a value: the first value set for a key stays.
    pub fn add_attr(&mut self, key: String, value: String) -> (r: Result<bool, ModelError>)
        ensures
            r == attr_outcome(NodeKind::Geom, old(self)@.attrs, key@, value@),
            final(self)@ == offered(old(self)@, key@, value@),
    {
        take(NodeKind::Geom, &mut self.attrs_map, key, value)
    }
}

impl Joint {
    /// Offers a key with a value: the first value set for a key stays.
    pub fn add_attr(&mut self, key: String, value: String) -> (r: Result<bool, ModelError>)
        ensures
            r == attr_outcome(NodeKind::Joint, old(self)@.attrs, key@, value@),
            final(self)@ == offered(old(self)@, key@, value@),
    {
        take(NodeKind::Joint, &mut self.attrs_map, key, value)
    }
}

impl Defaults {
    /// Offers a key with a value: the first value set for a key stays.
    pub fn add_attr(&mut self, key: String, value: String) -> (r: Result<bool, ModelError>)
        ensures
            r == attr_outcome(NodeKind::Defaults, old(self)@.attrs, key@, value@),
            final(self)@ == offered(old(self)@, key@, value@),
    {
        take(NodeKind::Defaults, &mut self.attrs_map, key, value)
    }
}

impl Texture {
    /// Offers a key with a value: the first value set for a key stays.
    pub fn add_attr(&mut self, key: String, value: String) -> (r: Result<bool, ModelError>)
        ensures
            r == attr_outcome(NodeKind::Texture, old(self)@.attrs, key@, value@),
            final(self)@ == offered(old(self)@, key@, value@),
    {
        take(NodeKind::Texture, &mut self.attrs_map, key, value)
    }
}

impl Material {
    /// Offers a key with a value: the first value set for a key stays.
    pub fn add_attr(&mut self, key: String, value: String) -> (r: Result<bool, ModelError>)
        ensures
            r == attr_outcome(NodeKind::Material, old(self)@.attrs, key@, value@),
            final(self)@ == offered(old(self)@, key@, value@),
    {
        take(NodeKind::Material, &mut self.attrs_map, key, value)
    }
}

impl AssetsManager {
    /// The registry knows no key: every offer is turned down.
    pub fn add_attr(&mut self, key: String, value: String) -> (r: Result<bool, ModelError>)
        ensures
            r == attr_outcome(NodeKind::Assets, old(self)@.attrs, key@, value@),
            r == Ok::<bool, ModelError>(false),
            final(self)@ == offered(old(self)@, key@, value@),
    {
        Ok(false)
    }
}

impl Mesh {
    /// Offers a key with a value: the first value set for a key stays. A
    /// `file` makes the mesh one that is read from a file; a `vertex` makes it
    /// one of points and adds its numerals to the coordinates.
    pub fn add_attr(&mut self, key: String, value: String) -> (r: Result<bool, ModelError>)
        ensures
            r == attr_outcome(NodeKind::Mesh, old(self)@.attrs, key@, value@),
            final(self)@ == offered(old(self)@, key@, value@),
            all_numbers(old(self)@.vertices) ==> all_numbers(final(self)@.vertices),
    {
        let r = outcome(NodeKind::Mesh, &self.attrs_map, key.as_str(), value.as_str());
        if let Ok(true) = r {
            if same_text(key.as_str(), "name") {
                self.name = value.clone();
            } else if same_text(key.as_str(), "file") {
                self.mesh_contents_type = MeshType::ObjFile;
            } else if same_text(key.as_str(), "vertex") {
                self.mesh_contents_type = MeshType::Inline;
                let ghost before = scalar_views(self.vertices@);
                match read_scalars(ValueShape::Numerals, value.as_str()) {
                    Some(mut more) => {
                        let ghost added = scalar_views(more@);
                        self.vertices.append(&mut more);
                        assert(scalar_views(self.vertices@) =~= before + added);
                        proof {
                            lemma_numerals_are_numbers(tokens_of(Separator::Blank, value@));
                        }
                    },
                    None => {},
                }
            }
            self.attrs_map.set(key, value);
        }
        r
    }
}

impl Body {
    /// Offers a key with a value: the first value set for a key stays. A
    /// `childclass` that is taken is offered to every child as well.
    pub fn add_attr(&mut self, key: String, value: String) -> (r: Result<bool, ModelError>)
        ensures
            r == attr_outcome(NodeKind::Body, old(self)@.attrs, key@, value@),
            final(self)@ == offered(old(self)@, key@, value@),
        decreases size(old(self)@), 0nat,
    {
        let r = outcome(NodeKind::Body, &self.attrs_map, key.as_str(), value.as_str());
        proof {
            lemma_views_of(self.children@);
        }
        if let Ok(true) = r {
            if same_text(key.as_str(), "childclass") {
                offer_all(&mut self.children, &key, &value);
            }
            self.attrs_map.set(key, value);
        }
        assert(self@ =~= offered(old(self)@, key@, value@));
        r
    }
}

impl WorldBody {
    /// Offers a key with a value: the first value set for a key stays. A
    /// `childclass` that is taken is offered to every child as well.
    pub fn add_attr(&mut self, key: String, value: String) -> (r: Result<bool, ModelError>)
        ensures
            r == attr_outcome(NodeKind::WorldBody, old(self)@.attrs, key@, value@),
            final(self)@ == offered(old(self)@, key@, value@),
        decreases size(old(self)@), 0nat,
    {
        let r = outcome(NodeKind::WorldBody, &self.attrs_map, key.as_str(), value.as_str());
        proof {
            lemma_views_of(self.children@);
        }
        if let Ok(true) = r {
            if same_text(key.as_str(), "childclass") {
                offer_all(&mut self.children, &key, &value);
            }
            self.attrs_map.set(key, value);
        }
        assert(self@ =~= offered(old(self)@, key@, value@));
        r
    }
}

/// Hands the `childclass` of a body down to every element of a list: the
/// value is offered to each as its `class` and as its `childclass`.
pub fn offer_all(nodes: &mut Vec<Node>, key: &String, value: &String)
    requires
        key@ == "childclass"@,
    ensures
        views_of(final(nodes)@) == handed_first(views_of(old(nodes)@), old(nodes)@.len(), value@),
    decreases size_all(views_of(old(nodes)@)), 2nat,
{
    let n = nodes.len();
    let mut i: usize = 0;
    proof {
        lemma_views_of(nodes@);
    }
    while i < n
        invariant
            n == nodes.len(),
            n == old(nodes).len(),
            i <= n,
            key@ == "childclass"@,
            forall|j: int| i <= j < n ==> nodes[j] == old(nodes)[j],
            forall|j: int| 0 <= j < i ==> (#[trigger] nodes[j])@ == handed(old(nodes)[j]@, value@),
        decreases n - i,
    {
        proof {
            lemma_views_of(old(nodes)@);
            lemma_size_first(views_of(old(nodes)@), old(nodes)@.len(), i as int);
            lemma_handed(old(nodes)[i as int]@, value@);
            lemma_offered_size(old(nodes)[i as int]@, "class"@, value@);
        }
        let _ = nodes[i].add_attr("class".to_owned(), value.clone());
        let _ = nodes[i].add_attr(key.clone(), value.clone());
        i += 1;
    }
    proof {
        lemma_views_of(nodes@);
        lemma_views_of(old(nodes)@);
        lemma_handed_first(views_of(old(nodes)@), old(nodes)@.len(), value@);
        assert(views_of(nodes@) =~= handed_first(
            views_of(old(nodes)@),
            old(nodes)@.len(),
            value@,
        ));
    }
}

impl Node {
    /// Offers a key with a value to the element: the first value set for a
    /// key stays, a key that the kind does not know is passed over, and a
    /// value that has not the shape its key needs is an error.
    pub fn add_attr(&mut self, key: String, value: String) -> (r: Result<bool, ModelError>)
        ensures
            r == attr_outcome(old(self)@.kind, old(self)@.attrs, key@, value@),
            final(self)@ == offered(old(self)@, key@, value@),
        decreases size(old(self)@), 1nat,
    {
        proof {
            lemma_node_view(*self);
        }
        let r = match self {
            Node::Geom(e) => e.add_attr(key, value),
            Node::WorldBody(e) => e.add_attr(key, value),
            Node::Body(e) => e.add_attr(key, value),
            Node::Joint(e) => e.add_attr(key, value),
            Node::Defaults(e) => e.add_attr(key, value),
            Node::Assets(e) => e.add_attr(key, value),
            Node::Mesh(e) => e.add_attr(key, value),
            Node::Texture(e) => e.add_attr(key, value),
            Node::Material(e) => e.add_attr(key, value),
        };
        proof {
            lemma_node_view(*self);
        }
        r
    }
}

/// The views of a list with one more element at its start.
pub proof fn lemma_views_insert(s: Seq<Node>, c: Node)
    ensures
        views_of(s.insert(0, c)) == views_of(s).insert(0, c@),
{
    lemma_views_of(s);
    lemma_views_of(s.insert(0, c));
    assert(views_of(s.insert(0, c)) =~= views_of(s).insert(0, c@));
}

/// A file name up to its first point.
pub fn file_stem(file: &str) -> (r: String)
    ensures
        r@ == stem(file@),
{
    let chars = chars_of(file);
    let mut i: usize = 0;
    while i < chars.len() && chars[i] != '.'
        invariant
            i <= chars.len(),
            index_of(chars@, '.', i as int) == index_of(chars@, '.', 0),
        decreases chars.len() - i,
    {
        i += 1;
    }
    file.substring_char(0, i).to_owned()
}

/// The class that the attributes of an element give it.
pub fn class_in(attrs_map: &AttrMap) -> (r: String)
    ensures
        r@ == if has_key(attrs_map@, "class"@) && value_of(attrs_map@, "class"@).len() > 0 {
            value_of(attrs_map@, "class"@)
        } else {
            "main"@
        },
{
    match attrs_map.get("class") {
        Some(c) => if c.as_str().unicode_len() > 0 {
            c.clone()
        } else {
            "main".to_owned()
        },
        None => "main".to_owned(),
    }
}

/// The index of the pair that a record holds for a tag, or its length.
pub fn tag_position(tags: &Vec<(String, AttrMap)>, tag: &str) -> (i: usize)
    ensures
        i == tag_at(tag_views(tags@), tag@, 0),
        i <= tags.len(),
{
    let mut i: usize = 0;
    while i < tags.len()
        invariant
            i <= tags.len(),
            tag_at(tag_views(tags@), tag@, i as int) == tag_at(tag_views(tags@), tag@, 0),
        decreases tags.len() - i,
    {
        assert(tag_views(tags@)[i as int].0 == tags[i as int].0@);
        if same_text(tags[i].0.as_str(), tag) {
            return i;
        }
        i += 1;
    }
    i
}

/// Records attributes under a tag, in place of what was recorded under it.
pub fn set_tag(tags: &mut Vec<(String, AttrMap)>, tag: String, attrs_map: AttrMap)
    ensures
        tag_views(final(tags)@) == with_tag(tag_views(old(tags)@), tag@, attrs_map@),
{
    let i = tag_position(tags, tag.as_str());
    let ghost before = tag_views(tags@);
    if i < tags.len() {
        tags[i] = (tag, attrs_map);
        assert(tag_views(tags@) =~= before.update(i as int, (tag@, attrs_map@)));
    } else {
        tags.push((tag, attrs_map));
        assert(tag_views(tags@) =~= before.push((tag@, attrs_map@)));
    }
}

impl Node {
    /// Offers a list of pairs, one after the other, and stops at the first
    /// value that has not the shape its key needs.
    pub fn add_attrs(&mut self, attrs: Vec<(String, String)>) -> (r: Result<(), ModelError>)
        ensures
            match offered_list(old(self)@, pair_views(attrs@), attrs@.len()) {
                Ok(w) => r is Ok && final(self)@ == w,
                Err(e) => r == Err::<(), ModelError>(e),
            },
    {
        let mut i: usize = 0;
        let ghost pairs = pair_views(attrs@);
        while i < attrs.len()
            invariant
                i <= attrs.len(),
                pairs == pair_views(attrs@),
                offered_list(old(self)@, pairs, i as nat) == Ok::<NodeView, ModelError>(self@),
            decreases attrs.len() - i,
        {
            assert(pairs[i as int] == (attrs[i as int].0@, attrs[i as int].1@));
            match self.add_attr(attrs[i].0.clone(), attrs[i].1.clone()) {
                Err(e) => {
                    proof {
                        lemma_offered_list_err(old(self)@, pairs, (i + 1) as nat, attrs@.len());
                    }
                    return Err(e);
                },
                Ok(_) => {},
            }
            i += 1;
        }
        Ok(())
    }

    /// The name that a document uses for elements of this kind.
    pub fn get_node_name(&self) -> (r: String)
        ensures
            r@ == tag_of(self@.kind),
    {
        tag(self.kind())
    }

    /// The attributes that were set, in the order in which they were.
    pub fn get_set_attributes_list(&self) -> (r: AttrMap)
        ensures
            r@ == self@.attrs,
    {
        match self {
            Node::Geom(e) => e.attrs_map.copy(),
            Node::WorldBody(e) => e.attrs_map.copy(),
            Node::Body(e) => e.attrs_map.copy(),
            Node::Joint(e) => e.attrs_map.copy(),
            Node::Defaults(e) => e.attrs_map.copy(),
            Node::Assets(_) => AttrMap::new(),
            Node::Mesh(e) => e.attrs_map.copy(),
            Node::Texture(e) => e.attrs_map.copy(),
            Node::Material(e) => e.attrs_map.copy(),
        }
    }

    /// The class of the element: `main` where none was set.
    pub fn get_class(&self) -> (r: String)
        ensures
            r@ == class_of(self@),
    {
        match self {
            Node::Geom(e) => class_in(&e.attrs_map),
            Node::WorldBody(e) => class_in(&e.attrs_map),
            Node::Body(e) => class_in(&e.attrs_map),
            Node::Joint(e) => class_in(&e.attrs_map),
            Node::Defaults(e) => class_in(&e.attrs_map),
            Node::Assets(_) => {
                let empty = AttrMap::new();
                class_in(&empty)
            },
            Node::Mesh(e) => class_in(&e.attrs_map),
            Node::Texture(e) => class_in(&e.attrs_map),
            Node::Material(e) => class_in(&e.attrs_map),
        }
    }

    /// The name of the element, which is empty where it has none.
    pub fn get_name(&self) -> (r: String)
        ensures
            r@ == name_of(self@),
    {
        match self {
            Node::Defaults(_) | Node::Assets(_) => String::new(),
            Node::Mesh(e) => if e.attrs_map.contains_key("name") {
                e.name.clone()
            } else {
                match e.attrs_map.get("file") {
                    Some(f) => file_stem(f.as_str()),
                    None => String::new(),
                }
            },
            Node::Texture(e) => match e.attrs_map.get("name") {
                Some(n) => n.clone(),
                None => match e.attrs_map.get("file") {
                    Some(f) => file_stem(f.as_str()),
                    None => String::new(),
                },
            },
            Node::Geom(e) => plain_name(&e.attrs_map),
            Node::WorldBody(e) => plain_name(&e.attrs_map),
            Node::Body(e) => plain_name(&e.attrs_map),
            Node::Joint(e) => plain_name(&e.attrs_map),
            Node::Material(e) => plain_name(&e.attrs_map),
        }
    }

    /// The children of the element, the one added last first; `None` for a
    /// kind that has none.
    pub fn get_children(&self) -> (r: Option<&Vec<Node>>)
        ensures
            match r {
                Some(c) => views_of(c@) == self@.children,
                None => self@.children.len() == 0,
            },
    {
        match self {
            Node::WorldBody(e) => Some(&e.children),
            Node::Body(e) => Some(&e.children),
            Node::Defaults(e) => Some(&e.children),
            Node::Assets(e) => Some(&e.children),
            _ => None,
        }
    }

    /// Gives a child the class of its parent's children: see [`stamped`].
    pub fn stamp(&self, child: &mut Node)
        ensures
            final(child)@ == if self@.kind == NodeKind::Body || self@.kind == NodeKind::WorldBody {
                stamped(self@.attrs, old(child)@)
            } else {
                old(child)@
            },
    {
        match self {
            Node::Body(e) => stamp_with(&e.attrs_map, child),
            Node::WorldBody(e) => stamp_with(&e.attrs_map, child),
            _ => {},
        }
    }

    /// Gives the element a child: see [`with_child`]. Says whether the child
    /// became one of the children.
    pub fn add_child(&mut self, child: Node) -> (kept: bool)
        ensures
            final(self)@ == with_child(old(self)@, child@),
            kept == keeps_child(old(self)@.kind, child@.kind),
    {
        let mut child = child;
        let ghost given = child@;
        proof {
            lemma_node_view(*self);
        }
        let kept = match self {
            Node::Body(e) => {
                stamp_with(&e.attrs_map, &mut child);
                proof {
                    lemma_views_insert(e.children@, child);
                }
                e.children.insert(0, child);
                true
            },
            Node::WorldBody(e) => {
                stamp_with(&e.attrs_map, &mut child);
                proof {
                    lemma_views_insert(e.children@, child);
                }
                e.children.insert(0, child);
                true
            },
            Node::Assets(e) => {
                proof {
                    lemma_views_insert(e.children@, child);
                }
                e.children.insert(0, child);
                true
            },
            Node::Defaults(e) => {
                match child.kind() {
                    NodeKind::Defaults => {
                        proof {
                            lemma_views_insert(e.children@, child);
                        }
                        e.children.insert(0, child);
                        true
                    },
                    _ => {
                        set_tag(
                            &mut e.element_attrs,
                            child.get_node_name(),
                            child.get_set_attributes_list(),
                        );
                        false
                    },
                }
            },
            _ => false,
        };
        proof {
            lemma_node_view(*self);
            assert(self@ =~= with_child(old(self)@, given));
        }
        kept
    }
}

/// An error met while offering a list of pairs stays the result, however
/// many pairs follow.
pub proof fn lemma_offered_list_err(v: NodeView, pairs: Attrs, k: nat, n: nat)
    requires
        k <= n <= pairs.len(),
        offered_list(v, pairs, k) is Err,
    ensures
        offered_list(v, pairs, n) == offered_list(v, pairs, k),
    decreases n - k,
{
    if k < n {
        lemma_offered_list_err(v, pairs, k, (n - 1) as nat);
    }
}

/// The value of `name`, or the empty text.
fn plain_name(attrs_map: &AttrMap) -> (r: String)
    ensures
        r@ == if has_key(attrs_map@, "name"@) {
            value_of(attrs_map@, "name"@)
        } else {
            Seq::empty()
        },
{
    match attrs_map.get("name") {
        Some(n) => n.clone(),
        None => String::new(),
    }
}

/// Offers the `childclass` of a parent to a child as its class and as its
/// childclass.
fn stamp_with(parent_attrs: &AttrMap, child: &mut Node)
    ensures
        final(child)@ == stamped(parent_attrs@, old(child)@),
{
    match parent_attrs.get("childclass") {
        Some(cc) => {
            let _ = child.add_attr("class".to_owned(), cc.clone());
            let _ = child.add_attr("childclass".to_owned(), cc.clone());
        },
        None => {},
    }
}

} // verus!
