//! The elements of a scene and the tree they form.
//!
//! An element is known by its kind, the attributes that were set on it and a
//! few things that are no attribute: its children, the assets bound to it,
//! the geometry loaded for it. [`NodeView`] holds all of that for every kind.

use vstd::prelude::*;
use crate::attrs::{Attrs, AttrMap};
use crate::scalar::{Scalar, ScalarView, scalar_views};
use crate::schema::NodeKind;

verus! {

/// The forms of geometry.
#[derive(Clone, Copy, PartialEq, Eq, Structural, Debug)]
pub enum GeomType {
    Plane,
    Hfield,
    Sphere,
    Capsule,
    Ellipsoid,
    Cylinder,
    Box,
    Mesh,
    Sdf,
}

/// The forms of joint.
#[derive(Clone, Copy, PartialEq, Eq, Structural, Debug)]
pub enum JointType {
    Free,
    Ball,
    Slide,
    Hinge,
}

/// The forms of texture.
#[derive(Clone, Copy, PartialEq, Eq, Structural, Debug)]
pub enum TextureType {
    TwoD,
    Cube,
    Skybox,
}

/// Where the geometry of a mesh asset comes from.
#[derive(Clone, Copy, PartialEq, Eq, Structural, Debug)]
pub enum MeshType {
    /// A polygon file, taken as it is.
    ObjFile,
    /// A list of points written in the document, of which the hull is taken.
    Inline,
}

/// Three angles in degrees, about the x, y and z axes.
#[derive(Debug)]
pub struct Euler {
    pub x: Scalar,
    pub y: Scalar,
    pub z: Scalar,
}

/// A rotation.
#[derive(Debug)]
pub enum Orientation {
    Euler(Euler),
    AxisAngle,
}

/// What an [`Orientation`] holds.
pub enum OrientationView {
    Euler(ScalarView, ScalarView, ScalarView),
    AxisAngle,
}

impl View for Orientation {
    type V = OrientationView;

    open spec fn view(&self) -> OrientationView {
        match self {
            Orientation::Euler(e) => OrientationView::Euler(e.x@, e.y@, e.z@),
            Orientation::AxisAngle => OrientationView::AxisAngle,
        }
    }
}

/// The views of a list of rotations.
pub open spec fn orientation_views(v: Seq<Orientation>) -> Seq<OrientationView> {
    Seq::new(v.len(), |i: int| v[i]@)
}

/// The attributes recorded for the elements of a default class: for a tag,
/// the attributes that an element with that tag inherits.
pub type TagAttrs = Seq<(Seq<char>, Attrs)>;

/// The views of a list of owned pairs of a tag and its attributes.
pub open spec fn tag_views(v: Seq<(String, AttrMap)>) -> TagAttrs {
    Seq::new(v.len(), |i: int| (v[i].0@, v[i].1@))
}

/// A geometric primitive.
#[derive(Debug)]
pub struct Geom {
    pub attrs_map: AttrMap,
    /// The place of the bound mesh among the assets.
    pub mesh: Option<usize>,
    /// The place of the bound material among the assets.
    pub material: Option<usize>,
}

/// The root of the bodies.
#[derive(Debug)]
pub struct WorldBody {
    pub attrs_map: AttrMap,
    pub children: Vec<Node>,
}

/// A body: a frame with children.
#[derive(Debug)]
pub struct Body {
    pub attrs_map: AttrMap,
    pub children: Vec<Node>,
    /// Rotations applied after the body was built, oldest first.
    pub added_rotations: Vec<Orientation>,
}

/// A joint.
#[derive(Debug)]
pub struct Joint {
    pub attrs_map: AttrMap,
}

/// A default class.
#[derive(Debug)]
pub struct Defaults {
    pub attrs_map: AttrMap,
    /// The classes nested in this one.
    pub children: Vec<Node>,
    pub element_attrs: Vec<(String, AttrMap)>,
}

/// A mesh asset.
#[derive(Debug)]
pub struct Mesh {
    pub attrs_map: AttrMap,
    pub name: String,
    pub vertices: Vec<Scalar>,
    pub indices: Vec<u32>,
    pub mesh_contents_type: MeshType,
}

/// A texture asset.
#[derive(Debug)]
pub struct Texture {
    pub attrs_map: AttrMap,
    /// Width and height of the image, in pixels.
    pub texture_image_dimensions: (u32, u32),
    /// The colour of a face that the image does not hold.
    pub rgb1: (u8, u8, u8),
    /// The image: three bytes for each pixel, row after row.
    pub file_data: Vec<u8>,
}

/// A material asset.
#[derive(Debug)]
pub struct Material {
    pub attrs_map: AttrMap,
    /// The place of the bound texture among the assets.
    pub texture: Option<usize>,
}

/// The registry of assets.
#[derive(Debug)]
pub struct AssetsManager {
    pub children: Vec<Node>,
}

/// An element of a scene.
#[derive(Debug)]
pub enum Node {
    Geom(Geom),
    WorldBody(WorldBody),
    Body(Body),
    Joint(Joint),
    Defaults(Defaults),
    Assets(AssetsManager),
    Mesh(Mesh),
    Texture(Texture),
    Material(Material),
}

/// What an element holds, whatever its kind. A field that a kind has no use
/// for keeps the value that [`blank`] gives it.
pub struct NodeView {
    pub kind: NodeKind,
    pub attrs: Attrs,
    pub children: Seq<NodeView>,
    /// Of a default class: what it records for each tag.
    pub element_attrs: TagAttrs,
    /// Of a body: the rotations added to it.
    pub rotations: Seq<OrientationView>,
    /// Of a geom: the bound mesh.
    pub mesh: Option<usize>,
    /// Of a geom: the bound material.
    pub material: Option<usize>,
    /// Of a material: the bound texture.
    pub texture: Option<usize>,
    /// Of a mesh: the name it was made with, or that was set on it.
    pub name: Seq<char>,
    /// Of a mesh: where its geometry comes from.
    pub contents: MeshType,
    /// Of a mesh: its coordinates, three for each point.
    pub vertices: Seq<ScalarView>,
    /// Of a mesh: the corners of its triangles.
    pub indices: Seq<u32>,
    /// Of a texture: width and height of its image.
    pub dimensions: (u32, u32),
    /// Of a texture: the colour of a missing face.
    pub fill: (u8, u8, u8),
    /// Of a texture: its image.
    pub file_data: Seq<u8>,
}

/// The colour that a texture gives to a face it has no image for.
pub open spec fn default_fill() -> (u8, u8, u8) {
    (128u8, 102u8, 76u8)
}

/// An element of a kind on which nothing was set.
pub open spec fn blank(kind: NodeKind) -> NodeView {
    NodeView {
        kind,
        attrs: Seq::empty(),
        children: Seq::empty(),
        element_attrs: Seq::empty(),
        rotations: Seq::empty(),
        mesh: None,
        material: None,
        texture: None,
        name: Seq::empty(),
        contents: MeshType::Inline,
        vertices: Seq::empty(),
        indices: Seq::empty(),
        dimensions: (0u32, 0u32),
        fill: default_fill(),
        file_data: Seq::empty(),
    }
}

/// What an element holds.
pub open spec fn node_view(n: Node) -> NodeView
    decreases n,
{
    match n {
        Node::Geom(e) => NodeView {
            attrs: e.attrs_map@,
            mesh: e.mesh,
            material: e.material,
            ..blank(NodeKind::Geom)
        },
        Node::WorldBody(e) => NodeView {
            attrs: e.attrs_map@,
            children: node_views(e.children@, e.children@.len()),
            ..blank(NodeKind::WorldBody)
        },
        Node::Body(e) => NodeView {
            attrs: e.attrs_map@,
            children: node_views(e.children@, e.children@.len()),
            rotations: orientation_views(e.added_rotations@),
            ..blank(NodeKind::Body)
        },
        Node::Joint(e) => NodeView { attrs: e.attrs_map@, ..blank(NodeKind::Joint) },
        Node::Defaults(e) => NodeView {
            attrs: e.attrs_map@,
            children: node_views(e.children@, e.children@.len()),
            element_attrs: tag_views(e.element_attrs@),
            ..blank(NodeKind::Defaults)
        },
        Node::Assets(e) => NodeView {
            children: node_views(e.children@, e.children@.len()),
            ..blank(NodeKind::Assets)
        },
        Node::Mesh(e) => NodeView {
            attrs: e.attrs_map@,
            name: e.name@,
            contents: e.mesh_contents_type,
            vertices: scalar_views(e.vertices@),
            indices: e.indices@,
            ..blank(NodeKind::Mesh)
        },
        Node::Texture(e) => NodeView {
            attrs: e.attrs_map@,
            dimensions: e.texture_image_dimensions,
            fill: e.rgb1,
            file_data: e.file_data@,
            ..blank(NodeKind::Texture)
        },
        Node::Material(e) => NodeView {
            attrs: e.attrs_map@,
            texture: e.texture,
            ..blank(NodeKind::Material)
        },
    }
}

/// What the first `k` elements of a list hold.
pub open spec fn node_views(s: Seq<Node>, k: nat) -> Seq<NodeView>
    decreases s, k,
{
    if k == 0 || k > s.len() {
        Seq::empty()
    } else {
        node_views(s, (k - 1) as nat).push(node_view(s[k - 1]))
    }
}

/// What the elements of a list hold.
pub open spec fn views_of(s: Seq<Node>) -> Seq<NodeView> {
    node_views(s, s.len())
}

/// The views of the first `k` elements of a list are the views of these
/// elements, one for one.
pub proof fn lemma_node_views(s: Seq<Node>, k: nat)
    requires
        k <= s.len(),
    ensures
        node_views(s, k).len() == k,
        forall|i: int| 0 <= i < k ==> (#[trigger] node_views(s, k)[i]) == node_view(s[i]),
    decreases k,
{
    if k > 0 {
        lemma_node_views(s, (k - 1) as nat);
    }
}

/// The views of a list are the views of its elements, one for one.
pub proof fn lemma_views_of(s: Seq<Node>)
    ensures
        views_of(s).len() == s.len(),
        forall|i: int| 0 <= i < s.len() ==> (#[trigger] views_of(s)[i]) == node_view(s[i]),
{
    lemma_node_views(s, s.len());
}

impl View for Node {
    type V = NodeView;

    open spec fn view(&self) -> NodeView {
        node_view(*self)
    }
}

impl View for Geom {
    type V = NodeView;

    open spec fn view(&self) -> NodeView {
        NodeView {
            attrs: self.attrs_map@,
            mesh: self.mesh,
            material: self.material,
            ..blank(NodeKind::Geom)
        }
    }
}

impl View for WorldBody {
    type V = NodeView;

    open spec fn view(&self) -> NodeView {
        NodeView {
            attrs: self.attrs_map@,
            children: views_of(self.children@),
            ..blank(NodeKind::WorldBody)
        }
    }
}

impl View for Body {
    type V = NodeView;

    open spec fn view(&self) -> NodeView {
        NodeView {
            attrs: self.attrs_map@,
            children: views_of(self.children@),
            rotations: orientation_views(self.added_rotations@),
            ..blank(NodeKind::Body)
        }
    }
}

impl View for Joint {
    type V = NodeView;

    open spec fn view(&self) -> NodeView {
        NodeView { attrs: self.attrs_map@, ..blank(NodeKind::Joint) }
    }
}

impl View for Defaults {
    type V = NodeView;

    open spec fn view(&self) -> NodeView {
        NodeView {
            attrs: self.attrs_map@,
            children: views_of(self.children@),
            element_attrs: tag_views(self.element_attrs@),
            ..blank(NodeKind::Defaults)
        }
    }
}

impl View for AssetsManager {
    type V = NodeView;

    open spec fn view(&self) -> NodeView {
        NodeView { children: views_of(self.children@), ..blank(NodeKind::Assets) }
    }
}

impl View for Mesh {
    type V = NodeView;

    open spec fn view(&self) -> NodeView {
        NodeView {
            attrs: self.attrs_map@,
            name: self.name@,
            contents: self.mesh_contents_type,
            vertices: scalar_views(self.vertices@),
            indices: self.indices@,
            ..blank(NodeKind::Mesh)
        }
    }
}

impl View for Texture {
    type V = NodeView;

    open spec fn view(&self) -> NodeView {
        NodeView {
            attrs: self.attrs_map@,
            dimensions: self.texture_image_dimensions,
            fill: self.rgb1,
            file_data: self.file_data@,
            ..blank(NodeKind::Texture)
        }
    }
}

impl View for Material {
    type V = NodeView;

    open spec fn view(&self) -> NodeView {
        NodeView { attrs: self.attrs_map@, texture: self.texture, ..blank(NodeKind::Material) }
    }
}

/// The view of an element is the view of what its variant holds.
pub proof fn lemma_node_view(n: Node)
    ensures
        n@ == match n {
            Node::Geom(e) => e@,
            Node::WorldBody(e) => e@,
            Node::Body(e) => e@,
            Node::Joint(e) => e@,
            Node::Defaults(e) => e@,
            Node::Assets(e) => e@,
            Node::Mesh(e) => e@,
            Node::Texture(e) => e@,
            Node::Material(e) => e@,
        },
{
}

impl Geom {
    /// A geom on which nothing was set.
    pub fn default() -> (r: Geom)
        ensures
            r@ == blank(NodeKind::Geom),
    {
        Geom { attrs_map: AttrMap::new(), mesh: None, material: None }
    }
}

impl WorldBody {
    /// A root of bodies on which nothing was set.
    pub fn default() -> (r: WorldBody)
        ensures
            r@ == blank(NodeKind::WorldBody),
    {
        WorldBody { attrs_map: AttrMap::new(), children: Vec::new() }
    }
}

impl Body {
    /// A body on which nothing was set.
    pub fn default() -> (r: Body)
        ensures
            r@ == blank(NodeKind::Body),
    {
        let r = Body { attrs_map: AttrMap::new(), children: Vec::new(), added_rotations: Vec::new() };
        assert(orientation_views(r.added_rotations@) =~= Seq::empty());
        r
    }
}

impl Joint {
    /// A joint on which nothing was set.
    pub fn default() -> (r: Joint)
        ensures
            r@ == blank(NodeKind::Joint),
    {
        Joint { attrs_map: AttrMap::new() }
    }
}

impl Defaults {
    /// A default class on which nothing was set: the class `main`.
    pub fn new() -> (r: Defaults)
        ensures
            r@ == blank(NodeKind::Defaults),
    {
        let r = Defaults {
            attrs_map: AttrMap::new(),
            children: Vec::new(),
            element_attrs: Vec::new(),
        };
        assert(tag_views(r.element_attrs@) =~= Seq::empty());
        r
    }
}

impl AssetsManager {
    /// A registry without assets.
    pub fn new() -> (r: AssetsManager)
        ensures
            r@ == blank(NodeKind::Assets),
    {
        AssetsManager { children: Vec::new() }
    }
}

impl Mesh {
    /// A mesh of points, without points, made with a name.
    pub fn new(name: String) -> (r: Mesh)
        ensures
            r@ == (NodeView { name: name@, ..blank(NodeKind::Mesh) }),
    {
        let r = Mesh {
            attrs_map: AttrMap::new(),
            name,
            vertices: Vec::new(),
            indices: Vec::new(),
            mesh_contents_type: MeshType::Inline,
        };
        assert(scalar_views(r.vertices@) =~= Seq::empty());
        r
    }
}

impl Texture {
    /// A cube texture of one cell, without an image.
    pub fn new() -> (r: Texture)
        ensures
            r@ == blank(NodeKind::Texture),
    {
        Texture {
            attrs_map: AttrMap::new(),
            texture_image_dimensions: (0, 0),
            rgb1: (128, 102, 76),
            file_data: Vec::new(),
        }
    }
}

impl Material {
    /// A material on which nothing was set.
    pub fn new() -> (r: Material)
        ensures
            r@ == blank(NodeKind::Material),
    {
        Material { attrs_map: AttrMap::new(), texture: None }
    }
}

impl Node {
    /// An element of a kind on which nothing was set.
    pub fn new(kind: NodeKind) -> (r: Node)
        ensures
            r@ == blank(kind),
    {
        let r = match kind {
            NodeKind::Geom => Node::Geom(Geom::default()),
            NodeKind::WorldBody => Node::WorldBody(WorldBody::default()),
            NodeKind::Body => Node::Body(Body::default()),
            NodeKind::Joint => Node::Joint(Joint::default()),
            NodeKind::Defaults => Node::Defaults(Defaults::new()),
            NodeKind::Assets => Node::Assets(AssetsManager::new()),
            NodeKind::Mesh => Node::Mesh(Mesh::new(String::new())),
            NodeKind::Texture => Node::Texture(Texture::new()),
            NodeKind::Material => Node::Material(Material::new()),
        };
        proof {
            lemma_node_view(r);
        }
        r
    }

    /// The kind of the element.
    pub fn kind(&self) -> (r: NodeKind)
        ensures
            r == self@.kind,
    {
        match self {
            Node::Geom(_) => NodeKind::Geom,
            Node::WorldBody(_) => NodeKind::WorldBody,
            Node::Body(_) => NodeKind::Body,
            Node::Joint(_) => NodeKind::Joint,
            Node::Defaults(_) => NodeKind::Defaults,
            Node::Assets(_) => NodeKind::Assets,
            Node::Mesh(_) => NodeKind::Mesh,
            Node::Texture(_) => NodeKind::Texture,
            Node::Material(_) => NodeKind::Material,
        }
    }
}

} // verus!
