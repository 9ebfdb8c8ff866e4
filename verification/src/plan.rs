//! What is to be drawn: for every geom of a scene a job that says which form
//! it has, where its numbers come from, what fills it, and through which
//! frames its vertices pass on their way to the world.
//!
//! The numeric work of a job is the caller's: to lay out the vertices of the
//! form, to compute the filling from them, to turn and move them by the
//! geom's own angles and position, and then by each frame in order.

use vstd::prelude::*;
use crate::assets::{mesh_indices_fit, meshes_fit};
use crate::attrs::{Attrs, AttrMap, has_key, value_of};
use crate::assets::{bound, bound_asset};
use crate::binding::{
    geom_type_of, geom_bound, tree_bound, trees_bound, keys_of, AssetKeys, last_key, key_named, text_of,
    lemma_trees_bound,
};
use crate::error::ModelError;
use crate::geometry::{
    box_index_list, sphere_index_list, get_box_indices, get_sphere_indices, SPHERE_SEGMENTS,
    hull_indices, hull_index_list,
    sphere_vertices,
};
use crate::node::{
    Node, NodeView, AssetsManager, Geom, Body, WorldBody, Mesh, Material, Texture, GeomType,
    MeshType, TextureType, Orientation, OrientationView, Euler, orientation_views, views_of,
    lemma_views_of, lemma_node_view,
};
use crate::scalar::{
    Scalar, ScalarView, scalar_views, copy_scalars, zero, one, is_number, all_numbers,
    lemma_zero_one, numerals_of,
};
use crate::schema::{NodeKind, ValueShape, shape_ok, scalars_of, read_scalars, is_numeric};
use crate::text::{Separator, tokens_of};
use crate::texture::texture_type_of;

verus! {

/// The three numbers that a key gives: the numerals of its value, filled up
/// with a default where the value has fewer, and three times the default
/// where the key has no value or one of another shape.
pub open spec fn triple(attrs: Attrs, key: Seq<char>, shape: ValueShape, d: ScalarView) -> Seq<
    ScalarView,
> {
    if has_key(attrs, key) && is_numeric(shape) && shape_ok(shape, value_of(attrs, key)) {
        let s = scalars_of(shape, value_of(attrs, key));
        Seq::new(
            3,
            |i: int|
                if i < s.len() {
                    s[i]
                } else {
                    d
                },
        )
    } else {
        seq![d, d, d]
    }
}

/// The three numbers that a key gives stand for numbers, whatever its value.
pub proof fn lemma_triple_numbers(attrs: Attrs, key: Seq<char>, shape: ValueShape, d: ScalarView)
    requires
        is_number(d),
    ensures
        all_numbers(triple(attrs, key, shape, d)),
{
    let t = triple(attrs, key, shape, d);
    if has_key(attrs, key) && is_numeric(shape) && shape_ok(shape, value_of(attrs, key)) {
        let value = value_of(attrs, key);
        let s = scalars_of(shape, value);
        assert forall|i: int| 0 <= i < s.len() implies is_number(#[trigger] s[i]) by {
            if shape == ValueShape::LeadingThree {
                let tokens = tokens_of(Separator::Blank, value);
                assert(tokens.take(3)[i] == tokens[i]);
            } else if shape == ValueShape::Numerals {
                assert(numerals_of(Separator::Blank, value) is Some);
            } else {
                assert(numerals_of(Separator::Space, value) is Some);
            }
        }
        assert forall|i: int| 0 <= i < t.len() implies is_number(#[trigger] t[i]) by {
            if i < s.len() {
                assert(t[i] == s[i]);
            }
        }
    }
}

/// Reads the three numbers that a key gives: see [`triple`].
pub fn triple_in(attrs_map: &AttrMap, key: &str, shape: ValueShape, default_one: bool) -> (r: Vec<
    Scalar,
>)
    ensures
        scalar_views(r@) == triple(
            attrs_map@,
            key@,
            shape,
            if default_one {
                one()
            } else {
                zero()
            },
        ),
        r@.len() == 3,
        all_numbers(scalar_views(r@)),
{
    proof {
        lemma_zero_one();
        lemma_triple_numbers(
            attrs_map@,
            key@,
            shape,
            if default_one {
                one()
            } else {
                zero()
            },
        );
    }
    let ghost d = if default_one {
        one()
    } else {
        zero()
    };
    let mut out: Vec<Scalar> = Vec::new();
    let parsed: Option<Vec<Scalar>> = match attrs_map.get(key) {
        Some(v) => read_scalars(shape, v.as_str()),
        None => None,
    };
    let mut i: usize = 0;
    while i < 3
        invariant
            i <= 3,
            out.len() == i,
            d == (if default_one {
                one()
            } else {
                zero()
            }),
            forall|j: int|
                0 <= j < i ==> (#[trigger] out[j])@ == (match parsed {
                    Some(s) => if j < s.len() {
                        s[j]@
                    } else {
                        d
                    },
                    None => d,
                }),
        decreases 3 - i,
    {
        let next = match &parsed {
            Some(s) => if i < s.len() {
                s[i].copy()
            } else if default_one {
                Scalar::one()
            } else {
                Scalar::zero()
            },
            None => if default_one {
                Scalar::one()
            } else {
                Scalar::zero()
            },
        };
        out.push(next);
        i += 1;
    }
    proof {
        match parsed {
            Some(s) => {
                let sv = scalars_of(shape, value_of(attrs_map@, key@));
                assert(scalar_views(s@) == sv);
                assert forall|j: int| 0 <= j < 3 implies scalar_views(out@)[j] == (if j < sv.len() {
                    sv[j]
                } else {
                    d
                }) by {
                    if j < sv.len() {
                        assert(scalar_views(s@)[j] == s[j]@);
                    }
                }
                assert(scalar_views(out@) =~= triple(attrs_map@, key@, shape, d));
            },
            None => {
                assert(scalar_views(out@) =~= seq![d, d, d]);
            },
        }
    }
    out
}

/// How the vertices of a job are filled.
#[derive(Clone, Copy, PartialEq, Eq, Structural, Debug)]
pub enum FillPlan {
    /// With the tint of meshes that have no filling.
    Plain,
    /// With coordinates in a cube texture: each vertex as seen from the
    /// centre of the vertices.
    CubeCoordinates,
    /// With one colour, that of the job.
    Color,
}

/// The forms of a job.
#[derive(Clone, Copy, PartialEq, Eq, Structural, Debug)]
pub enum Form {
    /// The eight corners of position plus and minus size.
    Box,
    /// A sphere about the position with the first size as its radius.
    Sphere,
    /// The hull of the points of the job, scaled: three vertices of its own
    /// for each facet.
    Hull,
    /// The vertices and the triangles of the job, the vertices scaled.
    Imported,
}

/// A frame that vertices pass through: they are scaled, turned by the angles
/// of the frame, turned by each of its added rotations, oldest first, and
/// moved by its position.
#[derive(Debug)]
pub struct Transform {
    pub rotations: Vec<Orientation>,
    pub euler: Vec<Scalar>,
    pub scale: Vec<Scalar>,
    pub pos: Vec<Scalar>,
}

/// What a [`Transform`] holds.
pub struct TransformView {
    pub rotations: Seq<OrientationView>,
    pub euler: Seq<ScalarView>,
    pub scale: Seq<ScalarView>,
    pub pos: Seq<ScalarView>,
}

impl View for Transform {
    type V = TransformView;

    open spec fn view(&self) -> TransformView {
        TransformView {
            rotations: orientation_views(self.rotations@),
            euler: scalar_views(self.euler@),
            scale: scalar_views(self.scale@),
            pos: scalar_views(self.pos@),
        }
    }
}

/// The views of a list of frames.
pub open spec fn transform_views(v: Seq<Transform>) -> Seq<TransformView> {
    Seq::new(v.len(), |i: int| v[i]@)
}

/// One mesh to be made.
#[derive(Debug)]
pub struct MeshJob {
    pub form: Form,
    /// The position of the geom.
    pub pos: Vec<Scalar>,
    /// The size of the geom.
    pub size: Vec<Scalar>,
    /// The angles of the geom, in degrees.
    pub euler: Vec<Scalar>,
    /// The scale of the mesh asset.
    pub mesh_scale: Vec<Scalar>,
    /// The coordinates of the mesh asset, three for each point.
    pub vertices: Vec<Scalar>,
    /// The triangles, where the form fixes them without any arithmetic.
    pub indices: Vec<u32>,
    pub fill: FillPlan,
    /// Red, green and blue of the colour of the material.
    pub color: Vec<Scalar>,
    pub texture: Option<Texture>,
    /// The frames of the bodies around the geom, the innermost first.
    pub frames: Vec<Transform>,
}

/// What a [`MeshJob`] holds.
pub struct JobView {
    pub form: Form,
    pub pos: Seq<ScalarView>,
    pub size: Seq<ScalarView>,
    pub euler: Seq<ScalarView>,
    pub mesh_scale: Seq<ScalarView>,
    pub vertices: Seq<ScalarView>,
    pub indices: Seq<u32>,
    pub fill: FillPlan,
    pub color: Seq<ScalarView>,
    pub texture: Option<NodeView>,
    pub frames: Seq<TransformView>,
}

impl View for MeshJob {
    type V = JobView;

    open spec fn view(&self) -> JobView {
        JobView {
            form: self.form,
            pos: scalar_views(self.pos@),
            size: scalar_views(self.size@),
            euler: scalar_views(self.euler@),
            mesh_scale: scalar_views(self.mesh_scale@),
            vertices: scalar_views(self.vertices@),
            indices: self.indices@,
            fill: self.fill,
            color: scalar_views(self.color@),
            texture: match self.texture {
                Some(t) => Some(t@),
                None => None,
            },
            frames: transform_views(self.frames@),
        }
    }
}

/// The views of a list of jobs.
pub open spec fn job_views(v: Seq<MeshJob>) -> Seq<JobView> {
    Seq::new(v.len(), |i: int| v[i]@)
}

/// The asset at a place, where the place holds an asset of a kind.
pub open spec fn asset_at(assets: Seq<NodeView>, place: Option<usize>, kind: NodeKind) -> Option<
    NodeView,
> {
    match place {
        Some(i) => if i < assets.len() && assets[i as int].kind == kind {
            Some(assets[i as int])
        } else {
            None
        },
        None => None,
    }
}

/// The material of a geom, where one is bound to it.
pub open spec fn material_of(geom: NodeView, assets: Seq<NodeView>) -> Option<NodeView> {
    asset_at(assets, geom.material, NodeKind::Material)
}

/// The texture of a geom: that of its material.
pub open spec fn texture_of(geom: NodeView, assets: Seq<NodeView>) -> Option<NodeView> {
    match material_of(geom, assets) {
        Some(m) => asset_at(assets, m.texture, NodeKind::Texture),
        None => None,
    }
}

/// How a geom is filled: as its material fills, and plainly without one.
pub open spec fn fill_of(geom: NodeView, assets: Seq<NodeView>) -> FillPlan {
    match material_of(geom, assets) {
        None => FillPlan::Plain,
        Some(m) => material_fill(m, assets),
    }
}

/// The colour of a geom: the first three numbers of the `rgba` of its
/// material, and white without one.
pub open spec fn color_of(geom: NodeView, assets: Seq<NodeView>) -> Seq<ScalarView> {
    match material_of(geom, assets) {
        Some(m) => triple(m.attrs, "rgba"@, ValueShape::Four, one()),
        None => seq![one(), one(), one()],
    }
}

/// The frame of a geom or of a body. A geom has no scale of its own.
pub open spec fn frame_of(node: NodeView) -> TransformView {
    TransformView {
        rotations: node.rotations,
        euler: triple(node.attrs, "euler"@, ValueShape::Three, zero()),
        scale: if node.kind == NodeKind::Body {
            triple(node.attrs, "scale"@, ValueShape::LeadingThree, one())
        } else {
            seq![one(), one(), one()]
        },
        pos: triple(node.attrs, "pos"@, ValueShape::Three, zero()),
    }
}

/// The job of a geom before it has any frame, where its form is one that is
/// drawn. A geom with the form of a mesh needs a mesh bound to it.
pub open spec fn geom_job(geom: NodeView, assets: Seq<NodeView>) -> Result<
    Option<JobView>,
    ModelError,
> {
    let base = JobView {
        form: Form::Box,
        pos: triple(geom.attrs, "pos"@, ValueShape::Three, zero()),
        size: triple(geom.attrs, "size"@, ValueShape::UpToThree, zero()),
        euler: triple(geom.attrs, "euler"@, ValueShape::Three, zero()),
        mesh_scale: seq![one(), one(), one()],
        vertices: Seq::empty(),
        indices: Seq::empty(),
        fill: fill_of(geom, assets),
        color: color_of(geom, assets),
        texture: texture_of(geom, assets),
        frames: Seq::empty(),
    };
    match geom_type_of(geom.attrs) {
        GeomType::Box => Ok(Some(JobView { form: Form::Box, indices: box_index_list(), ..base })),
        GeomType::Sphere => Ok(
            Some(
                JobView {
                    form: Form::Sphere,
                    indices: sphere_index_list(SPHERE_SEGMENTS as nat),
                    ..base
                },
            ),
        ),
        GeomType::Mesh => match geom.mesh {
            None => Err(ModelError::AssetResolution),
            Some(i) => if i >= assets.len() {
                Err(ModelError::AssetResolution)
            } else if assets[i as int].kind != NodeKind::Mesh {
                Ok(None)
            } else {
                let mesh = assets[i as int];
                let scale = triple(mesh.attrs, "scale"@, ValueShape::LeadingThree, one());
                if mesh.contents == MeshType::Inline {
                    Ok(
                        Some(
                            JobView {
                                form: Form::Hull,
                                mesh_scale: scale,
                                vertices: mesh.vertices,
                                ..base
                            },
                        ),
                    )
                } else {
                    Ok(
                        Some(
                            JobView {
                                form: Form::Imported,
                                mesh_scale: scale,
                                vertices: mesh.vertices,
                                indices: mesh.indices,
                                ..base
                            },
                        ),
                    )
                }
            },
        },
        _ => Ok(None),
    }
}

/// A list of jobs, each with one more frame behind its own.
pub open spec fn framed(jobs: Seq<JobView>, frame: TransformView) -> Seq<JobView> {
    Seq::new(jobs.len(), |i: int| JobView { frames: jobs[i].frames.push(frame), ..jobs[i] })
}

/// The jobs of a tree, in drawing order, or the first error met. A geom has
/// its own job; a body has the jobs of the geoms and bodies among its
/// children, each with the frame of the body behind its frames; the root of
/// the bodies has those of its children as they are.
pub open spec fn jobs_of(node: NodeView, assets: Seq<NodeView>) -> Result<Seq<JobView>, ModelError>
    decreases node,
{
    match node.kind {
        NodeKind::Geom => match geom_job(node, assets) {
            Err(e) => Err(e),
            Ok(Some(job)) => Ok(seq![job]),
            Ok(None) => Ok(Seq::empty()),
        },
        NodeKind::Body => match jobs_first(node.children, assets, node.children.len()) {
            Err(e) => Err(e),
            Ok(jobs) => Ok(framed(jobs, frame_of(node))),
        },
        NodeKind::WorldBody => jobs_first(node.children, assets, node.children.len()),
        _ => Ok(Seq::empty()),
    }
}

/// The jobs of the geoms and bodies among the first `k` trees of a list.
pub open spec fn jobs_first(nodes: Seq<NodeView>, assets: Seq<NodeView>, k: nat) -> Result<
    Seq<JobView>,
    ModelError,
>
    decreases nodes, k,
{
    if k == 0 || k > nodes.len() {
        Ok(Seq::empty())
    } else {
        match jobs_first(nodes, assets, (k - 1) as nat) {
            Err(e) => Err(e),
            Ok(jobs) => if nodes[k - 1].kind == NodeKind::Geom || nodes[k - 1].kind
                == NodeKind::Body {
                match jobs_of(nodes[k - 1], assets) {
                    Err(e) => Err(e),
                    Ok(more) => Ok(jobs + more),
                }
            } else {
                Ok(jobs)
            },
        }
    }
}

/// An error met among the trees of a list stays the result.
pub proof fn lemma_jobs_first_err(nodes: Seq<NodeView>, assets: Seq<NodeView>, k: nat, n: nat)
    requires
        k <= n <= nodes.len(),
        jobs_first(nodes, assets, k) is Err,
    ensures
        jobs_first(nodes, assets, n) == jobs_first(nodes, assets, k),
    decreases n - k,
{
    if k < n {
        lemma_jobs_first_err(nodes, assets, k, (n - 1) as nat);
    }
}

/// The number of vertices that the form of a job fixes: a box has 8, a
/// sphere 33 rings of 32, an imported mesh one for each three coordinates.
/// That of a hull is known when the hull is.
pub open spec fn job_vertices(job: JobView) -> Option<nat> {
    match job.form {
        Form::Box => Some(8nat),
        Form::Sphere => Some(sphere_vertices(SPHERE_SEGMENTS as nat)),
        Form::Imported => Some(job.vertices.len() / 3),
        Form::Hull => None,
    }
}

/// Whether every index of a job names one of its vertices.
pub open spec fn job_indices_fit(job: JobView) -> bool {
    match job_vertices(job) {
        Some(n) => forall|k: int| 0 <= k < job.indices.len() ==> (#[trigger] job.indices[k]) < n,
        None => job.indices.len() == 0,
    }
}

/// Whether the numbers of a job that come from attributes stand for numbers:
/// its position, size, angles, scale and colour.
pub open spec fn job_numbers(job: JobView) -> bool {
    &&& all_numbers(job.pos)
    &&& all_numbers(job.size)
    &&& all_numbers(job.euler)
    &&& all_numbers(job.mesh_scale)
    &&& all_numbers(job.color)
}

/// A copy of a rotation.
pub fn copy_orientation(o: &Orientation) -> (r: Orientation)
    ensures
        r@ == o@,
{
    match o {
        Orientation::Euler(e) => Orientation::Euler(
            Euler { x: e.x.copy(), y: e.y.copy(), z: e.z.copy() },
        ),
        Orientation::AxisAngle => Orientation::AxisAngle,
    }
}

/// A copy of a list of rotations.
pub fn copy_orientations(v: &Vec<Orientation>) -> (r: Vec<Orientation>)
    ensures
        orientation_views(r@) == orientation_views(v@),
{
    let mut r: Vec<Orientation> = Vec::new();
    let mut i: usize = 0;
    while i < v.len()
        invariant
            i <= v.len(),
            r.len() == i,
            forall|j: int| 0 <= j < i ==> (#[trigger] r[j])@ == v[j]@,
        decreases v.len() - i,
    {
        r.push(copy_orientation(&v[i]));
        i += 1;
    }
    assert(orientation_views(r@) =~= orientation_views(v@));
    r
}

impl Transform {
    /// A frame that holds what this one holds.
    pub fn copy(&self) -> (r: Transform)
        ensures
            r@ == self@,
    {
        Transform {
            rotations: copy_orientations(&self.rotations),
            euler: copy_scalars(&self.euler),
            scale: copy_scalars(&self.scale),
            pos: copy_scalars(&self.pos),
        }
    }
}

/// Three times the numeral `1`.
fn three_ones() -> (r: Vec<Scalar>)
    ensures
        scalar_views(r@) == seq![one(), one(), one()],
        all_numbers(scalar_views(r@)),
{
    proof {
        lemma_zero_one();
    }
    let mut r: Vec<Scalar> = Vec::new();
    r.push(Scalar::one());
    r.push(Scalar::one());
    r.push(Scalar::one());
    assert(scalar_views(r@) =~= seq![one(), one(), one()]);
    r
}

/// An empty list of scalars.
fn no_scalars() -> (r: Vec<Scalar>)
    ensures
        scalar_views(r@) == Seq::<ScalarView>::empty(),
        all_numbers(scalar_views(r@)),
{
    let r: Vec<Scalar> = Vec::new();
    assert(scalar_views(r@) =~= Seq::<ScalarView>::empty());
    r
}

/// A copy of a list of words.
fn copy_words(v: &Vec<u32>) -> (r: Vec<u32>)
    ensures
        r@ == v@,
{
    let mut r: Vec<u32> = Vec::new();
    let mut i: usize = 0;
    while i < v.len()
        invariant
            i <= v.len(),
            r@ == v@.take(i as int),
        decreases v.len() - i,
    {
        r.push(v[i]);
        assert(r@ =~= v@.take(i + 1));
        i += 1;
    }
    assert(v@.take(v.len() as int) =~= v@);
    r
}

impl Body {
    /// Adds a rotation behind those that were added before: three angles in
    /// degrees, about the x, y and z axes.
    pub fn apply_added_rotations(&mut self, rotation_params: (Scalar, Scalar, Scalar))
        ensures
            final(self)@ == (NodeView {
                rotations: old(self)@.rotations.push(
                    OrientationView::Euler(
                        rotation_params.0@,
                        rotation_params.1@,
                        rotation_params.2@,
                    ),
                ),
                ..old(self)@
            }),
    {
        let ghost before = orientation_views(self.added_rotations@);
        let o = Orientation::Euler(
            Euler { x: rotation_params.0, y: rotation_params.1, z: rotation_params.2 },
        );
        self.added_rotations.push(o);
        assert(orientation_views(self.added_rotations@) =~= before.push(o@));
    }

    /// The frame of the body.
    pub fn frame(&self) -> (r: Transform)
        ensures
            r@ == frame_of(self@),
            all_numbers(r@.euler) && all_numbers(r@.scale) && all_numbers(r@.pos),
    {
        Transform {
            rotations: copy_orientations(&self.added_rotations),
            euler: triple_in(&self.attrs_map, "euler", ValueShape::Three, false),
            scale: triple_in(&self.attrs_map, "scale", ValueShape::LeadingThree, true),
            pos: triple_in(&self.attrs_map, "pos", ValueShape::Three, false),
        }
    }

    /// The jobs of the geoms below the body, each with the frame of the body
    /// behind its frames: see [`jobs_of`].
    pub fn getAllGeometries(&self, assets: &AssetsManager) -> (r: Result<Vec<MeshJob>, ModelError>)
        ensures
            match jobs_of(self@, assets@.children) {
                Ok(jobs) => r is Ok && job_views(r->Ok_0@) == jobs,
                Err(e) => r == Err::<Vec<MeshJob>, ModelError>(e),
            },
        decreases self,
    {
        proof {
            lemma_views_of(self.children@);
        }
        let mut jobs = match jobs_in(&self.children, assets) {
            Err(e) => {
                return Err(e);
            },
            Ok(jobs) => jobs,
        };
        let frame = self.frame();
        let ghost bare = job_views(jobs@);
        let mut i: usize = 0;
        while i < jobs.len()
            invariant
                i <= jobs.len(),
                jobs.len() == bare.len(),
                frame@ == frame_of(self@),
                forall|j: int|
                    0 <= j < i ==> (#[trigger] jobs[j])@ == (JobView {
                        frames: bare[j].frames.push(frame@),
                        ..bare[j]
                    }),
                forall|j: int| i <= j < jobs.len() ==> (#[trigger] jobs[j])@ == bare[j],
            decreases jobs.len() - i,
        {
            let ghost before = transform_views(jobs[i as int].frames@);
            let f = frame.copy();
            jobs[i].frames.push(f);
            assert(transform_views(jobs[i as int].frames@) =~= before.push(f@));
            i += 1;
        }
        assert(job_views(jobs@) =~= framed(bare, frame_of(self@)));
        Ok(jobs)
    }
}

impl WorldBody {
    /// The jobs of the geoms of the scene, in drawing order: see [`jobs_of`].
    pub fn getAllGeometries(&self, assets: &AssetsManager) -> (r: Result<Vec<MeshJob>, ModelError>)
        ensures
            match jobs_of(self@, assets@.children) {
                Ok(jobs) => r is Ok && job_views(r->Ok_0@) == jobs,
                Err(e) => r == Err::<Vec<MeshJob>, ModelError>(e),
            },
        decreases self,
    {
        proof {
            lemma_views_of(self.children@);
        }
        jobs_in(&self.children, assets)
    }
}

/// The jobs of the geoms and bodies of a list: see [`jobs_first`].
pub fn jobs_in(nodes: &Vec<Node>, assets: &AssetsManager) -> (r: Result<Vec<MeshJob>, ModelError>)
    ensures
        match jobs_first(views_of(nodes@), assets@.children, nodes@.len()) {
            Ok(jobs) => r is Ok && job_views(r->Ok_0@) == jobs,
            Err(e) => r == Err::<Vec<MeshJob>, ModelError>(e),
        },
    decreases nodes,
{
    let mut out: Vec<MeshJob> = Vec::new();
    let mut k: usize = 0;
    proof {
        lemma_views_of(nodes@);
        assert(job_views(out@) =~= Seq::<JobView>::empty());
    }
    while k < nodes.len()
        invariant
            k <= nodes.len(),
            views_of(nodes@).len() == nodes.len(),
            jobs_first(views_of(nodes@), assets@.children, k as nat) == Ok::<
                Seq<JobView>,
                ModelError,
            >(job_views(out@)),
        decreases nodes.len() - k,
    {
        proof {
            lemma_views_of(nodes@);
            lemma_node_view(nodes[k as int]);
            broadcast use vstd::std_specs::vec::axiom_vec_index_decreases;
            assert(decreases_to!(nodes => nodes[k as int]));
        }
        let more: Option<Result<Vec<MeshJob>, ModelError>> = match &nodes[k] {
            Node::Body(b) => Some(b.getAllGeometries(assets)),
            Node::Geom(g) => Some(g.getAllGeometries(assets)),
            _ => None,
        };
        match more {
            Some(Err(e)) => {
                proof {
                    lemma_jobs_first_err(
                        views_of(nodes@),
                        assets@.children,
                        (k + 1) as nat,
                        nodes@.len(),
                    );
                }
                return Err(e);
            },
            Some(Ok(mut jobs)) => {
                let ghost before = job_views(out@);
                let ghost added = job_views(jobs@);
                out.append(&mut jobs);
                assert(job_views(out@) =~= before + added);
            },
            None => {},
        }
        k += 1;
    }
    Ok(out)
}

/// How a material fills what it is bound to. With a texture it fills with
/// coordinates where the texture is a cube and not at all where it is not;
/// without a texture it fills with its colour where it has one.
pub open spec fn material_fill(m: NodeView, assets: Seq<NodeView>) -> FillPlan {
    if m.texture is Some {
        match asset_at(assets, m.texture, NodeKind::Texture) {
            Some(t) => if texture_type_of(t.attrs) == TextureType::Cube {
                FillPlan::CubeCoordinates
            } else {
                FillPlan::Plain
            },
            None => FillPlan::Plain,
        }
    } else if has_key(m.attrs, "rgba"@) {
        FillPlan::Color
    } else {
        FillPlan::Plain
    }
}

impl Material {
    /// The colour of the material: the first three numbers of its `rgba`,
    /// and white where it has none.
    pub fn color(&self) -> (r: Vec<Scalar>)
        ensures
            scalar_views(r@) == triple(self@.attrs, "rgba"@, ValueShape::Four, one()),
            all_numbers(scalar_views(r@)),
    {
        triple_in(&self.attrs_map, "rgba", ValueShape::Four, true)
    }

    /// How the material fills what it is bound to: see [`material_fill`].
    pub fn get_vertices_filling(&self, assets: &AssetsManager) -> (r: FillPlan)
        ensures
            r == material_fill(self@, assets@.children),
    {
        if self.texture.is_some() {
            match self.get_textures_data(assets) {
                Some(t) => match t.t_type() {
                    TextureType::Cube => FillPlan::CubeCoordinates,
                    _ => FillPlan::Plain,
                },
                None => FillPlan::Plain,
            }
        } else if self.attrs_map.contains_key("rgba") {
            FillPlan::Color
        } else {
            FillPlan::Plain
        }
    }
}

/// What is to be made of a mesh asset.
#[derive(Debug)]
pub enum MeshGeometry {
    /// The triangles of a polygon file, taken as they are: the coordinates of
    /// its vertices, to be scaled, and the indices of its triangles.
    Imported { vertices: Vec<Scalar>, indices: Vec<u32>, scale: Vec<Scalar> },
    /// The hull of a cloud of points: the coordinates of the points, to be
    /// scaled before the hull is taken. The triangles are those of the hull:
    /// see [`hull_mesh`].
    Hull { points: Vec<Scalar>, scale: Vec<Scalar> },
}

/// What a [`MeshGeometry`] holds.
pub enum GeometryView {
    Imported { vertices: Seq<ScalarView>, indices: Seq<u32>, scale: Seq<ScalarView> },
    Hull { points: Seq<ScalarView>, scale: Seq<ScalarView> },
}

impl View for MeshGeometry {
    type V = GeometryView;

    open spec fn view(&self) -> GeometryView {
        match self {
            MeshGeometry::Imported { vertices, indices, scale } => GeometryView::Imported {
                vertices: scalar_views(vertices@),
                indices: indices@,
                scale: scalar_views(scale@),
            },
            MeshGeometry::Hull { points, scale } => GeometryView::Hull {
                points: scalar_views(points@),
                scale: scalar_views(scale@),
            },
        }
    }
}

/// What is to be made of a mesh asset: of a mesh of points the hull of its
/// points, of a mesh of a file its vertices and triangles; the scale of the
/// mesh goes with either.
pub open spec fn mesh_geometry(mesh: NodeView) -> GeometryView {
    let scale = triple(mesh.attrs, "scale"@, ValueShape::LeadingThree, one());
    if mesh.contents == MeshType::Inline {
        GeometryView::Hull { points: mesh.vertices, scale }
    } else {
        GeometryView::Imported { vertices: mesh.vertices, indices: mesh.indices, scale }
    }
}

/// The mesh of a hull of a number of facets, made of the coordinates of the
/// vertices of its facets, nine for each facet: these coordinates, and three
/// indices of its own for each facet. `None` where the coordinates are not
/// nine for each facet, or the vertices cannot be numbered with 32 bits.
pub fn hull_mesh(hull_vertices: Vec<u32>, facets: usize) -> (r: Option<(Vec<u32>, Vec<u32>)>)
    ensures
        match r {
            Some((vertices, indices)) => {
                &&& hull_vertices@.len() == 9 * facets
                &&& 3 * facets <= u32::MAX
                &&& vertices@ == hull_vertices@
                &&& indices@ == hull_index_list(facets as nat)
                &&& indices@.len() == 3 * facets
                &&& forall|k: int|
                    0 <= k < indices@.len() ==> (#[trigger] indices@[k]) < vertices@.len() / 3
            },
            None => !(hull_vertices@.len() == 9 * facets && 3 * facets <= u32::MAX),
        },
{
    if facets > 0x5555_5555 {
        return None;
    }
    if hull_vertices.len() / 9 != facets || hull_vertices.len() % 9 != 0 {
        return None;
    }
    let indices = hull_indices(facets);
    Some((hull_vertices, indices))
}

/// The indices `0, 1, 2 and so on`, one for each point of a list of coordinates.
pub open spec fn point_indices(points: nat) -> Seq<u32> {
    Seq::new(points, |k: int| k as u32)
}

impl Mesh {
    /// The scale of the mesh: what its `scale` gives, and 1 along each axis
    /// where none was set.
    pub fn scale(&self) -> (r: Vec<Scalar>)
        ensures
            scalar_views(r@) == triple(self@.attrs, "scale"@, ValueShape::LeadingThree, one()),
            all_numbers(scalar_views(r@)),
    {
        triple_in(&self.attrs_map, "scale", ValueShape::LeadingThree, true)
    }

    /// The coordinates of the mesh as they were set or read, before any scale.
    pub fn getVertices(&self) -> (r: Vec<Scalar>)
        ensures
            scalar_views(r@) == self@.vertices,
    {
        copy_scalars(&self.vertices)
    }

    /// The triangles of the mesh as they were read.
    pub fn getIndices(&self) -> (r: Vec<u32>)
        ensures
            r@ == self@.indices,
    {
        copy_words(&self.indices)
    }

    /// What is to be made of the mesh: see [`mesh_geometry`]. A mesh of
    /// points is to become its hull; a mesh of a file keeps its triangles.
    /// Either way the coordinates are handed out as they were set or read,
    /// with the scale that is still to be applied to them.
    pub fn getAllGeometries(&self) -> (r: MeshGeometry)
        ensures
            r@ == mesh_geometry(self@),
    {
        match self.mesh_contents_type {
            MeshType::Inline => MeshGeometry::Hull {
                points: self.getVertices(),
                scale: self.scale(),
            },
            MeshType::ObjFile => MeshGeometry::Imported {
                vertices: self.getVertices(),
                indices: self.getIndices(),
                scale: self.scale(),
            },
        }
    }

    /// One index for each point of the mesh, in order.
    pub fn get_indices(&self) -> (r: Vec<u32>)
        requires
            self@.vertices.len() / 3 <= u32::MAX,
        ensures
            r@ == point_indices(self@.vertices.len() / 3),
    {
        let n = self.vertices.len() / 3;
        let mut r: Vec<u32> = Vec::new();
        let mut i: usize = 0;
        assert(scalar_views(self.vertices@).len() == self.vertices@.len());
        while i < n
            invariant
                i <= n,
                n <= u32::MAX,
                r@.len() == i,
                forall|k: int| 0 <= k < i ==> r@[k] == k as u32,
            decreases n - i,
        {
            r.push(i as u32);
            i += 1;
        }
        assert(r@ =~= point_indices(n as nat));
        r
    }
}

impl Geom {
    /// The material bound to the geom.
    pub fn material_in<'a>(&self, assets: &'a AssetsManager) -> (r: Option<&'a Material>)
        ensures
            match r {
                Some(m) => material_of(self@, assets@.children) == Some(m@),
                None => material_of(self@, assets@.children) is None,
            },
    {
        proof {
            lemma_views_of(assets.children@);
        }
        match self.material {
            Some(i) => if i < assets.children.len() {
                proof {
                    lemma_node_view(assets.children[i as int]);
                }
                match &assets.children[i] {
                    Node::Material(m) => Some(m),
                    _ => None,
                }
            } else {
                None
            },
            None => None,
        }
    }

    /// The texture of the material of the geom.
    pub fn get_textures_data(&self, assets: &AssetsManager) -> (r: Option<Texture>)
        ensures
            match r {
                Some(t) => texture_of(self@, assets@.children) == Some(t@),
                None => texture_of(self@, assets@.children) is None,
            },
    {
        match self.material_in(assets) {
            Some(m) => m.get_textures_data(assets),
            None => None,
        }
    }

    /// How the geom is filled: see [`fill_of`].
    pub fn get_vertices_filling(&self, assets: &AssetsManager) -> (r: FillPlan)
        ensures
            r == fill_of(self@, assets@.children),
    {
        match self.material_in(assets) {
            None => FillPlan::Plain,
            Some(m) => m.get_vertices_filling(assets),
        }
    }

    /// The job of the geom, where its form is one that is drawn: see
    /// [`geom_job`]. The triangles of a box and of a sphere, and those of an
    /// imported mesh whose indices fit, name vertices of the job.
    pub fn getAllGeometries(&self, assets: &AssetsManager) -> (r: Result<Vec<MeshJob>, ModelError>)
        ensures
            match jobs_of(self@, assets@.children) {
                Ok(jobs) => r is Ok && job_views(r->Ok_0@) == jobs,
                Err(e) => r == Err::<Vec<MeshJob>, ModelError>(e),
            },
            r is Ok ==> r->Ok_0@.len() <= 1,
            r is Ok && r->Ok_0@.len() == 1 ==> job_numbers(r->Ok_0@[0]@),
            r is Ok && r->Ok_0@.len() == 1 && self@.mesh is Some && self@.mesh->0
                < assets@.children.len() && all_numbers(
                assets@.children[self@.mesh->0 as int].vertices,
            ) ==> all_numbers(r->Ok_0@[0]@.vertices),
            r is Ok && r->Ok_0@.len() == 1 && (r->Ok_0@[0].form == Form::Box || r->Ok_0@[0].form
                == Form::Sphere) ==> job_indices_fit(r->Ok_0@[0]@),
            r is Ok && r->Ok_0@.len() == 1 && r->Ok_0@[0].form == Form::Imported && mesh_indices_fit(
                assets@.children[self@.mesh->0 as int],
            ) ==> job_indices_fit(r->Ok_0@[0]@),
    {
        let mut out: Vec<MeshJob> = Vec::new();
        proof {
            lemma_views_of(assets.children@);
            assert(job_views(out@) =~= Seq::<JobView>::empty());
        }
        let color = match self.material_in(assets) {
            Some(m) => m.color(),
            None => three_ones(),
        };
        let mut job = MeshJob {
            form: Form::Box,
            pos: triple_in(&self.attrs_map, "pos", ValueShape::Three, false),
            size: triple_in(&self.attrs_map, "size", ValueShape::UpToThree, false),
            euler: triple_in(&self.attrs_map, "euler", ValueShape::Three, false),
            mesh_scale: three_ones(),
            vertices: no_scalars(),
            indices: Vec::new(),
            fill: self.get_vertices_filling(assets),
            color,
            texture: self.get_textures_data(assets),
            frames: Vec::new(),
        };
        assert(transform_views(job.frames@) =~= Seq::<TransformView>::empty());
        match self.geom_type() {
            GeomType::Box => {
                job.indices = get_box_indices();
            },
            GeomType::Sphere => {
                job.form = Form::Sphere;
                job.indices = get_sphere_indices();
            },
            GeomType::Mesh => {
                match self.mesh {
                    None => {
                        return Err(ModelError::AssetResolution);
                    },
                    Some(i) => {
                        if i >= assets.children.len() {
                            return Err(ModelError::AssetResolution);
                        }
                        proof {
                            lemma_node_view(assets.children[i as int]);
                        }
                        match &assets.children[i] {
                            Node::Mesh(m) => {
                                match m.getAllGeometries() {
                                    MeshGeometry::Hull { points, scale } => {
                                        job.form = Form::Hull;
                                        job.mesh_scale = scale;
                                        job.vertices = points;
                                    },
                                    MeshGeometry::Imported { vertices, indices, scale } => {
                                        job.form = Form::Imported;
                                        job.mesh_scale = scale;
                                        job.vertices = vertices;
                                        job.indices = indices;
                                    },
                                }
                            },
                            _ => {
                                return Ok(out);
                            },
                        }
                    },
                }
            },
            _ => {
                return Ok(out);
            },
        }
        out.push(job);
        proof {
            assert(job_views(out@) =~= seq![job@]);
        }
        Ok(out)
    }
}

/// A name refers to an asset of its kind, at a place among the assets.
pub proof fn lemma_last_key(keys: AssetKeys, kind: NodeKind, name: Seq<char>, k: nat)
    requires
        k <= keys.len(),
    ensures
        match last_key(keys, kind, name, k) {
            Some(i) => 0 <= i < k && keys[i] == (kind, name),
            None => true,
        },
    decreases k,
{
    if k > 0 {
        lemma_last_key(keys, kind, name, (k - 1) as nat);
    }
}

/// A geom that was bound has a job: where it has the form of a mesh, a mesh
/// stands at the place it was bound to.
pub proof fn lemma_bound_geom_has_job(geom: NodeView, assets: Seq<NodeView>)
    requires
        assets.len() <= usize::MAX,
        geom_bound(geom, keys_of(assets)) is Ok,
    ensures
        geom_job(geom_bound(geom, keys_of(assets))->Ok_0, assets) is Ok,
{
    let keys = keys_of(assets);
    lemma_last_key(keys, NodeKind::Mesh, text_of(geom.attrs, "mesh"@), keys.len());
}

/// Once the assets of a tree are bound, every geom of the tree that is drawn
/// has its job: making the jobs cannot fail for want of a mesh.
pub proof fn lemma_bound_tree_has_jobs(node: NodeView, assets: Seq<NodeView>)
    requires
        assets.len() <= usize::MAX,
        tree_bound(node, keys_of(assets)) is Ok,
    ensures
        jobs_of(tree_bound(node, keys_of(assets))->Ok_0, assets) is Ok,
    decreases node, 0nat,
{
    let keys = keys_of(assets);
    match node.kind {
        NodeKind::Geom => {
            lemma_bound_geom_has_job(node, assets);
        },
        NodeKind::Body | NodeKind::WorldBody => {
            lemma_trees_bound(node.children, keys, node.children.len());
            lemma_bound_list_has_jobs(node.children, assets, node.children.len());
        },
        _ => {},
    }
}

/// Once the assets of the trees of a list are bound, the first `k` of them
/// have their jobs.
pub proof fn lemma_bound_list_has_jobs(nodes: Seq<NodeView>, assets: Seq<NodeView>, k: nat)
    requires
        assets.len() <= usize::MAX,
        k <= nodes.len(),
        trees_bound(nodes, keys_of(assets), nodes.len()) is Ok,
    ensures
        jobs_first(trees_bound(nodes, keys_of(assets), nodes.len())->Ok_0, assets, k) is Ok,
    decreases nodes, k,
{
    let keys = keys_of(assets);
    if k > 0 {
        lemma_trees_bound(nodes, keys, nodes.len());
        lemma_bound_list_has_jobs(nodes, assets, (k - 1) as nat);
        let bound = trees_bound(nodes, keys, nodes.len())->Ok_0;
        assert(tree_bound(nodes[k - 1], keys) == Ok::<NodeView, ModelError>(bound[k - 1]));
        lemma_bound_tree_has_jobs(nodes[k - 1], assets);
    }
}

/// The jobs of a tree depend on the kinds of the assets and on what the
/// assets hold, and binding textures to materials changes no kind: a tree
/// that has its jobs before has them after.
pub proof fn lemma_jobs_after_binding(node: NodeView, assets: Seq<NodeView>)
    requires
        jobs_of(node, assets) is Ok,
    ensures
        jobs_of(node, bound(assets)) is Ok,
    decreases node, 0nat,
{
    match node.kind {
        NodeKind::Geom => {
            if node.mesh is Some && node.mesh->0 < assets.len() {
                assert(bound(assets)[node.mesh->0 as int] == bound_asset(
                    assets,
                    node.mesh->0 as int,
                ));
            }
        },
        NodeKind::Body | NodeKind::WorldBody => {
            lemma_jobs_first_after_binding(node.children, assets, node.children.len());
        },
        _ => {},
    }
}

/// The trees of a list that have their jobs before textures are bound have
/// them after.
pub proof fn lemma_jobs_first_after_binding(nodes: Seq<NodeView>, assets: Seq<NodeView>, k: nat)
    requires
        k <= nodes.len(),
        jobs_first(nodes, assets, k) is Ok,
    ensures
        jobs_first(nodes, bound(assets), k) is Ok,
    decreases nodes, k,
{
    if k > 0 {
        lemma_jobs_first_after_binding(nodes, assets, (k - 1) as nat);
        if nodes[k - 1].kind == NodeKind::Geom || nodes[k - 1].kind == NodeKind::Body {
            lemma_jobs_after_binding(nodes[k - 1], assets);
        }
    }
}

/// Every index of the job of a geom names one of its vertices.
pub proof fn lemma_geom_job_fits(geom: NodeView, assets: Seq<NodeView>)
    requires
        meshes_fit(assets),
        geom_job(geom, assets) is Ok,
        geom_job(geom, assets)->Ok_0 is Some,
    ensures
        job_indices_fit(geom_job(geom, assets)->Ok_0->0),
{
    let job = geom_job(geom, assets)->Ok_0->0;
    match geom_type_of(geom.attrs) {
        GeomType::Box => {
            assert(box_index_list().len() == 36);
            assert forall|k: int| 0 <= k < 36 implies (#[trigger] box_index_list()[k]) < 8 by {}
        },
        GeomType::Sphere => {
            assert forall|k: int| 0 <= k < job.indices.len() implies (#[trigger] job.indices[k])
                < sphere_vertices(SPHERE_SEGMENTS as nat) by {
                crate::geometry::lemma_sphere_index(SPHERE_SEGMENTS as int, k);
            }
        },
        GeomType::Mesh => {
            let mesh = assets[geom.mesh->0 as int];
            assert(mesh_indices_fit(mesh));
        },
        _ => {},
    }
}

/// In every job of a tree, every index names a vertex of the job: the
/// triangles of a mesh never reach beyond its own vertices.
pub proof fn lemma_jobs_fit(node: NodeView, assets: Seq<NodeView>)
    requires
        meshes_fit(assets),
        jobs_of(node, assets) is Ok,
    ensures
        forall|i: int|
            0 <= i < jobs_of(node, assets)->Ok_0.len() ==> job_indices_fit(
                #[trigger] jobs_of(node, assets)->Ok_0[i],
            ),
    decreases node, 0nat,
{
    match node.kind {
        NodeKind::Geom => {
            if geom_job(node, assets)->Ok_0 is Some {
                lemma_geom_job_fits(node, assets);
            }
        },
        NodeKind::Body => {
            lemma_jobs_first_fit(node.children, assets, node.children.len());
            let bare = jobs_first(node.children, assets, node.children.len())->Ok_0;
            let all = jobs_of(node, assets)->Ok_0;
            assert forall|i: int| 0 <= i < all.len() implies job_indices_fit(#[trigger] all[i]) by {
                assert(job_indices_fit(bare[i]));
                assert(job_vertices(all[i]) == job_vertices(bare[i]));
            }
        },
        NodeKind::WorldBody => {
            lemma_jobs_first_fit(node.children, assets, node.children.len());
        },
        _ => {},
    }
}

/// In every job of the trees of a list, every index names a vertex of the job.
pub proof fn lemma_jobs_first_fit(nodes: Seq<NodeView>, assets: Seq<NodeView>, k: nat)
    requires
        meshes_fit(assets),
        k <= nodes.len(),
        jobs_first(nodes, assets, k) is Ok,
    ensures
        forall|i: int|
            0 <= i < jobs_first(nodes, assets, k)->Ok_0.len() ==> job_indices_fit(
                #[trigger] jobs_first(nodes, assets, k)->Ok_0[i],
            ),
    decreases nodes, k,
{
    if k > 0 {
        lemma_jobs_first_fit(nodes, assets, (k - 1) as nat);
        if nodes[k - 1].kind == NodeKind::Geom || nodes[k - 1].kind == NodeKind::Body {
            lemma_jobs_fit(nodes[k - 1], assets);
        }
    }
}

} // verus!
