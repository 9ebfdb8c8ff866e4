//! Meshes ready to be drawn, and the collection that merges them into one
//! buffer of vertices, one buffer of indices and a map of draw calls.
//!
//! A coordinate, a colour channel or a texture coordinate is a word: the bit
//! pattern of a single-precision value.

use vstd::prelude::*;
use crate::node::{NodeView, Texture};
use crate::rules::name_of;

verus! {

/// The word for the value 1.
pub const ONE: u32 = 0x3f80_0000;

/// The word for the value 0.
pub const ZERO: u32 = 0;

/// The red channel of the tint of a mesh without filling: 209 parts of 255.
pub const TINT_RED: u32 = 0x3f51_d1d2;

/// The green channel of that tint: 180 parts of 255.
pub const TINT_GREEN: u32 = 0x3f34_b4b5;

/// The blue channel of that tint: 50 parts of 255.
pub const TINT_BLUE: u32 = 0x3e48_c8c9;

/// The words of one vertex in the merged buffer: three of position, three of
/// colour, three of texture coordinate.
pub const STRIDE: usize = 9;

/// What a vertex carries besides its position.
#[derive(Clone, Copy, PartialEq, Eq, Structural, Debug)]
pub enum VertexFilling {
    /// A colour: red, green, blue.
    Color(u32, u32, u32),
    /// A coordinate in a flat texture.
    TwoDTextureCoordinates(u32, u32),
    /// A coordinate in a cube texture.
    CubeTextureCoordinates(u32, u32, u32),
}

/// One mesh: positions, triangles, and what fills them.
#[derive(Debug)]
pub struct DrawableMesh {
    /// Three words for each vertex.
    pub vertices: Vec<u32>,
    /// Three indices of vertices for each triangle.
    pub indices: Vec<u32>,
    pub draw_with_indices: bool,
    /// One filling for each vertex, where there is any.
    pub vertices_filling: Option<Vec<VertexFilling>>,
    /// The one texture of the mesh, where it has one.
    pub texture_data: Option<Texture>,
}

/// What a [`DrawableMesh`] holds.
pub struct MeshView {
    pub vertices: Seq<u32>,
    pub indices: Seq<u32>,
    pub draw_with_indices: bool,
    pub filling: Option<Seq<VertexFilling>>,
    pub texture: Option<NodeView>,
}

impl View for DrawableMesh {
    type V = MeshView;

    open spec fn view(&self) -> MeshView {
        MeshView {
            vertices: self.vertices@,
            indices: self.indices@,
            draw_with_indices: self.draw_with_indices,
            filling: match self.vertices_filling {
                Some(f) => Some(f@),
                None => None,
            },
            texture: match self.texture_data {
                Some(t) => Some(t@),
                None => None,
            },
        }
    }
}

/// The number of vertices of a mesh.
pub open spec fn vertex_count(m: MeshView) -> nat {
    m.vertices.len() / 3
}

/// A mesh is well formed when it has a filling for each vertex or none at
/// all, each index names a vertex, and its counts fit in 32 bits.
pub open spec fn mesh_wf(m: MeshView) -> bool {
    &&& m.filling is Some ==> m.filling->0.len() == vertex_count(m)
    &&& forall|i: int| 0 <= i < m.indices.len() ==> (#[trigger] m.indices[i]) < vertex_count(m)
    &&& vertex_count(m) <= u32::MAX
    &&& m.indices.len() <= u32::MAX
}

/// The six words of colour and texture coordinate that a filling gives.
pub open spec fn filling_words(f: Option<VertexFilling>) -> Seq<u32> {
    match f {
        Some(VertexFilling::Color(r, g, b)) => seq![r, g, b, ZERO, ZERO, ZERO],
        Some(VertexFilling::CubeTextureCoordinates(u, v, w)) => seq![ONE, ONE, ONE, u, v, w],
        Some(VertexFilling::TwoDTextureCoordinates(u, v)) => seq![ONE, ONE, ONE, u, v, ZERO],
        None => seq![TINT_RED, TINT_GREEN, TINT_BLUE, ZERO, ZERO, ZERO],
    }
}

/// The filling of a vertex of a mesh, if the mesh has a filling.
pub open spec fn filling_at(m: MeshView, i: int) -> Option<VertexFilling> {
    match m.filling {
        Some(f) => Some(f[i]),
        None => None,
    }
}

/// The word at a place of the merged buffer of one mesh: of vertex
/// `k / 9`, a word of position where `k % 9` is under 3 and a word of its
/// filling else.
pub open spec fn interleaved_word(m: MeshView, k: int) -> u32 {
    let i = k / 9;
    let c = k % 9;
    if c < 3 {
        m.vertices[3 * i + c]
    } else {
        filling_words(filling_at(m, i))[c - 3]
    }
}

/// The vertices of a mesh with their fillings, nine words for each.
pub open spec fn interleaved(m: MeshView) -> Seq<u32> {
    Seq::new(9 * vertex_count(m), |k: int| interleaved_word(m, k))
}

/// The views of a list of meshes.
pub open spec fn mesh_views(v: Seq<DrawableMesh>) -> Seq<MeshView> {
    Seq::new(v.len(), |i: int| v[i]@)
}

/// The number of vertices of the first `k` meshes.
pub open spec fn vertices_before(meshes: Seq<MeshView>, k: nat) -> nat
    decreases k,
{
    if k == 0 || k > meshes.len() {
        0
    } else {
        vertices_before(meshes, (k - 1) as nat) + vertex_count(meshes[k - 1])
    }
}

/// The number of indices of the first `k` meshes.
pub open spec fn indices_before(meshes: Seq<MeshView>, k: nat) -> nat
    decreases k,
{
    if k == 0 || k > meshes.len() {
        0
    } else {
        indices_before(meshes, (k - 1) as nat) + meshes[k - 1].indices.len()
    }
}

/// The indices of a mesh, each moved up by an offset.
pub open spec fn shifted(indices: Seq<u32>, offset: nat) -> Seq<u32> {
    Seq::new(indices.len(), |i: int| (indices[i] + offset) as u32)
}

/// The indices of the first `k` meshes in one buffer: those of each mesh
/// moved up by the number of vertices of the meshes before it.
pub open spec fn merged_indices(meshes: Seq<MeshView>, k: nat) -> Seq<u32>
    decreases k,
{
    if k == 0 || k > meshes.len() {
        Seq::empty()
    } else {
        merged_indices(meshes, (k - 1) as nat) + shifted(
            meshes[k - 1].indices,
            vertices_before(meshes, (k - 1) as nat),
        )
    }
}

/// The vertices of the first `k` meshes in one buffer.
pub open spec fn merged_vertices(meshes: Seq<MeshView>, k: nat) -> Seq<u32>
    decreases k,
{
    if k == 0 || k > meshes.len() {
        Seq::empty()
    } else {
        merged_vertices(meshes, (k - 1) as nat) + interleaved(meshes[k - 1])
    }
}

/// The draw call of a mesh: how many indices, and the name of its texture.
pub open spec fn draw_call(m: MeshView) -> (u32, Option<Seq<char>>) {
    (
        m.indices.len() as u32,
        match m.texture {
            Some(t) => Some(name_of(t)),
            None => None,
        },
    )
}

/// The views of a list of draw calls.
pub open spec fn call_views(v: Seq<(u32, Option<String>)>) -> Seq<(u32, Option<Seq<char>>)> {
    Seq::new(
        v.len(),
        |i: int|
            (
                v[i].0,
                match v[i].1 {
                    Some(s) => Some(s@),
                    None => None,
                },
            ),
    )
}

/// A collection is well formed when each of its meshes is and the vertices
/// of all can be counted in 32 bits.
pub open spec fn collection_wf(meshes: Seq<MeshView>) -> bool {
    &&& forall|i: int| 0 <= i < meshes.len() ==> mesh_wf(#[trigger] meshes[i])
    &&& vertices_before(meshes, meshes.len()) <= u32::MAX
}

/// More meshes have no fewer indices.
pub proof fn lemma_indices_before_grows(meshes: Seq<MeshView>, a: nat, b: nat)
    requires
        a <= b <= meshes.len(),
    ensures
        indices_before(meshes, a) <= indices_before(meshes, b),
    decreases b - a,
{
    if a < b {
        lemma_indices_before_grows(meshes, a, (b - 1) as nat);
    }
}

/// More meshes have no fewer vertices.
pub proof fn lemma_vertices_before_grows(meshes: Seq<MeshView>, a: nat, b: nat)
    requires
        a <= b <= meshes.len(),
    ensures
        vertices_before(meshes, a) <= vertices_before(meshes, b),
    decreases b - a,
{
    if a < b {
        lemma_vertices_before_grows(meshes, a, (b - 1) as nat);
    }
}

/// The merged buffer has one index for each index of the meshes.
pub proof fn lemma_merged_len(meshes: Seq<MeshView>, k: nat)
    requires
        k <= meshes.len(),
    ensures
        merged_indices(meshes, k).len() == indices_before(meshes, k),
    decreases k,
{
    if k > 0 {
        lemma_merged_len(meshes, (k - 1) as nat);
    }
}

/// The merged buffer of indices beyond its first meshes is that of the first
/// meshes, carried on.
pub proof fn lemma_merged_prefix(meshes: Seq<MeshView>, a: nat, b: nat, i: int)
    requires
        a <= b <= meshes.len(),
        0 <= i < merged_indices(meshes, a).len(),
    ensures
        i < merged_indices(meshes, b).len(),
        merged_indices(meshes, b)[i] == merged_indices(meshes, a)[i],
    decreases b - a,
{
    if a < b {
        lemma_merged_prefix(meshes, a, (b - 1) as nat, i);
    }
}

/// In the merged buffer each mesh keeps a range of vertices to itself: the
/// index at place `j` of mesh `m` stands at place `j` behind the indices of
/// the meshes before it, moved up by the number of their vertices, and so
/// lies at or above that number and under the number that the next mesh
/// starts at. No index of one mesh equals an index of another.
pub proof fn lemma_merged_ranges(meshes: Seq<MeshView>, m: int, j: int)
    requires
        collection_wf(meshes),
        0 <= m < meshes.len(),
        0 <= j < meshes[m].indices.len(),
    ensures
        indices_before(meshes, m as nat) + j < merged_indices(meshes, meshes.len()).len(),
        merged_indices(meshes, meshes.len())[indices_before(meshes, m as nat) + j]
            == meshes[m].indices[j] + vertices_before(meshes, m as nat),
        vertices_before(meshes, m as nat) <= merged_indices(meshes, meshes.len())[indices_before(
            meshes,
            m as nat,
        ) + j] < vertices_before(meshes, (m + 1) as nat),
        vertices_before(meshes, (m + 1) as nat) <= vertices_before(meshes, meshes.len()),
{
    let upto = merged_indices(meshes, (m + 1) as nat);
    let base = merged_indices(meshes, m as nat);
    let place = indices_before(meshes, m as nat) + j;
    lemma_merged_len(meshes, m as nat);
    lemma_merged_len(meshes, (m + 1) as nat);
    lemma_vertices_before_grows(meshes, (m + 1) as nat, meshes.len());
    assert(mesh_wf(meshes[m]));
    assert(upto[place] == shifted(meshes[m].indices, vertices_before(meshes, m as nat))[j]);
    lemma_merged_prefix(meshes, (m + 1) as nat, meshes.len(), place);
}

/// Two places of the merged buffer that belong to different meshes hold
/// different indices.
pub proof fn lemma_merged_disjoint(meshes: Seq<MeshView>, m1: int, j1: int, m2: int, j2: int)
    requires
        collection_wf(meshes),
        0 <= m1 < m2 < meshes.len(),
        0 <= j1 < meshes[m1].indices.len(),
        0 <= j2 < meshes[m2].indices.len(),
    ensures
        merged_indices(meshes, meshes.len())[indices_before(meshes, m1 as nat) + j1]
            < merged_indices(meshes, meshes.len())[indices_before(meshes, m2 as nat) + j2],
{
    lemma_merged_ranges(meshes, m1, j1);
    lemma_merged_ranges(meshes, m2, j2);
    lemma_vertices_before_grows(meshes, (m1 + 1) as nat, m2 as nat);
}

/// The merged buffer of vertices has nine words for each vertex of the
/// meshes, and the merged buffer of indices one index for each index of the
/// meshes: the draw calls, taken together, cover it from end to end.
pub proof fn lemma_merged_sizes(meshes: Seq<MeshView>, k: nat)
    requires
        k <= meshes.len(),
    ensures
        merged_vertices(meshes, k).len() == 9 * vertices_before(meshes, k),
        merged_indices(meshes, k).len() == indices_before(meshes, k),
    decreases k,
{
    if k > 0 {
        lemma_merged_sizes(meshes, (k - 1) as nat);
    }
}

impl DrawableMesh {
    /// A mesh without vertices.
    pub fn new() -> (r: DrawableMesh)
        ensures
            r@ == (MeshView {
                vertices: Seq::empty(),
                indices: Seq::empty(),
                draw_with_indices: true,
                filling: None,
                texture: None,
            }),
            mesh_wf(r@),
    {
        DrawableMesh {
            vertices: Vec::new(),
            indices: Vec::new(),
            draw_with_indices: true,
            vertices_filling: None,
            texture_data: None,
        }
    }

    /// The number of indices.
    pub fn get_num_indices(&self) -> (n: u32)
        requires
            self@.indices.len() <= u32::MAX,
        ensures
            n == self@.indices.len(),
    {
        self.indices.len() as u32
    }

    /// The number of vertices: one for each three words.
    pub fn get_num_vertices(&self) -> (n: u32)
        requires
            vertex_count(self@) <= u32::MAX,
        ensures
            n == vertex_count(self@),
    {
        (self.vertices.len() / 3) as u32
    }

    /// The vertices with their fillings, nine words for each: see
    /// [`interleaved`].
    pub fn get_full_interleaved_vertices(&self) -> (out: Vec<u32>)
        requires
            self@.filling is Some ==> self@.filling->0.len() == vertex_count(self@),
        ensures
            out@ == interleaved(self@),
    {
        let n = self.vertices.len() / 3;
        let mut out: Vec<u32> = Vec::new();
        let mut i: usize = 0;
        while i < n
            invariant
                i <= n,
                n == vertex_count(self@),
                3 * n <= self.vertices.len(),
                self@.filling is Some ==> self@.filling->0.len() == vertex_count(self@),
                out@.len() == 9 * i,
                forall|k: int| 0 <= k < 9 * i ==> out@[k] == interleaved_word(self@, k),
            decreases n - i,
        {
            let words: [u32; 6] = match &self.vertices_filling {
                Some(f) => match f[i] {
                    VertexFilling::Color(r, g, b) => [r, g, b, ZERO, ZERO, ZERO],
                    VertexFilling::CubeTextureCoordinates(u, v, w) => [ONE, ONE, ONE, u, v, w],
                    VertexFilling::TwoDTextureCoordinates(u, v) => [ONE, ONE, ONE, u, v, ZERO],
                },
                None => [TINT_RED, TINT_GREEN, TINT_BLUE, ZERO, ZERO, ZERO],
            };
            assert(words@ =~= filling_words(filling_at(self@, i as int)));
            let ghost before = out@;
            out.push(self.vertices[i * 3]);
            out.push(self.vertices[i * 3 + 1]);
            out.push(self.vertices[i * 3 + 2]);
            out.push(words[0]);
            out.push(words[1]);
            out.push(words[2]);
            out.push(words[3]);
            out.push(words[4]);
            out.push(words[5]);
            assert forall|k: int| 0 <= k < 9 * (i + 1) implies out@[k] == interleaved_word(
                self@,
                k,
            ) by {
                if k < 9 * i {
                    assert(out@[k] == before[k]);
                } else {
                    assert(k / 9 == i as int);
                    assert(k % 9 == k - 9 * i);
                }
            }
            i += 1;
        }
        assert(out@ =~= interleaved(self@));
        out
    }
}

/// The meshes of a scene in drawing order.
#[derive(Debug)]
pub struct MeshCollection {
    pub drawable_meshes: Vec<DrawableMesh>,
}

impl View for MeshCollection {
    type V = Seq<MeshView>;

    open spec fn view(&self) -> Seq<MeshView> {
        mesh_views(self.drawable_meshes@)
    }
}

impl MeshCollection {
    /// A collection without meshes.
    pub fn new() -> (r: MeshCollection)
        ensures
            r@ == Seq::<MeshView>::empty(),
    {
        let r = MeshCollection { drawable_meshes: Vec::new() };
        assert(r@ =~= Seq::<MeshView>::empty());
        r
    }

    /// This collection with the meshes of another behind its own.
    pub fn merge(self, other: MeshCollection) -> (r: MeshCollection)
        ensures
            r@ == self@ + other@,
    {
        let mut meshes = self.drawable_meshes;
        let mut more = other.drawable_meshes;
        meshes.append(&mut more);
        let r = MeshCollection { drawable_meshes: meshes };
        assert(r@ =~= self@ + other@);
        r
    }

    /// Puts a mesh behind the others. A filling has one entry for each vertex.
    pub fn add_drawable_mesh(
        &mut self,
        drawable_mesh: Vec<u32>,
        indices: Vec<u32>,
        texture_data: Option<Texture>,
        vertices_filling: Option<Vec<VertexFilling>>,
    )
        requires
            vertices_filling is Some ==> vertices_filling->0@.len() == drawable_mesh@.len() / 3,
        ensures
            final(self)@ == old(self)@.push(
                MeshView {
                    vertices: drawable_mesh@,
                    indices: indices@,
                    draw_with_indices: true,
                    filling: match vertices_filling {
                        Some(f) => Some(f@),
                        None => None,
                    },
                    texture: match texture_data {
                        Some(t) => Some(t@),
                        None => None,
                    },
                },
            ),
    {
        let ghost before = self@;
        let mesh = DrawableMesh {
            vertices: drawable_mesh,
            indices,
            draw_with_indices: true,
            vertices_filling,
            texture_data,
        };
        self.drawable_meshes.push(mesh);
        assert(self@ =~= before.push(mesh@));
    }

    /// The vertices of all meshes in one buffer, nine words for each vertex.
    pub fn get_full_interleaved_vertices(&self) -> (out: Vec<u32>)
        requires
            forall|i: int|
                0 <= i < self@.len() ==> ((#[trigger] self@[i]).filling is Some
                    ==> self@[i].filling->0.len() == vertex_count(self@[i])),
        ensures
            out@ == merged_vertices(self@, self@.len()),
    {
        let mut out: Vec<u32> = Vec::new();
        let mut k: usize = 0;
        while k < self.drawable_meshes.len()
            invariant
                k <= self.drawable_meshes.len(),
                self@.len() == self.drawable_meshes.len(),
                forall|i: int|
                    0 <= i < self@.len() ==> ((#[trigger] self@[i]).filling is Some
                        ==> self@[i].filling->0.len() == vertex_count(self@[i])),
                out@ == merged_vertices(self@, k as nat),
            decreases self.drawable_meshes.len() - k,
        {
            assert(self@[k as int] == self.drawable_meshes[k as int]@);
            let mut rows = self.drawable_meshes[k].get_full_interleaved_vertices();
            out.append(&mut rows);
            k += 1;
        }
        out
    }

    /// The indices of all meshes in one buffer, those of each mesh moved up
    /// by the number of vertices before it: see [`merged_indices`].
    pub fn get_all_indices(&self) -> (out: Vec<u32>)
        requires
            collection_wf(self@),
        ensures
            out@ == merged_indices(self@, self@.len()),
    {
        let mut out: Vec<u32> = Vec::new();
        let mut acc: u32 = 0;
        let mut k: usize = 0;
        while k < self.drawable_meshes.len()
            invariant
                k <= self.drawable_meshes.len(),
                self@.len() == self.drawable_meshes.len(),
                collection_wf(self@),
                acc == vertices_before(self@, k as nat),
                out@ == merged_indices(self@, k as nat),
            decreases self.drawable_meshes.len() - k,
        {
            let mesh = &self.drawable_meshes[k];
            proof {
                assert(self@[k as int] == mesh@);
                assert(mesh_wf(self@[k as int]));
                lemma_vertices_before_grows(self@, (k + 1) as nat, self@.len());
            }
            let ghost before = out@;
            let mut j: usize = 0;
            while j < mesh.indices.len()
                invariant
                    j <= mesh.indices.len(),
                    mesh_wf(mesh@),
                    acc + vertex_count(mesh@) <= u32::MAX,
                    out@ == before + shifted(mesh@.indices, acc as nat).take(j as int),
                decreases mesh.indices.len() - j,
            {
                assert(mesh@.indices[j as int] < vertex_count(mesh@));
                out.push(mesh.indices[j] + acc);
                assert(out@ =~= before + shifted(mesh@.indices, acc as nat).take(j + 1));
                j += 1;
            }
            assert(shifted(mesh@.indices, acc as nat).take(j as int) =~= shifted(
                mesh@.indices,
                acc as nat,
            ));
            acc = acc + mesh.get_num_vertices();
            k += 1;
        }
        out
    }

    /// The number of vertices of all meshes.
    pub fn get_num_vertices(&self) -> (n: u32)
        requires
            collection_wf(self@),
        ensures
            n == vertices_before(self@, self@.len()),
    {
        let mut acc: u32 = 0;
        let mut k: usize = 0;
        while k < self.drawable_meshes.len()
            invariant
                k <= self.drawable_meshes.len(),
                self@.len() == self.drawable_meshes.len(),
                collection_wf(self@),
                acc == vertices_before(self@, k as nat),
            decreases self.drawable_meshes.len() - k,
        {
            proof {
                assert(self@[k as int] == self.drawable_meshes[k as int]@);
                assert(mesh_wf(self@[k as int]));
                lemma_vertices_before_grows(self@, (k + 1) as nat, self@.len());
            }
            acc = acc + self.drawable_meshes[k].get_num_vertices();
            k += 1;
        }
        acc
    }

    /// Where the indices of each mesh start in the merged buffer: behind the
    /// indices of the meshes before it. The draw call of a mesh covers the
    /// indices from there to the start of the next mesh.
    pub fn get_draw_offsets(&self) -> (offsets: Vec<u32>)
        requires
            indices_before(self@, self@.len()) <= u32::MAX,
        ensures
            offsets@.len() == self@.len(),
            forall|k: int|
                0 <= k < self@.len() ==> (#[trigger] offsets@[k]) == indices_before(self@, k as nat),
    {
        let mut offsets: Vec<u32> = Vec::new();
        let mut acc: u32 = 0;
        let mut k: usize = 0;
        while k < self.drawable_meshes.len()
            invariant
                k <= self.drawable_meshes.len(),
                self@.len() == self.drawable_meshes.len(),
                indices_before(self@, self@.len()) <= u32::MAX,
                acc == indices_before(self@, k as nat),
                offsets@.len() == k,
                forall|j: int| 0 <= j < k ==> (#[trigger] offsets@[j]) == indices_before(self@, j as nat),
            decreases self.drawable_meshes.len() - k,
        {
            proof {
                assert(self@[k as int] == self.drawable_meshes[k as int]@);
                lemma_indices_before_grows(self@, (k + 1) as nat, self@.len());
            }
            offsets.push(acc);
            acc = acc + self.drawable_meshes[k].indices.len() as u32;
            k += 1;
        }
        offsets
    }

    /// One draw call for each mesh, in the order of the meshes: the number of
    /// its indices and the name of its texture.
    pub fn get_draw_map(&self) -> (map: Vec<(u32, Option<String>)>)
        requires
            forall|i: int| 0 <= i < self@.len() ==> (#[trigger] self@[i]).indices.len() <= u32::MAX,
        ensures
            call_views(map@) == Seq::new(self@.len(), |i: int| draw_call(self@[i])),
    {
        let mut map: Vec<(u32, Option<String>)> = Vec::new();
        let mut k: usize = 0;
        while k < self.drawable_meshes.len()
            invariant
                k <= self.drawable_meshes.len(),
                self@.len() == self.drawable_meshes.len(),
                forall|i: int|
                    0 <= i < self@.len() ==> (#[trigger] self@[i]).indices.len() <= u32::MAX,
                map.len() == k,
                forall|i: int| 0 <= i < k ==> #[trigger] call_views(map@)[i] == draw_call(self@[i]),
            decreases self.drawable_meshes.len() - k,
        {
            let mesh = &self.drawable_meshes[k];
            assert(self@[k as int] == mesh@);
            let name: Option<String> = match &mesh.texture_data {
                Some(t) => Some(texture_name(t)),
                None => None,
            };
            let ghost before = call_views(map@);
            map.push((mesh.get_num_indices(), name));
            assert(call_views(map@) =~= before.push(draw_call(mesh@)));
            k += 1;
        }
        assert(call_views(map@) =~= Seq::new(self@.len(), |i: int| draw_call(self@[i])));
        map
    }
}

/// The name of a texture.
pub fn texture_name(t: &Texture) -> (r: String)
    ensures
        r@ == name_of(t@),
{
    match t.attrs_map.get("name") {
        Some(n) => n.clone(),
        None => match t.attrs_map.get("file") {
            Some(f) => crate::ops::file_stem(f.as_str()),
            None => String::new(),
        },
    }
}

} // verus!
