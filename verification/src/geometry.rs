//! The triangles of the primitive forms: which vertices each one joins.

use vstd::prelude::*;

verus! {

/// The number of vertices of a box.
pub const BOX_VERTICES: u32 = 8;

/// The segments of a sphere along each of its two directions.
pub const SPHERE_SEGMENTS: u32 = 32;

/// The triangles of a box, two for each face. Corner `4a + 2b + c` lies on
/// the upper side along x where `a` is 1, along y where `b` is 1 and along z
/// where `c` is 1.
pub open spec fn box_index_list() -> Seq<u32> {
    seq![
        0u32, 1u32, 2u32, 1u32, 2u32, 3u32,
        4u32, 5u32, 6u32, 5u32, 6u32, 7u32,
        0u32, 1u32, 4u32, 1u32, 4u32, 5u32,
        2u32, 3u32, 6u32, 3u32, 6u32, 7u32,
        0u32, 2u32, 4u32, 2u32, 4u32, 6u32,
        1u32, 3u32, 5u32, 3u32, 5u32, 7u32,
    ]
}

/// The index at a place of the triangles of a sphere with `n` segments. The
/// quad `k / 6` lies in ring `i` at step `j`; it joins the vertices `i n + j`
/// and `i n + (j + 1) mod n` of its ring with the two below them in the next
/// ring, in two triangles: first, next, below; next, below, below next.
pub open spec fn sphere_index(n: int, k: int) -> int {
    let quad = k / 6;
    let i = quad / n;
    let j = quad % n;
    let first = i * n + j;
    let next = i * n + (j + 1) % n;
    let corner = k % 6;
    if corner == 0 {
        first
    } else if corner == 1 || corner == 3 {
        next
    } else if corner == 2 || corner == 4 {
        first + n
    } else {
        next + n
    }
}

/// The triangles of a sphere with `n` segments: six indices for each of its
/// `n` times `n` quads.
pub open spec fn sphere_index_list(n: nat) -> Seq<u32> {
    Seq::new(6 * n * n, |k: int| sphere_index(n as int, k) as u32)
}

/// The number of vertices of a sphere with `n` segments: `n + 1` rings of `n`.
pub open spec fn sphere_vertices(n: nat) -> nat {
    (n + 1) * n
}

/// The triangles of a hull with a number of facets: each facet has three
/// vertices of its own, in order.
pub open spec fn hull_index_list(facets: nat) -> Seq<u32> {
    Seq::new(3 * facets, |k: int| k as u32)
}

/// The triangles of a box: 36 indices, each of one of its 8 vertices.
pub fn get_box_indices() -> (r: Vec<u32>)
    ensures
        r@ == box_index_list(),
        r@.len() == 36,
        forall|k: int| 0 <= k < 36 ==> (#[trigger] r@[k]) < BOX_VERTICES,
{
    let r: Vec<u32> = vec![
        0, 1, 2, 1, 2, 3,
        4, 5, 6, 5, 6, 7,
        0, 1, 4, 1, 4, 5,
        2, 3, 6, 3, 6, 7,
        0, 2, 4, 2, 4, 6,
        1, 3, 5, 3, 5, 7,
    ];
    assert(r@ =~= box_index_list());
    r
}

/// Every index of a sphere names one of its vertices.
pub proof fn lemma_sphere_index(n: int, k: int)
    requires
        n > 0,
        0 <= k < 6 * n * n,
    ensures
        0 <= sphere_index(n, k) < (n + 1) * n,
{
    let quad = k / 6;
    let i = quad / n;
    let j = quad % n;
    assert(0 <= quad < n * n) by (nonlinear_arith)
        requires
            0 <= k < 6 * n * n,
            quad == k / 6,
    ;
    assert(0 <= i < n && 0 <= j < n) by (nonlinear_arith)
        requires
            0 <= quad < n * n,
            n > 0,
            i == quad / n,
            j == quad % n,
    ;
    let next = (j + 1) % n;
    assert(0 <= next < n) by (nonlinear_arith)
        requires
            n > 0,
            0 <= j,
            next == (j + 1) % n,
    ;
    assert(0 <= i * n && i * n + n <= n * n && (n + 1) * n == n * n + n) by (nonlinear_arith)
        requires
            0 <= i < n,
    ;
}

/// The triangles of a sphere with a number of segments: see
/// [`sphere_index_list`]. Each index names one of its vertices.
pub fn generate_sphere_indices(subdivisions: u32) -> (r: Vec<u32>)
    requires
        subdivisions <= 0xffff,
    ensures
        r@ == sphere_index_list(subdivisions as nat),
        r@.len() == 6 * subdivisions * subdivisions,
        forall|k: int|
            0 <= k < r@.len() ==> (#[trigger] r@[k]) < sphere_vertices(subdivisions as nat),
{
    let n = subdivisions;
    let mut r: Vec<u32> = Vec::new();
    if n == 0 {
        assert(r@ =~= sphere_index_list(0));
        return r;
    }
    proof {
        assert((n + 1) * n <= 0x1_0000 * 0xffff) by (nonlinear_arith)
            requires
                0 < n <= 0xffff,
        ;
    }
    let mut i: u32 = 0;
    while i < n
        invariant
            0 < n <= 0xffff,
            i <= n,
            r@.len() == 6 * (i * n),
            forall|k: int| 0 <= k < 6 * (i * n) ==> r@[k] == sphere_index(n as int, k),
        decreases n - i,
    {
        proof {
            assert(i * n + n <= n * n && n * n <= 0xffff * 0xffff && 0 <= i * n) by (nonlinear_arith)
                requires
                    0 <= i < n,
                    n <= 0xffff,
            ;
        }
        let mut j: u32 = 0;
        while j < n
            invariant
                0 < n <= 0xffff,
                i < n,
                j <= n,
                i * n + n <= n * n,
                n * n <= 0xffff * 0xffff,
                0 <= i * n,
                r@.len() == 6 * (i * n + j),
                forall|k: int| 0 <= k < 6 * (i * n + j) ==> r@[k] == sphere_index(n as int, k),
            decreases n - j,
        {
            let first = i * n + j;
            let next = i * n + ((j + 1) % n);
            let second = first + n;
            let second_next = next + n;
            let ghost before = r@;
            let ghost quad = i * n + j;
            r.push(first);
            r.push(next);
            r.push(second);
            r.push(next);
            r.push(second);
            r.push(second_next);
            proof {
                assert(quad / (n as int) == i && quad % (n as int) == j) by (nonlinear_arith)
                    requires
                        quad == i * n + j,
                        0 <= j < n,
                        0 <= i,
                ;
                assert forall|k: int| 0 <= k < 6 * (quad + 1) implies r@[k] == sphere_index(
                    n as int,
                    k,
                ) by {
                    if k < 6 * quad {
                        assert(r@[k] == before[k]);
                    } else {
                        assert(k / 6 == quad);
                        assert(k % 6 == k - 6 * quad);
                    }
                }
            }
            j += 1;
        }
        proof {
            assert(6 * (i * n + n) == 6 * ((i + 1) * n)) by (nonlinear_arith);
        }
        i += 1;
    }
    proof {
        assert(6 * (n * n) == 6 * n * n) by (nonlinear_arith);
        assert forall|k: int| 0 <= k < r@.len() implies (#[trigger] r@[k]) < sphere_vertices(
            n as nat,
        ) && r@[k] == sphere_index(n as int, k) as u32 by {
            lemma_sphere_index(n as int, k);
        }
        assert(r@ =~= sphere_index_list(n as nat));
    }
    r
}

/// The triangles of the sphere that a geom is drawn as: 32 segments, so
/// 32 · 32 · 6 indices of 33 · 32 vertices.
pub fn get_sphere_indices() -> (r: Vec<u32>)
    ensures
        r@ == sphere_index_list(SPHERE_SEGMENTS as nat),
        r@.len() == 6144,
        sphere_vertices(SPHERE_SEGMENTS as nat) == 1056,
        forall|k: int| 0 <= k < 6144 ==> (#[trigger] r@[k]) < 1056,
{
    generate_sphere_indices(SPHERE_SEGMENTS)
}

/// The triangles of a hull with a number of facets: `0, 1, 2` for the first
/// facet, `3, 4, 5` for the second, and so on.
pub fn hull_indices(facets: usize) -> (r: Vec<u32>)
    requires
        3 * facets <= u32::MAX,
    ensures
        r@ == hull_index_list(facets as nat),
        forall|k: int| 0 <= k < r@.len() ==> (#[trigger] r@[k]) < 3 * facets,
{
    let mut r: Vec<u32> = Vec::new();
    let mut i: u32 = 0;
    let mut done: usize = 0;
    while done < facets
        invariant
            3 * facets <= u32::MAX,
            done <= facets,
            i == 3 * done,
            r@.len() == 3 * done,
            forall|k: int| 0 <= k < 3 * done ==> r@[k] == k as u32,
        decreases facets - done,
    {
        r.push(i);
        r.push(i + 1);
        r.push(i + 2);
        i = i + 3;
        done += 1;
    }
    assert(r@ =~= hull_index_list(facets as nat));
    r
}

/// On which side of the position a corner of a box lies along x, y and z:
/// corner `k` lies on the upper side along x where `k` is 4 or more, along y
/// where `k mod 4` is 2 or more, and along z where `k` is odd.
pub open spec fn box_corner(k: int) -> (bool, bool, bool) {
    (k / 4 == 1, (k % 4) / 2 == 1, k % 2 == 1)
}

/// The corners of a box, in the order of its vertices: eight of them.
pub fn get_box_corners() -> (r: Vec<(bool, bool, bool)>)
    ensures
        r@.len() == BOX_VERTICES,
        forall|k: int| 0 <= k < 8 ==> (#[trigger] r@[k]) == box_corner(k),
{
    let mut r: Vec<(bool, bool, bool)> = Vec::new();
    let mut k: u8 = 0;
    while k < 8
        invariant
            k <= 8,
            r@.len() == k,
            forall|j: int| 0 <= j < k ==> (#[trigger] r@[j]) == box_corner(j),
        decreases 8 - k,
    {
        r.push((k / 4 == 1, (k % 4) / 2 == 1, k % 2 == 1));
        k += 1;
    }
    r
}

/// The ring and the step of vertex `k` of a sphere with `n` segments.
pub open spec fn sphere_vertex(n: int, k: int) -> (u32, u32) {
    ((k / n) as u32, (k % n) as u32)
}

/// The vertices of a sphere with a number of segments, each by its ring and
/// its step: ring `i` of `0..=n` lies at the angle `i / n` of a half turn
/// from the pole, step `j` of `0..n` at the angle `j / n` of a full turn
/// about the axis. There are `(n + 1) n` of them.
pub fn generate_sphere_grid(subdivisions: u32) -> (r: Vec<(u32, u32)>)
    requires
        subdivisions <= 0xffff,
    ensures
        r@.len() == sphere_vertices(subdivisions as nat),
        forall|k: int|
            0 <= k < r@.len() ==> (#[trigger] r@[k]) == sphere_vertex(subdivisions as int, k),
        forall|k: int| 0 <= k < r@.len() ==> (#[trigger] r@[k]).0 <= subdivisions && r@[k].1
            < subdivisions,
{
    let n = subdivisions;
    let mut r: Vec<(u32, u32)> = Vec::new();
    let mut i: u32 = 0;
    while i <= n
        invariant
            n <= 0xffff,
            i <= n + 1,
            r@.len() == i * n,
            forall|k: int| 0 <= k < i * n ==> (#[trigger] r@[k]) == sphere_vertex(n as int, k),
            forall|k: int| 0 <= k < i * n ==> (#[trigger] r@[k]).0 <= n && r@[k].1 < n,
        decreases n + 1 - i,
    {
        let mut j: u32 = 0;
        while j < n
            invariant
                n <= 0xffff,
                i <= n,
                j <= n,
                r@.len() == i * n + j,
                forall|k: int|
                    0 <= k < i * n + j ==> (#[trigger] r@[k]) == sphere_vertex(n as int, k),
                forall|k: int| 0 <= k < i * n + j ==> (#[trigger] r@[k]).0 <= n && r@[k].1 < n,
            decreases n - j,
        {
            let ghost place = i * n + j;
            proof {
                assert(place / (n as int) == i && place % (n as int) == j) by (nonlinear_arith)
                    requires
                        place == i * n + j,
                        0 <= j < n,
                        0 <= i,
                ;
            }
            r.push((i, j));
            j += 1;
        }
        proof {
            assert(i * n + n == (i + 1) * n) by (nonlinear_arith);
        }
        i += 1;
    }
    proof {
        assert((n + 1) * n == sphere_vertices(n as nat));
    }
    r
}

} // verus!
