//! Welding of baked mesh geometry into a triangle-mesh collider shape.
//!
//! The scene graph hands this layer the baked triangles of a subtree; this
//! module deduplicates bit-identical vertices, keeping each vertex's first
//! occurrence, and rebuilds the triangles as indices into the welded vertex
//! list.

use vstd::prelude::*;

use crate::math::Vector3;
use crate::scene::Triangle;
use crate::shape::{IndexTriangle, TrimeshShape};

verus! {

/// The corners of a triangle list, flattened in order.
pub open spec fn corner_seq(tris: Seq<Triangle>) -> Seq<Vector3>
    decreases tris.len(),
{
    if tris.len() == 0 {
        Seq::empty()
    } else {
        corner_seq(tris.drop_last()) + seq![tris.last().a, tris.last().b, tris.last().c]
    }
}

/// First-occurrence deduplication of `s`, appended to what `acc` already
/// holds.
pub open spec fn dedup_from(s: Seq<Vector3>, acc: Seq<Vector3>) -> Seq<Vector3>
    decreases s.len(),
{
    if s.len() == 0 {
        acc
    } else {
        dedup_from(
            s.drop_first(),
            if acc.contains(s[0]) {
                acc
            } else {
                acc.push(s[0])
            },
        )
    }
}

/// The welded vertex list of a triangle list: every distinct corner, in
/// first-occurrence order.
pub open spec fn welded_vertices(tris: Seq<Triangle>) -> Seq<Vector3> {
    dedup_from(corner_seq(tris), Seq::empty())
}

/// Deduplication holds exactly the elements of its input and accumulator.
pub proof fn lemma_dedup_contains(s: Seq<Vector3>, acc: Seq<Vector3>, v: Vector3)
    ensures
        dedup_from(s, acc).contains(v) <==> s.contains(v) || acc.contains(v),
    decreases s.len(),
{
    if s.len() == 0 {
        assert(!s.contains(v));
        assert(dedup_from(s, acc) == acc);
    } else {
        let acc2 = if acc.contains(s[0]) {
            acc
        } else {
            acc.push(s[0])
        };
        assert(dedup_from(s, acc) == dedup_from(s.drop_first(), acc2));
        lemma_dedup_contains(s.drop_first(), acc2, v);
        assert(s.contains(v) <==> (s[0] == v || s.drop_first().contains(v))) by {
            if s.contains(v) {
                let i = choose|i: int| 0 <= i < s.len() && s[i] == v;
                if i > 0 {
                    assert(s.drop_first()[i - 1] == v);
                }
            }
            if s.drop_first().contains(v) {
                let i = choose|i: int| 0 <= i < s.drop_first().len() && s.drop_first()[i] == v;
                assert(s[i + 1] == v);
            }
        }
        if acc2.contains(v) && !acc.contains(v) {
            let i = choose|i: int| 0 <= i < acc2.len() && acc2[i] == v;
            assert(v == s[0]);
        }
        if !acc.contains(s[0]) {
            assert(acc2[acc2.len() - 1] == s[0]);
            assert(acc2.contains(s[0]));
            if acc.contains(v) {
                let i = choose|i: int| 0 <= i < acc.len() && acc[i] == v;
                assert(acc2[i] == v);
                assert(acc2.contains(v));
            }
        }
    }
}

/// Deduplication keeps an already-distinct accumulator distinct.
pub proof fn lemma_dedup_distinct(s: Seq<Vector3>, acc: Seq<Vector3>)
    requires
        forall|i: int, j: int| 0 <= i < j < acc.len() ==> acc[i] != acc[j],
    ensures
        forall|i: int, j: int|
            0 <= i < j < dedup_from(s, acc).len() ==> dedup_from(s, acc)[i] != dedup_from(s, acc)[j],
    decreases s.len(),
{
    if s.len() == 0 {
        assert(dedup_from(s, acc) == acc);
    }
    if s.len() > 0 {
        let acc2 = if acc.contains(s[0]) {
            acc
        } else {
            acc.push(s[0])
        };
        assert(dedup_from(s, acc) == dedup_from(s.drop_first(), acc2));
        assert forall|i: int, j: int| 0 <= i < j < acc2.len() implies acc2[i] != acc2[j] by {
            if j == acc2.len() - 1 && !acc.contains(s[0]) {
                assert(acc2[i] == acc[i]);
                if acc2[i] == s[0] {
                    assert(acc.contains(s[0]));
                }
            }
        }
        lemma_dedup_distinct(s.drop_first(), acc2);
    }
}

/// Finds a vertex's first occurrence in the welded list, appending it if it
/// is new.
fn weld_vertex(vertices: &mut Vec<Vector3>, v: Vector3) -> (idx: u32)
    requires
        old(vertices)@.len() < u32::MAX,
    ensures
        final(vertices)@ == if old(vertices)@.contains(v) {
            old(vertices)@
        } else {
            old(vertices)@.push(v)
        },
        idx < final(vertices)@.len(),
        final(vertices)@[idx as int] == v,
        forall|m: int| 0 <= m < idx ==> final(vertices)@[m] != v,
{
    let n = vertices.len();
    let mut i: usize = 0;
    while i < n
        invariant
            n == vertices@.len(),
            n < u32::MAX,
            i <= n,
            forall|m: int| 0 <= m < i ==> vertices@[m] != v,
        decreases n - i,
    {
        let w = vertices[i];
        if w.x.bits == v.x.bits && w.y.bits == v.y.bits && w.z.bits == v.z.bits {
            proof {
                assert(vertices@[i as int] == v);
            }
            return i as u32;
        }
        i += 1;
    }
    proof {
        assert(!vertices@.contains(v));
    }
    vertices.push(v);
    (n as u32)
}

/// What it means for a shape to be the weld of a triangle list: the
/// vertices are the distinct corners in first-occurrence order, and every
/// triangle indexes its corners' first occurrences.
pub open spec fn is_welded_shape(tris: Seq<Triangle>, r: TrimeshShape) -> bool {
    &&& r.vertices@ == welded_vertices(tris)
    &&& r.triangles@.len() == tris.len()
    &&& forall|i: int, j: int| 0 <= i < j < r.vertices@.len() ==> r.vertices@[i] != r.vertices@[j]
    &&& forall|t: int|
        0 <= t < tris.len() ==> {
            let it = #[trigger] r.triangles@[t];
            &&& it.a < r.vertices@.len()
            &&& it.b < r.vertices@.len()
            &&& it.c < r.vertices@.len()
            &&& r.vertices@[it.a as int] == tris[t].a
            &&& r.vertices@[it.b as int] == tris[t].b
            &&& r.vertices@[it.c as int] == tris[t].c
        }
}

/// The degenerate placeholder returned for a subtree without geometry: a
/// single point at the origin and one zero-area triangle on it.
pub open spec fn is_degenerate_trimesh(r: TrimeshShape) -> bool {
    &&& r.vertices@ =~= seq![crate::math::spec_zero_vector()]
    &&& r.triangles@ =~= seq![IndexTriangle { a: 0, b: 0, c: 0 }]
}

/// Welds a baked triangle list: deduplicates bit-identical vertices in
/// first-occurrence order and rebuilds every triangle as indices of its
/// corners' first occurrences.
pub fn weld_triangles(tris: &Vec<Triangle>) -> (r: TrimeshShape)
    requires
        tris@.len() < 0x1000_0000,
    ensures
        is_welded_shape(tris@, r),
        r.vertices@ == welded_vertices(tris@),
        r.triangles@.len() == tris@.len(),
        forall|i: int, j: int| 0 <= i < j < r.vertices@.len() ==> r.vertices@[i] != r.vertices@[j],
        forall|t: int|
            0 <= t < tris@.len() ==> {
                let it = #[trigger] r.triangles@[t];
                &&& it.a < r.vertices@.len()
                &&& it.b < r.vertices@.len()
                &&& it.c < r.vertices@.len()
                &&& r.vertices@[it.a as int] == tris@[t].a
                &&& r.vertices@[it.b as int] == tris@[t].b
                &&& r.vertices@[it.c as int] == tris@[t].c
                &&& (forall|m: int| 0 <= m < it.a ==> r.vertices@[m] != tris@[t].a)
                &&& (forall|m: int| 0 <= m < it.b ==> r.vertices@[m] != tris@[t].b)
                &&& (forall|m: int| 0 <= m < it.c ==> r.vertices@[m] != tris@[t].c)
            },
{
    let nt = tris.len();
    // Flatten the corners in order.
    let mut corners: Vec<Vector3> = Vec::new();
    let mut t: usize = 0;
    while t < nt
        invariant
            t <= nt,
            nt == tris@.len(),
            nt < 0x1000_0000,
            corners@ == corner_seq(tris@.take(t as int)),
            corners@.len() == 3 * t,
        decreases nt - t,
    {
        let tri = tris[t];
        corners.push(tri.a);
        corners.push(tri.b);
        corners.push(tri.c);
        proof {
            let pre = tris@.take(t as int);
            let cur = tris@.take(t + 1);
            assert(cur.drop_last() =~= pre);
            assert(cur.last() == tris@[t as int]);
            assert(corner_seq(cur) == corner_seq(pre) + seq![tri.a, tri.b, tri.c]);
            assert(corners@ =~= corner_seq(pre) + seq![tri.a, tri.b, tri.c]);
        }
        t += 1;
    }
    proof {
        assert(tris@.take(nt as int) =~= tris@);
    }
    // Weld the corners in first-occurrence order.
    let nc = corners.len();
    let mut vertices: Vec<Vector3> = Vec::new();
    proof {
        assert(corners@.skip(0) =~= corners@);
    }
    let mut i: usize = 0;
    while i < nc
        invariant
            i <= nc,
            nc == corners@.len(),
            nc < 0x3000_0000,
            vertices@.len() <= i,
            dedup_from(corners@.skip(i as int), vertices@) == dedup_from(corners@, Seq::empty()),
        decreases nc - i,
    {
        let v = corners[i];
        let ghost pre = vertices@;
        weld_vertex(&mut vertices, v);
        proof {
            let s = corners@.skip(i as int);
            assert(s[0] == corners@[i as int]);
            assert(s.drop_first() =~= corners@.skip(i + 1));
            assert(pre.contains(v) ==> vertices@ == pre);
            assert(!pre.contains(v) ==> vertices@ == pre.push(v));
            assert(dedup_from(s, pre) == dedup_from(corners@.skip(i + 1), vertices@));
        }
        i += 1;
    }
    proof {
        assert(corners@.skip(0) =~= corners@);
        assert(dedup_from(corners@.skip(nc as int), vertices@) == vertices@);
        assert(vertices@ == welded_vertices(tris@));
        lemma_dedup_distinct(corners@, Seq::empty());
    }
    // Rebuild the triangles as first-occurrence indices.
    let mut triangles: Vec<IndexTriangle> = Vec::new();
    let mut t2: usize = 0;
    while t2 < nt
        invariant
            t2 <= nt,
            nt == tris@.len(),
            vertices@ == welded_vertices(tris@),
            vertices@.len() < u32::MAX,
            forall|i2: int, j2: int|
                0 <= i2 < j2 < vertices@.len() ==> vertices@[i2] != vertices@[j2],
            triangles@.len() == t2,
            forall|u: int|
                0 <= u < t2 ==> {
                    let it = #[trigger] triangles@[u];
                    &&& it.a < vertices@.len()
                    &&& it.b < vertices@.len()
                    &&& it.c < vertices@.len()
                    &&& vertices@[it.a as int] == tris@[u].a
                    &&& vertices@[it.b as int] == tris@[u].b
                    &&& vertices@[it.c as int] == tris@[u].c
                    &&& (forall|m: int| 0 <= m < it.a ==> vertices@[m] != tris@[u].a)
                    &&& (forall|m: int| 0 <= m < it.b ==> vertices@[m] != tris@[u].b)
                    &&& (forall|m: int| 0 <= m < it.c ==> vertices@[m] != tris@[u].c)
                },
        decreases nt - t2,
    {
        let tri = tris[t2];
        proof {
            assert(tris@.contains(tris@[t2 as int]));
            lemma_corner_of_triangle(tris@, t2 as int);
            lemma_dedup_contains(corner_seq(tris@), Seq::empty(), tri.a);
            lemma_dedup_contains(corner_seq(tris@), Seq::empty(), tri.b);
            lemma_dedup_contains(corner_seq(tris@), Seq::empty(), tri.c);
        }
        let ia = find_vertex(&vertices, tri.a);
        let ib = find_vertex(&vertices, tri.b);
        let ic = find_vertex(&vertices, tri.c);
        triangles.push(IndexTriangle { a: ia, b: ib, c: ic });
        t2 += 1;
    }
    TrimeshShape { vertices, triangles }
}

/// Every corner of a listed triangle occurs in the flattened corner list.
proof fn lemma_corner_of_triangle(tris: Seq<Triangle>, t: int)
    requires
        0 <= t < tris.len(),
    ensures
        corner_seq(tris).contains(tris[t].a),
        corner_seq(tris).contains(tris[t].b),
        corner_seq(tris).contains(tris[t].c),
    decreases tris.len(),
{
    let s = corner_seq(tris);
    let prefix = corner_seq(tris.drop_last());
    if t == tris.len() - 1 {
        assert(s[prefix.len() as int] == tris[t].a);
        assert(s[prefix.len() as int + 1] == tris[t].b);
        assert(s[prefix.len() as int + 2] == tris[t].c);
    } else {
        lemma_corner_of_triangle(tris.drop_last(), t);
        assert(tris.drop_last()[t] == tris[t]);
        let ia = choose|i: int| 0 <= i < prefix.len() && prefix[i] == tris[t].a;
        assert(s[ia] == tris[t].a);
        let ib = choose|i: int| 0 <= i < prefix.len() && prefix[i] == tris[t].b;
        assert(s[ib] == tris[t].b);
        let ic = choose|i: int| 0 <= i < prefix.len() && prefix[i] == tris[t].c;
        assert(s[ic] == tris[t].c);
    }
}

/// The first index of a vertex known to be present.
fn find_vertex(vertices: &Vec<Vector3>, v: Vector3) -> (idx: u32)
    requires
        vertices@.contains(v),
        vertices@.len() < u32::MAX,
    ensures
        idx < vertices@.len(),
        vertices@[idx as int] == v,
        forall|m: int| 0 <= m < idx ==> vertices@[m] != v,
{
    let n = vertices.len();
    let mut i: usize = 0;
    while i < n
        invariant
            n == vertices@.len(),
            n < u32::MAX,
            i <= n,
            vertices@.contains(v),
            forall|m: int| 0 <= m < i ==> vertices@[m] != v,
        decreases n - i,
    {
        let w = vertices[i];
        if w.x.bits == v.x.bits && w.y.bits == v.y.bits && w.z.bits == v.z.bits {
            proof {
                assert(vertices@[i as int] == v);
            }
            return i as u32;
        }
        i += 1;
    }
    proof {
        let m = choose|m: int| 0 <= m < vertices@.len() && vertices@[m] == v;
    }
    unreached()
}

} // verus!
