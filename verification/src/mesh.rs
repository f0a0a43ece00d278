//! Geodesic sphere mesh: the canonical icosahedron subdivided a chosen
//! number of times, every new edge midpoint projected back onto the unit
//! sphere and welded, so a shared edge yields exactly one midpoint vertex.

use std::collections::HashMap;
use vstd::prelude::*;

use crate::fixed::FP_ONE;
use crate::rng::{mottle, mottle_at};
use crate::vec3::{
    lemma_near_unit_norm_bounds, midpoint, midpoint_of, near_unit, norm_sq, normalize,
    normalized_point, Vec3,
};

verus! {

broadcast use vstd::std_specs::hash::group_hash_axioms;

/// One outward-facing triangle: three indices into the vertex list.
#[derive(Clone, Copy, Debug, PartialEq, Eq, Structural)]
pub struct Tri {
    pub a: usize,
    pub b: usize,
    pub c: usize,
}

/// Deepest supported subdivision; the vertex count grows as `10 * 4^d + 2`,
/// so this is already a mesh of over a million faces.
pub const MAX_DEPTH: u32 = 8;

/// `20 * 4^MAX_DEPTH`: the face count of the deepest supported mesh.
pub const FACE_CAP: usize = 1_310_720;

/// Loose ceiling on how many vertices a build can create; far below the
/// range where edge keys could collide.
pub const VERT_CAP: usize = 6_000_000;

/// First coordinate of every icosahedron vertex: `1 / sqrt(1 + phi * phi)`
/// in fixed point, where `phi` is the golden ratio.
pub const ICO_A: i64 = 525_731;

/// Second coordinate of every icosahedron vertex: `phi / sqrt(1 + phi * phi)`
/// in fixed point.
pub const ICO_B: i64 = 850_651;

/// `-ICO_A`, spelled out so the vertex table stays literal.
pub const ICO_AN: i64 = -525_731;

/// `-ICO_B`, spelled out so the vertex table stays literal.
pub const ICO_BN: i64 = -850_651;

pub open spec fn pow4(n: nat) -> nat
    decreases n,
{
    if n == 0 {
        1
    } else {
        4 * pow4((n - 1) as nat)
    }
}

pub proof fn lemma_pow4_max_depth()
    ensures
        pow4(MAX_DEPTH as nat) == 65536,
{
    reveal_with_fuel(pow4, 10);
}

pub proof fn lemma_pow4_mono(j: nat, k: nat)
    requires
        j <= k,
    ensures
        pow4(j) <= pow4(k),
    decreases k,
{
    if j < k {
        lemma_pow4_mono(j, (k - 1) as nat);
    }
}

/// The twelve vertices of the regular icosahedron, already normalized: the
/// cyclic permutations of `(+-ICO_A, +-ICO_B, 0)`.
pub open spec fn icosahedron_vertex_seq() -> Seq<Vec3> {
    seq![
        Vec3 { x: ICO_AN, y: ICO_B, z: 0 },
        Vec3 { x: ICO_A, y: ICO_B, z: 0 },
        Vec3 { x: ICO_AN, y: ICO_BN, z: 0 },
        Vec3 { x: ICO_A, y: ICO_BN, z: 0 },
        Vec3 { x: 0, y: ICO_AN, z: ICO_B },
        Vec3 { x: 0, y: ICO_A, z: ICO_B },
        Vec3 { x: 0, y: ICO_AN, z: ICO_BN },
        Vec3 { x: 0, y: ICO_A, z: ICO_BN },
        Vec3 { x: ICO_B, y: 0, z: ICO_AN },
        Vec3 { x: ICO_B, y: 0, z: ICO_A },
        Vec3 { x: ICO_BN, y: 0, z: ICO_AN },
        Vec3 { x: ICO_BN, y: 0, z: ICO_A },
    ]
}

/// The twenty faces of the regular icosahedron over those vertices.
pub open spec fn icosahedron_face_seq() -> Seq<Tri> {
    seq![
        Tri { a: 0, b: 11, c: 5 },
        Tri { a: 0, b: 5, c: 1 },
        Tri { a: 0, b: 1, c: 7 },
        Tri { a: 0, b: 7, c: 10 },
        Tri { a: 0, b: 10, c: 11 },
        Tri { a: 1, b: 5, c: 9 },
        Tri { a: 5, b: 11, c: 4 },
        Tri { a: 11, b: 10, c: 2 },
        Tri { a: 10, b: 7, c: 6 },
        Tri { a: 7, b: 1, c: 8 },
        Tri { a: 3, b: 9, c: 4 },
        Tri { a: 3, b: 4, c: 2 },
        Tri { a: 3, b: 2, c: 6 },
        Tri { a: 3, b: 6, c: 8 },
        Tri { a: 3, b: 8, c: 9 },
        Tri { a: 4, b: 9, c: 5 },
        Tri { a: 2, b: 4, c: 11 },
        Tri { a: 6, b: 2, c: 10 },
        Tri { a: 8, b: 6, c: 7 },
        Tri { a: 9, b: 8, c: 1 },
    ]
}

pub open spec fn face_in_bounds(t: Tri, n: int) -> bool {
    &&& t.a < n
    &&& t.b < n
    &&& t.c < n
}

/// The unordered edge key: both endpoint orders give the same key, and two
/// different unordered pairs of indices below `VERT_CAP` give different keys.
pub open spec fn edge_key(v0: int, v1: int) -> u64 {
    if v0 <= v1 {
        (v0 * 0x1_0000_0000 + v1) as u64
    } else {
        (v1 * 0x1_0000_0000 + v0) as u64
    }
}

/// The vertex welded onto a subdivided edge: the midpoint of its endpoints,
/// projected onto the unit sphere.
pub open spec fn weld_point(a: Vec3, b: Vec3) -> Vec3 {
    normalized_point(midpoint_of(a, b))
}

/// Every cached midpoint index points into the first `n` vertices.
pub open spec fn cache_ok(m: Map<u64, usize>, n: int) -> bool {
    forall|k: u64| #[trigger] m.contains_key(k) ==> m[k] < n
}


/// The ghost state a subdivision round threads along: the vertex list and
/// the midpoint cache.
pub ghost struct WeldState {
    pub verts: Seq<Vec3>,
    pub cache: Map<u64, usize>,
}

/// One edge lookup in the model: a cached edge changes nothing; a new edge
/// appends its welded midpoint and records it.
pub open spec fn weld_one(st: WeldState, a: int, b: int) -> WeldState {
    if st.cache.contains_key(edge_key(a, b)) {
        st
    } else {
        WeldState {
            verts: st.verts.push(weld_point(st.verts[a], st.verts[b])),
            cache: st.cache.insert(edge_key(a, b), st.verts.len() as usize),
        }
    }
}

/// The index that lookup hands back.
pub open spec fn weld_one_idx(st: WeldState, a: int, b: int) -> usize {
    if st.cache.contains_key(edge_key(a, b)) {
        st.cache[edge_key(a, b)]
    } else {
        st.verts.len() as usize
    }
}

/// The state after one face's three edges are welded, in order.
pub open spec fn face_state(st: WeldState, f: Tri) -> WeldState {
    weld_one(weld_one(weld_one(st, f.a as int, f.b as int), f.b as int, f.c as int), f.c as int, f.a as int)
}

/// The four faces a face splits into.
pub open spec fn face_children(st: WeldState, f: Tri) -> Seq<Tri> {
    let ma = weld_one_idx(st, f.a as int, f.b as int);
    let st1 = weld_one(st, f.a as int, f.b as int);
    let mb = weld_one_idx(st1, f.b as int, f.c as int);
    let st2 = weld_one(st1, f.b as int, f.c as int);
    let mc = weld_one_idx(st2, f.c as int, f.a as int);
    seq![
        Tri { a: f.a, b: ma, c: mc },
        Tri { a: f.b, b: mb, c: ma },
        Tri { a: f.c, b: mc, c: mb },
        Tri { a: ma, b: mb, c: mc },
    ]
}


/// The welding guarantee: once an edge has been welded, welding it again,
/// in either endpoint order, returns the same midpoint index and creates
/// no second vertex.
pub proof fn lemma_weld_reuses_midpoint(st: WeldState, a: int, b: int)
    ensures
        weld_one(weld_one(st, a, b), b, a) == weld_one(st, a, b),
        weld_one_idx(weld_one(st, a, b), b, a) == weld_one_idx(st, a, b),
{
    lemma_edge_key_unordered(a, b);
}

/// The state after the first `n` faces of a round.
pub open spec fn round_upto(st0: WeldState, faces: Seq<Tri>, n: int) -> WeldState
    decreases n,
{
    if n <= 0 {
        st0
    } else {
        face_state(round_upto(st0, faces, n - 1), faces[n - 1])
    }
}

/// The subdivided faces of the first `n` faces of a round.
pub open spec fn round_faces_upto(st0: WeldState, faces: Seq<Tri>, n: int) -> Seq<Tri>
    decreases n,
{
    if n <= 0 {
        Seq::empty()
    } else {
        round_faces_upto(st0, faces, n - 1) + face_children(
            round_upto(st0, faces, n - 1),
            faces[n - 1],
        )
    }
}


/// The distinct edge keys among the first `n` faces.
pub open spec fn edge_keys_upto(faces: Seq<Tri>, n: int) -> Set<u64>
    decreases n,
{
    if n <= 0 {
        Set::empty()
    } else {
        let f = faces[n - 1];
        edge_keys_upto(faces, n - 1).insert(edge_key(f.a as int, f.b as int)).insert(
            edge_key(f.b as int, f.c as int),
        ).insert(edge_key(f.c as int, f.a as int))
    }
}

/// One weld keeps the difference between vertex count and cached-edge count:
/// a cached edge adds neither, a new edge adds one of each.
proof fn lemma_weld_one_accounting(st: WeldState, a: int, b: int)
    requires
        st.cache.dom().finite(),
    ensures
        weld_one(st, a, b).cache.dom().finite(),
        weld_one(st, a, b).cache.dom() == st.cache.dom().insert(edge_key(a, b)),
        weld_one(st, a, b).verts.len() - weld_one(st, a, b).cache.dom().len() == st.verts.len()
            - st.cache.dom().len(),
{
    broadcast use vstd::set::group_set_axioms;

    let k = edge_key(a, b);
    if st.cache.contains_key(k) {
        assert(st.cache.dom().insert(k) =~= st.cache.dom());
    } else {
        assert(weld_one(st, a, b).cache.dom() =~= st.cache.dom().insert(k));
        vstd::set::axiom_set_insert_len(st.cache.dom(), k);
    }
}

proof fn lemma_round_accounting(st0: WeldState, faces: Seq<Tri>, n: int)
    requires
        st0.cache.dom().finite(),
        0 <= n <= faces.len(),
    ensures
        round_upto(st0, faces, n).cache.dom().finite(),
        round_upto(st0, faces, n).cache.dom() == st0.cache.dom().union(edge_keys_upto(faces, n)),
        round_upto(st0, faces, n).verts.len() - round_upto(st0, faces, n).cache.dom().len()
            == st0.verts.len() - st0.cache.dom().len(),
    decreases n,
{
    broadcast use vstd::set::group_set_axioms;

    if n == 0 {
        assert(st0.cache.dom().union(Set::empty()) =~= st0.cache.dom());
    } else {
        lemma_round_accounting(st0, faces, n - 1);
        let st = round_upto(st0, faces, n - 1);
        let f = faces[n - 1];
        lemma_weld_one_accounting(st, f.a as int, f.b as int);
        let st1 = weld_one(st, f.a as int, f.b as int);
        lemma_weld_one_accounting(st1, f.b as int, f.c as int);
        let st2 = weld_one(st1, f.b as int, f.c as int);
        lemma_weld_one_accounting(st2, f.c as int, f.a as int);
        assert(round_upto(st0, faces, n).cache.dom() =~= st0.cache.dom().union(
            edge_keys_upto(faces, n),
        ));
    }
}

/// Welding minimality: one subdivision round grows the vertex list by
/// exactly the number of distinct edges among its faces, however many faces
/// share each edge — no midpoint is ever duplicated.
pub proof fn lemma_round_weld_minimal(verts: Seq<Vec3>, faces: Seq<Tri>)
    ensures
        round_upto(
            WeldState { verts, cache: Map::empty() },
            faces,
            faces.len() as int,
        ).verts.len() == verts.len() + edge_keys_upto(faces, faces.len() as int).len(),
{
    broadcast use vstd::set::group_set_axioms;

    let st0 = WeldState { verts, cache: Map::empty() };
    lemma_round_accounting(st0, faces, faces.len() as int);
    assert(st0.cache.dom() =~= Set::<u64>::empty());
    assert(st0.cache.dom().union(edge_keys_upto(faces, faces.len() as int)) =~= edge_keys_upto(
        faces,
        faces.len() as int,
    ));
}


/// The classic count: with `30 * 4^j` distinct edges in every round's face
/// list — what a closed triangulated sphere always has — the vertex count
/// at depth `d` is `10 * 4^d + 2`. The edge counts themselves are a fact of
/// the icosahedron's face topology, checked on built meshes by the tests.
pub proof fn lemma_vertex_count_formula(d: nat)
    requires
        forall|j: nat|
            j < d ==> #[trigger] edge_keys_upto(
                build_model(j).1,
                build_model(j).1.len() as int,
            ).len() == 30 * pow4(j),
    ensures
        build_model(d).0.len() == 10 * pow4(d) + 2,
        build_model(d).1.len() == 20 * pow4(d),
    decreases d,
{
    if d == 0 {
        assert(build_model(0).0.len() == 12);
        assert(build_model(0).1.len() == 20);
    } else {
        lemma_vertex_count_formula((d - 1) as nat);
        let prev = build_model((d - 1) as nat);
        assert(edge_keys_upto(prev.1, prev.1.len() as int).len() == 30 * pow4((d - 1) as nat));
        lemma_round_weld_minimal(prev.0, prev.1);
        lemma_round_faces_count(
            WeldState { verts: prev.0, cache: Map::empty() },
            prev.1,
            prev.1.len() as int,
        );
    }
}

/// Each face of a round contributes four subdivided faces.
proof fn lemma_round_faces_count(st0: WeldState, faces: Seq<Tri>, n: int)
    requires
        0 <= n <= faces.len(),
    ensures
        round_faces_upto(st0, faces, n).len() == 4 * n,
    decreases n,
{
    if n > 0 {
        lemma_round_faces_count(st0, faces, n - 1);
    }
}

/// The whole mesh after `depth` rounds, vertices and faces: what
/// [`Icosphere::new`] computes.
pub open spec fn build_model(depth: nat) -> (Seq<Vec3>, Seq<Tri>)
    decreases depth,
{
    if depth == 0 {
        (icosahedron_vertex_seq(), icosahedron_face_seq())
    } else {
        let prev = build_model((depth - 1) as nat);
        let st0 = WeldState { verts: prev.0, cache: Map::empty() };
        (
            round_upto(st0, prev.1, prev.1.len() as int).verts,
            round_faces_upto(st0, prev.1, prev.1.len() as int),
        )
    }
}

/// A geodesic sphere mesh. Immutable once built: positions plus faces,
/// ready to be flattened into vertex and index buffers by the host.
pub struct Icosphere {
    pub vertices: Vec<Vec3>,
    pub faces: Vec<Tri>,
}

impl Icosphere {
    /// Structural well-formedness: every face references real vertices and
    /// every vertex lies on the unit sphere up to the construction
    /// tolerance.
    pub open spec fn wf(self) -> bool {
        &&& 12 <= self.vertices@.len() <= VERT_CAP
        &&& self.faces@.len() <= FACE_CAP
        &&& forall|i: int|
            0 <= i < self.faces@.len() ==> face_in_bounds(
                #[trigger] self.faces@[i],
                self.vertices@.len() as int,
            )
        &&& forall|i: int| 0 <= i < self.vertices@.len() ==> near_unit(#[trigger] self.vertices@[i])
    }

    /// Builds the geodesic sphere of the given subdivision depth: depth 0 is
    /// the bare icosahedron; every round replaces each face with four,
    /// welding one midpoint vertex per shared edge.
    pub fn new(subdivisions: u32) -> (m: Icosphere)
        requires
            subdivisions <= MAX_DEPTH,
        ensures
            m.wf(),
            m.faces@.len() == 20 * pow4(subdivisions as nat),
            m.vertices@.len() <= 20 * pow4(subdivisions as nat),
            m.vertices@.subrange(0, 12) == icosahedron_vertex_seq(),
            m.vertices@ == build_model(subdivisions as nat).0,
            m.faces@ == build_model(subdivisions as nat).1,
    {
        let mut vertices = icosahedron_vertices();
        let mut faces = icosahedron_faces();
        let mut round: u32 = 0;
        while round < subdivisions
            invariant
                round <= subdivisions <= MAX_DEPTH,
                faces@.len() == 20 * pow4(round as nat),
                12 <= vertices@.len() <= 20 * pow4(round as nat),
                forall|j: int| 0 <= j < 12 ==> vertices@[j] == icosahedron_vertex_seq()[j],
                forall|i: int|
                    0 <= i < faces@.len() ==> face_in_bounds(
                        #[trigger] faces@[i],
                        vertices@.len() as int,
                    ),
                forall|i: int| 0 <= i < vertices@.len() ==> near_unit(#[trigger] vertices@[i]),
                vertices@ == build_model(round as nat).0,
                faces@ == build_model(round as nat).1,
            decreases subdivisions - round,
        {
            proof {
                lemma_pow4_mono((round + 1) as nat, MAX_DEPTH as nat);
                lemma_pow4_max_depth();
                assert(pow4((round + 1) as nat) == 4 * pow4(round as nat));
            }
            faces = subdivide_round(&mut vertices, &faces);
            round = round + 1;
        }
        proof {
            lemma_pow4_mono(subdivisions as nat, MAX_DEPTH as nat);
            lemma_pow4_max_depth();
            assert(vertices@.subrange(0, 12) =~= icosahedron_vertex_seq());
        }
        Icosphere { vertices, faces }
    }

    pub fn vertex_count(&self) -> (n: usize)
        ensures
            n == self.vertices@.len(),
    {
        self.vertices.len()
    }

    pub fn face_count(&self) -> (n: usize)
        ensures
            n == self.faces@.len(),
    {
        self.faces.len()
    }

    pub fn vertex_at(&self, i: usize) -> (v: Vec3)
        requires
            i < self.vertices@.len(),
        ensures
            v == self.vertices@[i as int],
    {
        self.vertices[i]
    }

    pub fn face_at(&self, i: usize) -> (t: Tri)
        requires
            i < self.faces@.len(),
        ensures
            t == self.faces@[i as int],
    {
        self.faces[i]
    }

    /// How many indices a draw call consumes: three per face.
    pub fn index_count(&self) -> (n: u32)
        requires
            self.wf(),
        ensures
            n == 3 * self.faces@.len(),
    {
        (self.faces.len() * 3) as u32
    }

    /// The faces flattened into a plain index list, three entries per face,
    /// in face order: what an index buffer holds.
    pub fn triangle_indices(&self) -> (out: Vec<u32>)
        requires
            self.wf(),
        ensures
            out@.len() == 3 * self.faces@.len(),
            forall|i: int|
                0 <= i < self.faces@.len() ==> {
                    &&& out@[3 * i] == self.faces@[i].a as u32
                    &&& out@[3 * i + 1] == self.faces@[i].b as u32
                    &&& out@[3 * i + 2] == self.faces@[i].c as u32
                },
    {
        let mut out: Vec<u32> = Vec::new();
        let n = self.faces.len();
        let mut i: usize = 0;
        while i < n
            invariant
                i <= n,
                n == self.faces@.len(),
                self.wf(),
                out@.len() == 3 * i,
                forall|j: int|
                    0 <= j < i ==> {
                        &&& out@[3 * j] == self.faces@[j].a as u32
                        &&& out@[3 * j + 1] == self.faces@[j].b as u32
                        &&& out@[3 * j + 2] == self.faces@[j].c as u32
                    },
            decreases n - i,
        {
            let t = self.faces[i];
            out.push(t.a as u32);
            out.push(t.b as u32);
            out.push(t.c as u32);
            i = i + 1;
        }
        out
    }

    /// The per-vertex accent flags, in vertex order: vertex `i` takes the
    /// accent color exactly when the pseudo-random selector picks it.
    pub fn mottle_flags(&self) -> (out: Vec<bool>)
        requires
            self.wf(),
        ensures
            out@.len() == self.vertices@.len(),
            forall|i: int| 0 <= i < out@.len() ==> out@[i] == mottle(i as u32),
    {
        let mut out: Vec<bool> = Vec::new();
        let n = self.vertices.len();
        let mut i: usize = 0;
        while i < n
            invariant
                i <= n,
                n <= VERT_CAP,
                out@.len() == i,
                forall|j: int| 0 <= j < i ==> out@[j] == mottle(j as u32),
            decreases n - i,
        {
            out.push(mottle_at(i as u32));
            i = i + 1;
        }
        out
    }
}

/// The twelve normalized icosahedron vertices, as executable data.
fn icosahedron_vertices() -> (out: Vec<Vec3>)
    ensures
        out@ == icosahedron_vertex_seq(),
        forall|i: int| 0 <= i < out@.len() ==> near_unit(#[trigger] out@[i]),
{
    let mut out: Vec<Vec3> = Vec::new();
    out.push(Vec3 { x: ICO_AN, y: ICO_B, z: 0 });
    out.push(Vec3 { x: ICO_A, y: ICO_B, z: 0 });
    out.push(Vec3 { x: ICO_AN, y: ICO_BN, z: 0 });
    out.push(Vec3 { x: ICO_A, y: ICO_BN, z: 0 });
    out.push(Vec3 { x: 0, y: ICO_AN, z: ICO_B });
    out.push(Vec3 { x: 0, y: ICO_A, z: ICO_B });
    out.push(Vec3 { x: 0, y: ICO_AN, z: ICO_BN });
    out.push(Vec3 { x: 0, y: ICO_A, z: ICO_BN });
    out.push(Vec3 { x: ICO_B, y: 0, z: ICO_AN });
    out.push(Vec3 { x: ICO_B, y: 0, z: ICO_A });
    out.push(Vec3 { x: ICO_BN, y: 0, z: ICO_AN });
    out.push(Vec3 { x: ICO_BN, y: 0, z: ICO_A });
    proof {
        assert(out@ =~= icosahedron_vertex_seq());
        lemma_icosahedron_near_unit();
    }
    out
}

proof fn lemma_icosahedron_near_unit()
    ensures
        forall|i: int|
            0 <= i < 12 ==> near_unit(#[trigger] icosahedron_vertex_seq()[i]),
{
    let vs = icosahedron_vertex_seq();
    // The squared norm of every vertex is ICO_A^2 + ICO_B^2, a hair above
    // one squared unit and well inside the tolerance band.
    assert((ICO_A as int) * (ICO_A as int) + (ICO_B as int) * (ICO_B as int)
        == 1_000_000_208_162 && (ICO_AN as int) * (ICO_AN as int) == (ICO_A as int) * (ICO_A
        as int) && (ICO_BN as int) * (ICO_BN as int) == (ICO_B as int) * (ICO_B as int))
        by (nonlinear_arith)
        requires
            ICO_A == 525_731,
            ICO_B == 850_651,
            ICO_AN == -525_731,
            ICO_BN == -850_651,
    ;
    assert(vs[0].x == ICO_AN && vs[0].y == ICO_B && vs[0].z == 0);
    assert(norm_sq(vs[0]) == ICO_AN * ICO_AN + ICO_B * ICO_B + 0 * 0);
    assert(near_unit(vs[0]));
    assert(near_unit(vs[1]));
    assert(near_unit(vs[2]));
    assert(near_unit(vs[3]));
    assert(near_unit(vs[4]));
    assert(near_unit(vs[5]));
    assert(near_unit(vs[6]));
    assert(near_unit(vs[7]));
    assert(near_unit(vs[8]));
    assert(near_unit(vs[9]));
    assert(near_unit(vs[10]));
    assert(near_unit(vs[11]));
}

/// The twenty icosahedron faces, as executable data.
fn icosahedron_faces() -> (out: Vec<Tri>)
    ensures
        out@ == icosahedron_face_seq(),
        forall|i: int| 0 <= i < out@.len() ==> face_in_bounds(#[trigger] out@[i], 12),
{
    let mut out: Vec<Tri> = Vec::new();
    out.push(Tri { a: 0, b: 11, c: 5 });
    out.push(Tri { a: 0, b: 5, c: 1 });
    out.push(Tri { a: 0, b: 1, c: 7 });
    out.push(Tri { a: 0, b: 7, c: 10 });
    out.push(Tri { a: 0, b: 10, c: 11 });
    out.push(Tri { a: 1, b: 5, c: 9 });
    out.push(Tri { a: 5, b: 11, c: 4 });
    out.push(Tri { a: 11, b: 10, c: 2 });
    out.push(Tri { a: 10, b: 7, c: 6 });
    out.push(Tri { a: 7, b: 1, c: 8 });
    out.push(Tri { a: 3, b: 9, c: 4 });
    out.push(Tri { a: 3, b: 4, c: 2 });
    out.push(Tri { a: 3, b: 2, c: 6 });
    out.push(Tri { a: 3, b: 6, c: 8 });
    out.push(Tri { a: 3, b: 8, c: 9 });
    out.push(Tri { a: 4, b: 9, c: 5 });
    out.push(Tri { a: 2, b: 4, c: 11 });
    out.push(Tri { a: 6, b: 2, c: 10 });
    out.push(Tri { a: 8, b: 6, c: 7 });
    out.push(Tri { a: 9, b: 8, c: 1 });
    proof {
        assert(out@ =~= icosahedron_face_seq());
    }
    out
}

/// Both endpoint orders of an edge give the same cache key.
pub proof fn lemma_edge_key_unordered(v0: int, v1: int)
    ensures
        edge_key(v0, v1) == edge_key(v1, v0),
{
}

/// Distinct unordered edges get distinct cache keys, so welding one edge can
/// never reuse the midpoint of another.
pub proof fn lemma_edge_key_injective(a0: int, a1: int, b0: int, b1: int)
    requires
        0 <= a0 <= a1 < 0x1_0000_0000,
        0 <= b0 <= b1 < 0x1_0000_0000,
        edge_key(a0, a1) == edge_key(b0, b1),
    ensures
        a0 == b0 && a1 == b1,
{
    let m = 0x1_0000_0000int;
    assert(a0 * m + a1 == b0 * m + b1) by {
        assert(0 <= a0 * m + a1 < 0x1_0000_0000_0000_0000) by (nonlinear_arith)
            requires
                0 <= a0 < m && 0 <= a1 < m && m == 0x1_0000_0000,
        ;
        assert(0 <= b0 * m + b1 < 0x1_0000_0000_0000_0000) by (nonlinear_arith)
            requires
                0 <= b0 < m && 0 <= b1 < m && m == 0x1_0000_0000,
        ;
    }
    assert(a0 == b0 && a1 == b1) by (nonlinear_arith)
        requires
            a0 * m + a1 == b0 * m + b1,
            0 <= a1 < m,
            0 <= b1 < m,
    ;
}


/// The unit-sphere invariant at mesh level: every vertex of a well-formed
/// mesh has its squared norm within three millionths of one unit.
pub proof fn lemma_mesh_on_unit_sphere(m: Icosphere, i: int)
    requires
        m.wf(),
        0 <= i < m.vertices@.len(),
    ensures
        (FP_ONE as int - 3) * (FP_ONE as int - 3) < norm_sq(m.vertices@[i]),
        norm_sq(m.vertices@[i]) < (FP_ONE as int + 3) * (FP_ONE as int + 3),
{
    lemma_near_unit_norm_bounds(m.vertices@[i]);
}

fn edge_key_val(v0: usize, v1: usize) -> (k: u64)
    requires
        v0 < 0x1_0000_0000,
        v1 < 0x1_0000_0000,
    ensures
        k == edge_key(v0 as int, v1 as int),
{
    if v0 <= v1 {
        (v0 as u64) * 0x1_0000_0000 + (v1 as u64)
    } else {
        (v1 as u64) * 0x1_0000_0000 + (v0 as u64)
    }
}

/// Looks up or creates the welded midpoint vertex of the edge `(v0, v1)`:
/// the first request for an edge appends the projected midpoint and records
/// it under the unordered edge key; every later request for the same edge,
/// in either endpoint order, returns the recorded index and adds nothing.
fn get_midpoint(
    v0: usize,
    v1: usize,
    vertices: &mut Vec<Vec3>,
    midpoints: &mut HashMap<u64, usize>,
) -> (idx: usize)
    requires
        v0 < old(vertices)@.len(),
        v1 < old(vertices)@.len(),
        old(vertices)@.len() < VERT_CAP,
        forall|i: int| 0 <= i < old(vertices)@.len() ==> near_unit(#[trigger] old(vertices)@[i]),
        cache_ok(old(midpoints)@, old(vertices)@.len() as int),
    ensures
        idx < final(vertices)@.len(),
        old(vertices)@.len() <= final(vertices)@.len() <= old(vertices)@.len() + 1,
        forall|j: int| 0 <= j < old(vertices)@.len() ==> final(vertices)@[j] == old(vertices)@[j],
        forall|i: int| 0 <= i < final(vertices)@.len() ==> near_unit(#[trigger] final(vertices)@[i]),
        cache_ok(final(midpoints)@, final(vertices)@.len() as int),
        ({
            let k = edge_key(v0 as int, v1 as int);
            if old(midpoints)@.contains_key(k) {
                &&& idx == old(midpoints)@[k]
                &&& final(vertices)@ == old(vertices)@
                &&& final(midpoints)@ == old(midpoints)@
            } else {
                &&& idx == old(vertices)@.len()
                &&& final(vertices)@ == old(vertices)@.push(
                    weld_point(old(vertices)@[v0 as int], old(vertices)@[v1 as int]),
                )
                &&& final(midpoints)@ == old(midpoints)@.insert(k, idx)
            }
        }),
{
    let key = edge_key_val(v0, v1);
    match midpoints.get(&key) {
        Some(i) => *i,
        None => {
            let va = vertices[v0];
            let vb = vertices[v1];
            let mid = midpoint(&va, &vb);
            let welded = normalize(&mid);
            let index = vertices.len();
            vertices.push(welded);
            midpoints.insert(key, index);
            index
        },
    }
}

/// One subdivision round: replaces every face with four, welding the three
/// edge midpoints through a cache keyed by unordered edge.
fn subdivide_round(vertices: &mut Vec<Vec3>, faces: &Vec<Tri>) -> (out: Vec<Tri>)
    requires
        forall|i: int|
            0 <= i < faces@.len() ==> face_in_bounds(
                #[trigger] faces@[i],
                old(vertices)@.len() as int,
            ),
        forall|i: int| 0 <= i < old(vertices)@.len() ==> near_unit(#[trigger] old(vertices)@[i]),
        old(vertices)@.len() + 3 * faces@.len() <= VERT_CAP,
    ensures
        out@.len() == 4 * faces@.len(),
        final(vertices)@ == round_upto(
            WeldState { verts: old(vertices)@, cache: Map::empty() },
            faces@,
            faces@.len() as int,
        ).verts,
        out@ == round_faces_upto(
            WeldState { verts: old(vertices)@, cache: Map::empty() },
            faces@,
            faces@.len() as int,
        ),
        old(vertices)@.len() <= final(vertices)@.len() <= old(vertices)@.len() + 3 * faces@.len(),
        forall|j: int| 0 <= j < old(vertices)@.len() ==> final(vertices)@[j] == old(vertices)@[j],
        forall|i: int|
            0 <= i < final(vertices)@.len() ==> near_unit(#[trigger] final(vertices)@[i]),
        forall|i: int|
            0 <= i < out@.len() ==> face_in_bounds(#[trigger] out@[i], final(vertices)@.len() as int),
{
    let ghost orig = vertices@;
    let ghost st0 = WeldState { verts: orig, cache: Map::empty() };
    let mut midpoints: HashMap<u64, usize> = HashMap::new();
    let mut out: Vec<Tri> = Vec::new();
    let n = faces.len();
    let mut i: usize = 0;
    while i < n
        invariant
            i <= n,
            n == faces@.len(),
            out@.len() == 4 * i,
            st0 == (WeldState { verts: orig, cache: Map::empty() }),
            vertices@ == round_upto(st0, faces@, i as int).verts,
            midpoints@ == round_upto(st0, faces@, i as int).cache,
            out@ == round_faces_upto(st0, faces@, i as int),
            orig.len() <= vertices@.len() <= orig.len() + 3 * i,
            orig.len() + 3 * n <= VERT_CAP,
            forall|j: int| 0 <= j < orig.len() ==> vertices@[j] == orig[j],
            forall|k: int| 0 <= k < n ==> face_in_bounds(#[trigger] faces@[k], orig.len() as int),
            forall|j: int| 0 <= j < vertices@.len() ==> near_unit(#[trigger] vertices@[j]),
            cache_ok(midpoints@, vertices@.len() as int),
            forall|k: int|
                0 <= k < out@.len() ==> face_in_bounds(#[trigger] out@[k], vertices@.len() as int),
        decreases n - i,
    {
        let f = faces[i];
        let ghost sti = round_upto(st0, faces@, i as int);
        let ghost outp = out@;
        let ma = get_midpoint(f.a, f.b, vertices, &mut midpoints);
        proof {
            assert(vertices@ == weld_one(sti, f.a as int, f.b as int).verts);
            assert(midpoints@ == weld_one(sti, f.a as int, f.b as int).cache);
            assert(ma == weld_one_idx(sti, f.a as int, f.b as int));
        }
        let ghost st1 = weld_one(sti, f.a as int, f.b as int);
        let mb = get_midpoint(f.b, f.c, vertices, &mut midpoints);
        proof {
            assert(vertices@ == weld_one(st1, f.b as int, f.c as int).verts);
            assert(midpoints@ == weld_one(st1, f.b as int, f.c as int).cache);
            assert(mb == weld_one_idx(st1, f.b as int, f.c as int));
        }
        let ghost st2 = weld_one(st1, f.b as int, f.c as int);
        let mc = get_midpoint(f.c, f.a, vertices, &mut midpoints);
        proof {
            assert(vertices@ == weld_one(st2, f.c as int, f.a as int).verts);
            assert(midpoints@ == weld_one(st2, f.c as int, f.a as int).cache);
            assert(mc == weld_one_idx(st2, f.c as int, f.a as int));
        }
        out.push(Tri { a: f.a, b: ma, c: mc });
        out.push(Tri { a: f.b, b: mb, c: ma });
        out.push(Tri { a: f.c, b: mc, c: mb });
        out.push(Tri { a: ma, b: mb, c: mc });
        proof {
            assert(round_upto(st0, faces@, i + 1) == face_state(sti, faces@[i as int]));
            assert(out@ =~= outp + face_children(sti, faces@[i as int]));
            assert(round_faces_upto(st0, faces@, i + 1) == round_faces_upto(st0, faces@, i as int)
                + face_children(sti, faces@[i as int]));
        }
        i = i + 1;
    }
    out
}

} // verus!
