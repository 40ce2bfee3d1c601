//! Triangulated surface meshes: the raw input mesh, and the processed mesh
//! that adds the per-vertex adjacency and the dual (Voronoi-like) area.

use vstd::prelude::*;

use crate::fp::F_HALF;
use crate::fp::F_ONE;
use crate::fp::F_TWO;
use crate::fp::V3;
use crate::fp::fmul;
use crate::fp::fmul_e;
use crate::fp::v3_zero;
use crate::fp::vadd;
use crate::fp::vadd_w;
use crate::fp::vcross;
use crate::fp::vcross_w;
use crate::fp::vdivs;
use crate::fp::vdivs_w;
use crate::fp::vdot;
use crate::fp::vdot_w;
use crate::fp::vlength;
use crate::fp::vlength_w;
use crate::fp::vscale;
use crate::fp::vscale_w;
use crate::fp::vsub;
use crate::fp::vsub_w;

verus! {

/// A triangle, as a triple of vertex indices in winding order.
#[derive(Clone, Copy, Debug, PartialEq, Eq, Structural)]
pub struct Tri {
    pub a: usize,
    pub b: usize,
    pub c: usize,
}

/// A raw mesh as handed over by the loader: positions, unit normals and
/// triangles.
#[derive(Clone, Debug)]
pub struct InputMesh {
    pub vertices: Vec<V3>,
    pub normals: Vec<V3>,
    pub tris: Vec<Tri>,
}

/// A mesh ready for coarsening and relaxation: the raw arrays plus the
/// derived per-vertex adjacency and dual area.  Each adjacency entry for
/// vertex `v` is a pair (neighbor, triangle index): the outgoing directed
/// edge of `v` within that triangle.
pub struct ProcessMesh {
    pub vertices: Vec<V3>,
    pub normals: Vec<V3>,
    pub tris: Vec<Tri>,
    pub adjacency_face: Vec<Vec<(usize, usize)>>,
    pub dual_area: Vec<u32>,
}

/// Every triangle's corners are valid vertex indices.
pub open spec fn tris_valid(tris: Seq<Tri>, n: nat) -> bool {
    forall|k: int|
        0 <= k < tris.len() ==> (#[trigger] tris[k]).a < n && tris[k].b < n && tris[k].c < n
}

impl InputMesh {
    /// The arrays agree in length and every triangle index is in range.
    pub open spec fn wf(self) -> bool {
        &&& self.normals@.len() == self.vertices@.len()
        &&& tris_valid(self.tris@, self.vertices@.len())
    }

    /// Checks the invariant that the rest of the pipeline requires:
    /// matching array lengths and triangle indices in range.
    pub fn check_wf(&self) -> (r: bool)
        ensures
            r == self.wf(),
    {
        if self.normals.len() != self.vertices.len() {
            return false;
        }
        let n = self.vertices.len();
        let mut k: usize = 0;
        while k < self.tris.len()
            invariant
                k <= self.tris@.len(),
                forall|i: int|
                    0 <= i < k ==> (#[trigger] self.tris@[i]).a < n && self.tris@[i].b < n
                        && self.tris@[i].c < n,
                n == self.vertices@.len(),
            decreases self.tris@.len() - k,
        {
            let t = self.tris[k];
            if t.a >= n || t.b >= n || t.c >= n {
                return false;
            }
            k += 1;
        }
        true
    }
}

/// The view of a vector of adjacency lists as a sequence of sequences.
pub open spec fn adj_view(a: Seq<Vec<(usize, usize)>>) -> Seq<Seq<(usize, usize)>> {
    Seq::new(a.len(), |i: int| a[i]@)
}

/// One list of `n` empty adjacency lists.
pub open spec fn empty_adj(n: nat) -> Seq<Seq<(usize, usize)>> {
    Seq::new(n, |i: int| Seq::<(usize, usize)>::empty())
}

/// Appends entry `e` to vertex `v`'s list.
pub open spec fn push_at(
    adj: Seq<Seq<(usize, usize)>>,
    v: int,
    e: (usize, usize),
) -> Seq<Seq<(usize, usize)>> {
    adj.update(v, adj[v].push(e))
}

/// The three directed edges that triangle `t` (at index `ti`) contributes:
/// each corner records the corner that follows it in winding order.
pub open spec fn adjacency_step(
    adj: Seq<Seq<(usize, usize)>>,
    t: Tri,
    ti: usize,
) -> Seq<Seq<(usize, usize)>> {
    push_at(
        push_at(push_at(adj, t.a as int, (t.b, ti)), t.b as int, (t.c, ti)),
        t.c as int,
        (t.a, ti),
    )
}

/// The adjacency after the first `k` triangles.
pub open spec fn adjacency_upto(tris: Seq<Tri>, n: nat, k: int) -> Seq<Seq<(usize, usize)>>
    decreases k,
{
    if k <= 0 {
        empty_adj(n)
    } else {
        adjacency_step(adjacency_upto(tris, n, k - 1), tris[k - 1], (k - 1) as usize)
    }
}

/// The per-vertex adjacency derived from the triangle list.
pub open spec fn adjacency_of(tris: Seq<Tri>, n: nat) -> Seq<Seq<(usize, usize)>> {
    adjacency_upto(tris, n, tris.len() as int)
}

/// Every adjacency list derived from the first `k` triangles names only
/// valid vertices and valid triangles.
pub proof fn lemma_adjacency_upto_valid(tris: Seq<Tri>, n: nat, k: int)
    requires
        tris_valid(tris, n),
        0 <= k <= tris.len(),
    ensures
        adjacency_upto(tris, n, k).len() == n,
        forall|i: int, j: int|
            0 <= i < n && 0 <= j < adjacency_upto(tris, n, k)[i].len() ==> {
                let e = #[trigger] adjacency_upto(tris, n, k)[i][j];
                e.0 < n && e.1 < k
            },
    decreases k,
{
    if k > 0 {
        lemma_adjacency_upto_valid(tris, n, k - 1);
    }
}

/// The circumcenter of the triangle with corners `v0`, `v1`, `v2`, in
/// coordinates relative to `v2`, by the determinant-free formula over the
/// two edge vectors out of `v2`.
pub open spec fn circumcenter(v0: V3, v1: V3, v2: V3) -> V3 {
    let a = vsub(v0, v2);
    let b = vsub(v1, v2);
    let axb = vcross(a, b);
    vdivs(
        vcross(vsub(vscale(vdot(a, a), b), vscale(vdot(b, b), a)), axb),
        fmul(F_TWO, vdot(axb, axb)),
    )
}

pub fn circumcenter_e(v0: V3, v1: V3, v2: V3) -> (r: V3)
    ensures
        r == circumcenter(v0, v1, v2),
{
    let a = vsub_w(v0, v2);
    let b = vsub_w(v1, v2);
    let axb = vcross_w(a, b);
    let num = vcross_w(vsub_w(vscale_w(vdot_w(a, a), b), vscale_w(vdot_w(b, b), a)), axb);
    let den = fmul_e(F_TWO, vdot_w(axb, axb));
    vdivs_w(num, den)
}

/// The index that follows `i` cyclically in a ring of `n` entries.
pub open spec fn ring_next(i: int, n: int) -> int {
    if i + 1 == n {
        0
    } else {
        i + 1
    }
}

/// The running shoelace sum over the first `k` consecutive circumcenter
/// pairs of the ring.
pub open spec fn shoelace_upto(cc: Seq<V3>, k: int) -> V3
    decreases k,
{
    if k <= 0 {
        v3_zero()
    } else {
        vadd(shoelace_upto(cc, k - 1), vcross(cc[k - 1], cc[ring_next(k - 1, cc.len() as int)]))
    }
}

/// Half the length of the shoelace sum over the ring of circumcenters.
pub open spec fn ring_area(cc: Seq<V3>) -> u32 {
    fmul(F_HALF, vlength(shoelace_upto(cc, cc.len() as int)))
}

pub fn ring_area_e(ccs: &Vec<V3>) -> (r: u32)
    ensures
        r == ring_area(ccs@),
{
    let mut acc = crate::fp::v3_zero_e();
    let n = ccs.len();
    let mut i: usize = 0;
    while i < n
        invariant
            i <= n,
            n == ccs@.len(),
            acc == shoelace_upto(ccs@, i as int),
        decreases n - i,
    {
        let j = if i + 1 == n {
            0
        } else {
            i + 1
        };
        let cr = vcross_w(ccs[i], ccs[j]);
        acc = vadd_w(acc, cr);
        i += 1;
    }
    let len = vlength_w(acc);
    fmul_e(F_HALF, len)
}

/// The vertex that follows `dest` in the cyclic order of triangle `t`,
/// taking the first corner that equals `dest` (as a position search does).
pub open spec fn tri_next(t: Tri, dest: usize) -> usize {
    if t.a == dest {
        t.b
    } else if t.b == dest {
        t.c
    } else {
        t.a
    }
}

pub fn tri_next_e(t: &Tri, dest: usize) -> (r: usize)
    ensures
        r == tri_next(*t, dest),
{
    if t.a == dest {
        t.b
    } else if t.b == dest {
        t.c
    } else {
        t.a
    }
}

/// The first adjacency entry whose neighbor is `dest`.
pub open spec fn find_entry(adj_i: Seq<(usize, usize)>, dest: usize) -> Option<(usize, usize)>
    decreases adj_i.len(),
{
    if adj_i.len() == 0 {
        None
    } else if adj_i[0].0 == dest {
        Some(adj_i[0])
    } else {
        find_entry(adj_i.drop_first(), dest)
    }
}

pub fn find_entry_e(adj_i: &Vec<(usize, usize)>, dest: usize) -> (r: Option<(usize, usize)>)
    ensures
        r == find_entry(adj_i@, dest),
{
    let mut j: usize = 0;
    assert(adj_i@.skip(0) =~= adj_i@);
    while j < adj_i.len()
        invariant
            j <= adj_i@.len(),
            find_entry(adj_i@, dest) == find_entry(adj_i@.skip(j as int), dest),
        decreases adj_i@.len() - j,
    {
        let e = adj_i[j];
        assert(adj_i@.skip(j as int)[0] == e);
        if e.0 == dest {
            return Some(e);
        }
        assert(adj_i@.skip(j as int).drop_first() =~= adj_i@.skip(j as int + 1));
        j += 1;
    }
    assert(adj_i@.skip(j as int).len() == 0);
    None
}

/// A found entry is one of the list's entries.
pub proof fn lemma_find_entry_in(adj_i: Seq<(usize, usize)>, dest: usize)
    ensures
        match find_entry(adj_i, dest) {
            Some(e) => exists|q: int| 0 <= q < adj_i.len() && adj_i[q] == e,
            None => true,
        },
    decreases adj_i.len(),
{
    if adj_i.len() > 0 && adj_i[0].0 != dest {
        lemma_find_entry_in(adj_i.drop_first(), dest);
        match find_entry(adj_i.drop_first(), dest) {
            Some(e) => {
                let q = choose|q: int|
                    0 <= q < adj_i.drop_first().len() && adj_i.drop_first()[q] == e;
                assert(adj_i[q + 1] == e);
            },
            None => {},
        }
    }
}

/// The one-ring walk around a vertex, starting in triangle `tri` with
/// current destination `dest0`: advance the destination within the current
/// triangle; if it has come back to the first destination the ring is
/// closed and the collected circumcenters are returned; otherwise record
/// the current triangle's circumcenter and move to the first triangle that
/// leaves through the new destination.  `None` is the non-manifold case:
/// no such triangle, or no closure within the fuel bound.
pub open spec fn walk(
    tris: Seq<Tri>,
    verts: Seq<V3>,
    adj_i: Seq<(usize, usize)>,
    first_dest: usize,
    tri: Tri,
    dest0: usize,
    fuel: nat,
) -> Option<Seq<V3>>
    decreases fuel,
{
    let dest = tri_next(tri, dest0);
    if dest == first_dest {
        Some(Seq::empty())
    } else if fuel == 0 {
        None
    } else {
        let cc = circumcenter(verts[tri.a as int], verts[tri.b as int], verts[tri.c as int]);
        match find_entry(adj_i, dest) {
            None => None,
            Some(e) => match walk(
                tris,
                verts,
                adj_i,
                first_dest,
                tris[e.1 as int],
                dest,
                (fuel - 1) as nat,
            ) {
                None => None,
                Some(rest) => Some(seq![cc] + rest),
            },
        }
    }
}

/// The dual area of a vertex with adjacency list `adj_i`: the ring area
/// of its circumcenters when the one-ring closes, and the fallback 1.0
/// when the vertex is isolated or its ring does not close.
pub open spec fn dual_area_of(tris: Seq<Tri>, verts: Seq<V3>, adj_i: Seq<(usize, usize)>) -> u32 {
    if adj_i.len() == 0 {
        F_ONE
    } else {
        let first = adj_i[0];
        match walk(
            tris,
            verts,
            adj_i,
            first.0,
            tris[first.1 as int],
            first.0,
            adj_i.len(),
        ) {
            Some(ccs) => ring_area(ccs),
            None => F_ONE,
        }
    }
}

/// The dual area of one vertex, by walking its one-ring.  A walk that
/// cannot close (a non-manifold or isolated vertex) gets the fallback
/// area 1.0 rather than failing the whole mesh.
pub fn vertex_dual_area(tris: &Vec<Tri>, verts: &Vec<V3>, adj_i: &Vec<(usize, usize)>) -> (r: u32)
    requires
        tris_valid(tris@, verts@.len()),
        forall|q: int|
            0 <= q < adj_i@.len() ==> (#[trigger] adj_i@[q]).0 < verts@.len() && adj_i@[q].1
                < tris@.len(),
    ensures
        r == dual_area_of(tris@, verts@, adj_i@),
{
    if adj_i.len() == 0 {
        return F_ONE;
    }
    let first = adj_i[0];
    let first_dest = first.0;
    let mut tri = tris[first.1];
    let mut dest = first_dest;
    // A one-ring has at most one triangle per adjacency entry, and a
    // closed fan of k triangles finds its way back after k - 1 moves, so
    // a walk that is still open after that many moves cannot be a closed
    // fan and is treated as non-manifold.
    let mut fuel: usize = adj_i.len();
    let mut ccs: Vec<V3> = Vec::new();
    let mut closed = false;
    let ghost t0 = tris@[first.1 as int];
    let ghost full_fuel = adj_i@.len() as nat;
    loop
        invariant_except_break
            tris_valid(tris@, verts@.len()),
            forall|q: int|
                0 <= q < adj_i@.len() ==> (#[trigger] adj_i@[q]).0 < verts@.len() && adj_i@[q].1
                    < tris@.len(),
            tri.a < verts@.len() && tri.b < verts@.len() && tri.c < verts@.len(),
            adj_i@.len() > 0,
            first == adj_i@[0],
            first_dest == first.0,
            t0 == tris@[first.1 as int],
            !closed,
            walk(tris@, verts@, adj_i@, first_dest, t0, first.0, full_fuel) == match walk(
                tris@,
                verts@,
                adj_i@,
                first_dest,
                tri,
                dest,
                fuel as nat,
            ) {
                None => None::<Seq<V3>>,
                Some(rest) => Some(ccs@ + rest),
            },
        ensures
            match walk(tris@, verts@, adj_i@, first_dest, t0, first.0, full_fuel) {
                Some(ring) => closed && ring == ccs@,
                None => !closed,
            },
        decreases fuel,
    {
        let ghost tri_in = tri;
        let ghost dest_in = dest;
        let ghost fuel_in = fuel as nat;
        let ghost ccs_in = ccs@;
        dest = tri_next_e(&tri, dest);
        if dest == first_dest {
            closed = true;
            proof {
                assert(walk(tris@, verts@, adj_i@, first_dest, tri_in, dest_in, fuel_in)
                    == Some(Seq::<V3>::empty()));
                assert(ccs@ + Seq::<V3>::empty() =~= ccs@);
            }
            break;
        }
        if fuel == 0 {
            proof {
                assert(walk(tris@, verts@, adj_i@, first_dest, tri_in, dest_in, fuel_in)
                    is None);
            }
            break;
        }
        fuel -= 1;
        let cc = circumcenter_e(verts[tri.a], verts[tri.b], verts[tri.c]);
        ccs.push(cc);
        let found = find_entry_e(adj_i, dest);
        match found {
            None => {
                proof {
                    assert(walk(tris@, verts@, adj_i@, first_dest, tri_in, dest_in, fuel_in)
                        is None);
                }
                break;
            },
            Some(e) => {
                proof {
                    lemma_find_entry_in(adj_i@, dest);
                    assert(e.1 < tris@.len());
                }
                tri = tris[e.1];
                proof {
                    let w_new = walk(tris@, verts@, adj_i@, first_dest, tri, dest, fuel as nat);
                    let w_in = walk(tris@, verts@, adj_i@, first_dest, tri_in, dest_in, fuel_in);
                    match w_new {
                        None => {
                            assert(w_in is None);
                        },
                        Some(rest) => {
                            assert(w_in == Some(seq![cc] + rest));
                            assert(ccs_in + (seq![cc] + rest) =~= ccs@ + rest);
                        },
                    }
                }
            },
        }
    }
    if closed {
        ring_area_e(&ccs)
    } else {
        F_ONE
    }
}

/// Derives the adjacency lists: triangle (a, b, c) contributes (b, tri)
/// to a's list, (c, tri) to b's list and (a, tri) to c's list.
pub fn build_adjacency(tris: &Vec<Tri>, n: usize) -> (adj: Vec<Vec<(usize, usize)>>)
    requires
        tris_valid(tris@, n as nat),
    ensures
        adj@.len() == n,
        adj_view(adj@) == adjacency_of(tris@, n as nat),
{
    let mut adj: Vec<Vec<(usize, usize)>> = Vec::new();
    let mut i: usize = 0;
    while i < n
        invariant
            i <= n,
            adj@.len() == i,
            forall|k: int| 0 <= k < i ==> (#[trigger] adj@[k])@.len() == 0,
        decreases n - i,
    {
        adj.push(Vec::new());
        i += 1;
    }
    assert(adj_view(adj@) =~~= empty_adj(n as nat));
    let mut t: usize = 0;
    while t < tris.len()
        invariant
            t <= tris@.len(),
            tris_valid(tris@, n as nat),
            adj@.len() == n,
            adj_view(adj@) == adjacency_upto(tris@, n as nat, t as int),
        decreases tris@.len() - t,
    {
        let ghost before = adj_view(adj@);
        let tri = tris[t];
        adj[tri.a].push((tri.b, t));
        assert(adj_view(adj@) =~= push_at(before, tri.a as int, (tri.b, t)));
        let ghost mid1 = adj_view(adj@);
        adj[tri.b].push((tri.c, t));
        assert(adj_view(adj@) =~= push_at(mid1, tri.b as int, (tri.c, t)));
        let ghost mid2 = adj_view(adj@);
        adj[tri.c].push((tri.a, t));
        assert(adj_view(adj@) =~= push_at(mid2, tri.c as int, (tri.a, t)));
        t += 1;
    }
    adj
}

impl ProcessMesh {
    pub open spec fn adj(self) -> Seq<Seq<(usize, usize)>> {
        adj_view(self.adjacency_face@)
    }

    pub open spec fn vcount(self) -> nat {
        self.vertices@.len()
    }

    /// The arrays agree in length and every adjacency entry names a valid
    /// vertex.  (Triangle indices inside adjacency entries are only
    /// meaningful on the finest level and carry no invariant here.)
    pub open spec fn wf(self) -> bool {
        &&& self.normals@.len() == self.vcount()
        &&& self.dual_area@.len() == self.vcount()
        &&& self.adjacency_face@.len() == self.vcount()
        &&& forall|i: int, j: int|
            0 <= i < self.adj().len() && 0 <= j < self.adj()[i].len()
                ==> (#[trigger] self.adj()[i][j]).0 < self.vcount()
    }

    /// Derives the adjacency and the dual area of every vertex: the
    /// adjacency is exactly the directed winding edges of the triangles,
    /// and each dual area is the ring area of the vertex's one-ring
    /// circumcenters, with the fallback for rings that do not close.
    pub fn from(input: InputMesh) -> (r: ProcessMesh)
        requires
            input.wf(),
        ensures
            r.vertices@ == input.vertices@,
            r.normals@ == input.normals@,
            r.tris@ == input.tris@,
            r.adj() == adjacency_of(input.tris@, input.vertices@.len()),
            r.dual_area@.len() == input.vertices@.len(),
            forall|i: int|
                0 <= i < input.vertices@.len() ==> r.dual_area@[i] == dual_area_of(
                    input.tris@,
                    input.vertices@,
                    adjacency_of(input.tris@, input.vertices@.len())[i],
                ),
            r.wf(),
    {
        let n = input.vertices.len();
        let adjacency_face = build_adjacency(&input.tris, n);
        proof {
            lemma_adjacency_upto_valid(input.tris@, n as nat, input.tris@.len() as int);
        }
        let ghost adjv = adjacency_of(input.tris@, n as nat);
        let mut dual_area: Vec<u32> = Vec::new();
        let mut i: usize = 0;
        while i < n
            invariant
                i <= n,
                n == input.vertices@.len(),
                input.wf(),
                adj_view(adjacency_face@) == adjv,
                adjv == adjacency_of(input.tris@, n as nat),
                adjacency_face@.len() == n,
                forall|p: int, q: int|
                    0 <= p < n && 0 <= q < adjv[p].len() ==> {
                        let e = #[trigger] adjv[p][q];
                        e.0 < n && e.1 < input.tris@.len()
                    },
                dual_area@.len() == i,
                forall|k: int|
                    0 <= k < i ==> dual_area@[k] == dual_area_of(
                        input.tris@,
                        input.vertices@,
                        adjv[k],
                    ),
            decreases n - i,
        {
            assert(adjv[i as int] == adjacency_face@[i as int]@);
            let area = vertex_dual_area(&input.tris, &input.vertices, &adjacency_face[i]);
            dual_area.push(area);
            i += 1;
        }
        ProcessMesh {
            vertices: input.vertices,
            normals: input.normals,
            tris: input.tris,
            adjacency_face,
            dual_area,
        }
    }
}

} // verus!
