//! The multigrid hierarchy: greedy weighted coarsening of a processed
//! mesh into an ordered list of levels, coarsest first.

use vstd::prelude::*;

use crate::fp::V3;
use crate::fp::fadd;
use crate::fp::fadd_e;
use crate::fp::fdiv;
use crate::fp::fdiv_e;
use crate::fp::flt;
use crate::fp::flt_w;
use crate::fp::fmul;
use crate::fp::fmul_e;
use crate::fp::sort_key;
use crate::fp::sort_key_e;
use crate::fp::vadd;
use crate::fp::vadd_w;
use crate::fp::vdivs;
use crate::fp::vdivs_w;
use crate::fp::vdot;
use crate::fp::vdot_w;
use crate::fp::vnormalize;
use crate::fp::vnormalize_w;
use crate::fp::vscale;
use crate::fp::vscale_w;
use crate::mesh::ProcessMesh;
use crate::mesh::adj_view;
use crate::mesh::empty_adj;
use crate::mesh::push_at;

verus! {

/// One level of the hierarchy: its mesh, and for every vertex of this
/// mesh the index of the coarse vertex of the next coarser level that it
/// was merged into.  The coarsest (first) level has an empty mapping.
pub struct HierarchyLevel {
    pub mesh: ProcessMesh,
    pub up_mapping: Vec<usize>,
}

/// The mathematical content of a processed mesh that the coarsening
/// reads: positions, normals, dual areas and adjacency.
pub ghost struct MeshModel {
    pub verts: Seq<V3>,
    pub norms: Seq<V3>,
    pub areas: Seq<u32>,
    pub adj: Seq<Seq<(usize, usize)>>,
}

impl MeshModel {
    pub open spec fn n(self) -> nat {
        self.verts.len()
    }

    pub open spec fn wf(self) -> bool {
        &&& self.norms.len() == self.n()
        &&& self.areas.len() == self.n()
        &&& self.adj.len() == self.n()
        &&& forall|i: int, j: int|
            0 <= i < self.adj.len() && 0 <= j < self.adj[i].len()
                ==> (#[trigger] self.adj[i][j]).0 < self.n()
    }
}

impl ProcessMesh {
    pub open spec fn model(self) -> MeshModel {
        MeshModel { verts: self.vertices@, norms: self.normals@, areas: self.dual_area@, adj: self.adj() }
    }
}

/// A directed adjacency edge with its merge score.
pub type RankEdge = (usize, usize, u32);

/// The sentinel that marks a vertex not yet claimed by a merge.
pub const UNCLAIMED: usize = usize::MAX;

/// The merge score of the directed edge from a vertex with dual area
/// `ai` and normal `ni` to one with `aj` and `nj`: the ratio of the
/// larger to the smaller area, times the dot product of the normals.
pub open spec fn rank_of(ai: u32, aj: u32, ni: V3, nj: V3) -> u32 {
    let ratio = if flt(aj, ai) {
        fdiv(ai, aj)
    } else {
        fdiv(aj, ai)
    };
    fmul(vdot(ni, nj), ratio)
}

/// The scored edges out of vertex `i`, in adjacency order.
pub open spec fn ranking_row(m: MeshModel, i: int) -> Seq<RankEdge> {
    m.adj[i].map(
        |q: int, e: (usize, usize)|
            (i as usize, e.0, rank_of(m.areas[i], m.areas[e.0 as int], m.norms[i], m.norms[e.0 as int])),
    )
}

/// The scored edges of the first `k` vertices, concatenated.
pub open spec fn ranking_upto(m: MeshModel, k: int) -> Seq<RankEdge>
    decreases k,
{
    if k <= 0 {
        Seq::empty()
    } else {
        ranking_upto(m, k - 1) + ranking_row(m, k - 1)
    }
}

/// Every directed adjacency edge of the mesh with its merge score, in
/// vertex order and, per vertex, adjacency order.
pub open spec fn ranking_of(m: MeshModel) -> Seq<RankEdge> {
    ranking_upto(m, m.adj.len() as int)
}

/// Both endpoints of every scored edge of the first `k` rows are valid.
pub proof fn lemma_ranking_upto_valid(m: MeshModel, k: int)
    requires
        m.wf(),
        0 <= k <= m.adj.len(),
    ensures
        forall|p: int|
            0 <= p < ranking_upto(m, k).len() ==> (#[trigger] ranking_upto(m, k)[p]).0 < m.n()
                && ranking_upto(m, k)[p].1 < m.n(),
    decreases k,
{
    if k > 0 {
        lemma_ranking_upto_valid(m, k - 1);
        let prev = ranking_upto(m, k - 1);
        let row = ranking_row(m, k - 1);
        assert forall|p: int|
            0 <= p < ranking_upto(m, k).len() implies (#[trigger] ranking_upto(m, k)[p]).0 < m.n()
            && ranking_upto(m, k)[p].1 < m.n() by {
            if p >= prev.len() {
                assert(ranking_upto(m, k)[p] == row[p - prev.len()]);
                assert(row[p - prev.len()].1 == m.adj[k - 1][p - prev.len()].0);
            }
        }
    }
}

/// Computes the scored directed edges of the mesh, in order.
pub fn compute_ranking(mesh: &ProcessMesh) -> (rk: Vec<RankEdge>)
    requires
        mesh.wf(),
    ensures
        rk@ == ranking_of(mesh.model()),
{
    let ghost m = mesh.model();
    let n = mesh.vertices.len();
    let mut rk: Vec<RankEdge> = Vec::new();
    let mut i: usize = 0;
    while i < n
        invariant
            i <= n,
            mesh.wf(),
            m == mesh.model(),
            n == m.n(),
            rk@ == ranking_upto(m, i as int),
        decreases n - i,
    {
        let row = &mesh.adjacency_face[i];
        let mut q: usize = 0;
        while q < row.len()
            invariant
                q <= row@.len(),
                mesh.wf(),
                m == mesh.model(),
                n == m.n(),
                i < n,
                row@ == m.adj[i as int],
                rk@ == ranking_upto(m, i as int) + ranking_row(m, i as int).take(q as int),
            decreases row@.len() - q,
        {
            let e = row[q];
            let j = e.0;
            assert(j < n);
            let ai = mesh.dual_area[i];
            let aj = mesh.dual_area[j];
            let ratio = if flt_w(aj, ai) {
                fdiv_e(ai, aj)
            } else {
                fdiv_e(aj, ai)
            };
            let rank = fmul_e(vdot_w(mesh.normals[i], mesh.normals[j]), ratio);
            rk.push((i, j, rank));
            proof {
                assert(ranking_row(m, i as int)[q as int] == (i, j, rank));
                assert(ranking_row(m, i as int).take(q as int + 1) =~= ranking_row(
                    m,
                    i as int,
                ).take(q as int).push((i, j, rank)));
            }
            q += 1;
        }
        proof {
            assert(ranking_row(m, i as int).take(row@.len() as int) =~= ranking_row(m, i as int));
        }
        i += 1;
    }
    rk
}

/// The key by which edges are ordered: the total-order key of the score.
pub open spec fn rk_key(e: RankEdge) -> u32 {
    sort_key(e.2)
}

/// Descending by score: every later edge's key is at most every earlier
/// edge's key.
pub open spec fn sorted_desc(s: Seq<RankEdge>) -> bool {
    forall|p: int, q: int| 0 <= p < q < s.len() ==> rk_key(s[q]) <= rk_key(s[p])
}

/// The position at which a new edge with key `kx` is inserted: before
/// the first element with a strictly smaller key.
pub open spec fn find_ins_pos(s: Seq<RankEdge>, kx: u32) -> int
    decreases s.len(),
{
    if s.len() == 0 {
        0
    } else if rk_key(s[0]) < kx {
        0
    } else {
        1 + find_ins_pos(s.drop_first(), kx)
    }
}

/// Inserting one edge into a descending sequence.
pub open spec fn insert_desc(s: Seq<RankEdge>, x: RankEdge) -> Seq<RankEdge> {
    let p = find_ins_pos(s, rk_key(x));
    s.take(p) + seq![x] + s.skip(p)
}

/// The first `k` edges, insertion-sorted.
pub open spec fn sort_upto(s: Seq<RankEdge>, k: int) -> Seq<RankEdge>
    decreases k,
{
    if k <= 0 {
        Seq::empty()
    } else {
        insert_desc(sort_upto(s, k - 1), s[k - 1])
    }
}

/// The edges sorted by descending score.
pub open spec fn sort_ranking_spec(s: Seq<RankEdge>) -> Seq<RankEdge> {
    sort_upto(s, s.len() as int)
}

pub proof fn lemma_find_ins_pos_props(s: Seq<RankEdge>, kx: u32)
    ensures
        0 <= find_ins_pos(s, kx) <= s.len(),
        forall|i: int| 0 <= i < find_ins_pos(s, kx) ==> rk_key(s[i]) >= kx,
        find_ins_pos(s, kx) < s.len() ==> rk_key(s[find_ins_pos(s, kx)]) < kx,
    decreases s.len(),
{
    if s.len() > 0 && !(rk_key(s[0]) < kx) {
        lemma_find_ins_pos_props(s.drop_first(), kx);
        assert forall|i: int| 0 <= i < find_ins_pos(s, kx) implies rk_key(s[i]) >= kx by {
            if i > 0 {
                assert(s.drop_first()[i - 1] == s[i]);
            }
        }
        if find_ins_pos(s, kx) < s.len() {
            assert(s.drop_first()[find_ins_pos(s.drop_first(), kx)] == s[find_ins_pos(s, kx)]);
        }
    }
}

/// A position with the first-smaller-key property is the insertion
/// position.
pub proof fn lemma_find_ins_pos_char(s: Seq<RankEdge>, kx: u32, p: int)
    requires
        0 <= p <= s.len(),
        forall|i: int| 0 <= i < p ==> rk_key(#[trigger] s[i]) >= kx,
        p < s.len() ==> rk_key(s[p]) < kx,
    ensures
        p == find_ins_pos(s, kx),
    decreases s.len(),
{
    if s.len() == 0 {
    } else if rk_key(s[0]) < kx {
        if p > 0 {
            assert(rk_key(s[0]) >= kx);
        }
    } else {
        assert(p > 0);
        assert forall|i: int| 0 <= i < p - 1 implies rk_key(#[trigger] s.drop_first()[i]) >= kx by {
            assert(s.drop_first()[i] == s[i + 1]);
        }
        if p - 1 < s.drop_first().len() {
            assert(s.drop_first()[p - 1] == s[p]);
        }
        lemma_find_ins_pos_char(s.drop_first(), kx, p - 1);
    }
}

/// Insertion preserves descending order.
pub proof fn lemma_insert_desc_sorted(s: Seq<RankEdge>, x: RankEdge)
    requires
        sorted_desc(s),
    ensures
        sorted_desc(insert_desc(s, x)),
{
    let kx = rk_key(x);
    let p = find_ins_pos(s, kx);
    lemma_find_ins_pos_props(s, kx);
    let t = insert_desc(s, x);
    assert forall|a: int, b: int| 0 <= a < b < t.len() implies rk_key(t[b]) <= rk_key(t[a]) by {
        assert(t.len() == s.len() + 1);
        if a < p {
            assert(t[a] == s[a]);
        } else if a == p {
            assert(t[a] == x);
        } else {
            assert(t[a] == s[a - 1]);
        }
        if b < p {
            assert(t[b] == s[b]);
        } else if b == p {
            assert(t[b] == x);
        } else {
            assert(t[b] == s[b - 1]);
        }
        if b > p && a < p {
            assert(rk_key(s[b - 1]) < kx);
            assert(rk_key(s[a]) >= kx);
        } else if b > p && a == p {
            assert(rk_key(s[b - 1]) < kx);
        } else if b == p && a < p {
            assert(rk_key(s[a]) >= kx);
        }
    }
}

/// Everything in the insertion-sorted sequence is the new edge or one of
/// the old ones.
pub proof fn lemma_insert_desc_membership(s: Seq<RankEdge>, x: RankEdge)
    ensures
        forall|q: int|
            0 <= q < insert_desc(s, x).len() ==> (#[trigger] insert_desc(s, x)[q]) == x || exists|
                w: int,
            | 0 <= w < s.len() && s[w] == insert_desc(s, x)[q],
{
    let kx = rk_key(x);
    let p = find_ins_pos(s, kx);
    lemma_find_ins_pos_props(s, kx);
    let t = insert_desc(s, x);
    assert forall|q: int| 0 <= q < t.len() implies (#[trigger] t[q]) == x || exists|w: int|
        0 <= w < s.len() && s[w] == t[q] by {
        if q < p {
            assert(s[q] == t[q]);
        } else if q > p {
            assert(s[q - 1] == t[q]);
        }
    }
}

/// Everything in the sorted ranking is one of the original edges.
pub proof fn lemma_sort_upto_membership(s: Seq<RankEdge>, k: int)
    requires
        0 <= k <= s.len(),
    ensures
        forall|q: int|
            0 <= q < sort_upto(s, k).len() ==> exists|w: int|
                0 <= w < s.len() && s[w] == #[trigger] sort_upto(s, k)[q],
    decreases k,
{
    if k > 0 {
        lemma_sort_upto_membership(s, k - 1);
        lemma_insert_desc_membership(sort_upto(s, k - 1), s[k - 1]);
        assert forall|q: int| 0 <= q < sort_upto(s, k).len() implies exists|w: int|
            0 <= w < s.len() && s[w] == #[trigger] sort_upto(s, k)[q] by {
            let t = sort_upto(s, k);
            if t[q] == s[k - 1] {
                assert(0 <= k - 1 < s.len() && s[k - 1] == t[q]);
            } else {
                let w0 = choose|w0: int|
                    0 <= w0 < sort_upto(s, k - 1).len() && #[trigger] sort_upto(s, k - 1)[w0]
                        == t[q];
                assert(exists|w: int| 0 <= w < s.len() && s[w] == sort_upto(s, k - 1)[w0]);
            }
        }
    }
}

/// Sorting keeps the number of edges.
pub proof fn lemma_sort_upto_len(s: Seq<RankEdge>, k: int)
    requires
        0 <= k <= s.len(),
    ensures
        sort_upto(s, k).len() == k,
    decreases k,
{
    if k > 0 {
        lemma_sort_upto_len(s, k - 1);
        lemma_find_ins_pos_props(sort_upto(s, k - 1), rk_key(s[k - 1]));
    }
}

/// The sorted ranking is descending.
pub proof fn lemma_sort_upto_sorted(s: Seq<RankEdge>, k: int)
    requires
        0 <= k <= s.len(),
    ensures
        sorted_desc(sort_upto(s, k)),
    decreases k,
{
    if k > 0 {
        lemma_sort_upto_sorted(s, k - 1);
        lemma_insert_desc_sorted(sort_upto(s, k - 1), s[k - 1]);
    }
}

/// Sorts the scored edges by descending score.
pub fn sort_ranking(input: &Vec<RankEdge>) -> (out: Vec<RankEdge>)
    ensures
        out@ == sort_ranking_spec(input@),
        sorted_desc(out@),
        out@.len() == input@.len(),
{
    let mut out: Vec<RankEdge> = Vec::new();
    let mut k: usize = 0;
    while k < input.len()
        invariant
            k <= input@.len(),
            out@ == sort_upto(input@, k as int),
            out@.len() == k,
        decreases input@.len() - k,
    {
        let x = input[k];
        let kx = sort_key_e(x.2);
        let mut p: usize = 0;
        while p < out.len() && sort_key_e(out[p].2) >= kx
            invariant
                p <= out@.len(),
                kx == rk_key(x),
                forall|i: int| 0 <= i < p ==> rk_key(#[trigger] out@[i]) >= kx,
            decreases out@.len() - p,
        {
            p += 1;
        }
        proof {
            lemma_find_ins_pos_char(out@, kx, p as int);
        }
        let ghost before = out@;
        out.insert(p, x);
        proof {
            assert(out@ =~= before.take(p as int) + seq![x] + before.skip(p as int));
            assert(out@ =~= insert_desc(before, x));
        }
        k += 1;
    }
    proof {
        lemma_sort_upto_sorted(input@, input@.len() as int);
        lemma_sort_upto_len(input@, input@.len() as int);
    }
    out
}

/// The state of the greedy merge scan: the fine-to-coarse mapping built
/// so far (with `UNCLAIMED` for vertices not yet mapped) and the coarse
/// vertex data built so far.
pub ghost struct MergeState {
    pub up: Seq<usize>,
    pub verts: Seq<V3>,
    pub norms: Seq<V3>,
    pub areas: Seq<u32>,
}

/// The dual-area-weighted average of two merged positions.
pub open spec fn merged_position(vi: V3, vj: V3, ai: u32, aj: u32) -> V3 {
    vdivs(vadd(vscale(ai, vi), vscale(aj, vj)), fadd(ai, aj))
}

/// The dual-area-weighted average of two merged normals, renormalized.
pub open spec fn merged_normal(ni: V3, nj: V3, ai: u32, aj: u32) -> V3 {
    vnormalize(vadd(vscale(ai, ni), vscale(aj, nj)))
}

/// The scan's initial state: nothing claimed, nothing built.
pub open spec fn init_state(n: nat) -> MergeState {
    MergeState {
        up: Seq::new(n, |i: int| UNCLAIMED),
        verts: Seq::empty(),
        norms: Seq::empty(),
        areas: Seq::empty(),
    }
}

/// One step of the greedy scan: if both endpoints of the edge are still
/// unclaimed, they are merged into one new coarse vertex.
pub open spec fn merge_step(m: MeshModel, st: MergeState, e: RankEdge) -> MergeState {
    let i = e.0 as int;
    let j = e.1 as int;
    if st.up[i] != UNCLAIMED || st.up[j] != UNCLAIMED {
        st
    } else {
        let ai = m.areas[i];
        let aj = m.areas[j];
        let newidx = st.verts.len() as usize;
        MergeState {
            up: st.up.update(i, newidx).update(j, newidx),
            verts: st.verts.push(merged_position(m.verts[i], m.verts[j], ai, aj)),
            norms: st.norms.push(merged_normal(m.norms[i], m.norms[j], ai, aj)),
            areas: st.areas.push(fadd(ai, aj)),
        }
    }
}

/// The scan state after the first `k` scored edges.
pub open spec fn merge_upto(m: MeshModel, rk: Seq<RankEdge>, k: int) -> MergeState
    decreases k,
{
    if k <= 0 {
        init_state(m.n())
    } else {
        merge_step(m, merge_upto(m, rk, k - 1), rk[k - 1])
    }
}

/// One step of the singleton pass: a vertex no merge claimed becomes a
/// coarse vertex of its own, with its data unchanged.
pub open spec fn singleton_step(m: MeshModel, st: MergeState, i: int) -> MergeState {
    if st.up[i] == UNCLAIMED {
        MergeState {
            up: st.up.update(i, st.verts.len() as usize),
            verts: st.verts.push(m.verts[i]),
            norms: st.norms.push(m.norms[i]),
            areas: st.areas.push(m.areas[i]),
        }
    } else {
        st
    }
}

/// The state after the singleton pass over the first `k` vertices.
pub open spec fn singleton_upto(m: MeshModel, st0: MergeState, k: int) -> MergeState
    decreases k,
{
    if k <= 0 {
        st0
    } else {
        singleton_step(m, singleton_upto(m, st0, k - 1), k - 1)
    }
}

/// The complete result of the greedy scan and the singleton pass.
pub open spec fn coarse_state(m: MeshModel, rk: Seq<RankEdge>) -> MergeState {
    singleton_upto(m, merge_upto(m, rk, rk.len() as int), m.n() as int)
}

/// How many of the first `k` vertices are still unclaimed.
pub open spec fn unclaimed_upto(up: Seq<usize>, k: int) -> int
    decreases k,
{
    if k <= 0 {
        0
    } else {
        unclaimed_upto(up, k - 1) + if up[k - 1] == UNCLAIMED {
            1int
        } else {
            0
        }
    }
}

/// How many vertices are still unclaimed.
pub open spec fn unclaimed_count(up: Seq<usize>) -> int {
    unclaimed_upto(up, up.len() as int)
}

pub proof fn lemma_unclaimed_upto_update(up: Seq<usize>, i: int, v: usize, k: int)
    requires
        0 <= i < up.len(),
        v != UNCLAIMED,
        0 <= k <= up.len(),
    ensures
        unclaimed_upto(up.update(i, v), k) == unclaimed_upto(up, k) - if i < k && up[i]
            == UNCLAIMED {
            1int
        } else {
            0
        },
    decreases k,
{
    if k > 0 {
        lemma_unclaimed_upto_update(up, i, v, k - 1);
    }
}

pub proof fn lemma_unclaimed_nonneg(up: Seq<usize>, k: int)
    requires
        0 <= k <= up.len(),
    ensures
        0 <= unclaimed_upto(up, k) <= k,
    decreases k,
{
    if k > 0 {
        lemma_unclaimed_nonneg(up, k - 1);
    }
}

/// The invariants of the greedy scan: lengths agree, every claimed
/// vertex maps below the number of coarse vertices built, the count of
/// coarse vertices plus the count of unclaimed vertices never exceeds
/// the fine count, and once the first edge of the ranking has merged two
/// distinct vertices the coarse count stays strictly behind.
pub proof fn lemma_merge_upto_inv(m: MeshModel, rk: Seq<RankEdge>, k: int)
    requires
        m.wf(),
        m.n() <= usize::MAX,
        0 <= k <= rk.len(),
        forall|p: int|
            0 <= p < rk.len() ==> (#[trigger] rk[p]).0 < m.n() && rk[p].1 < m.n(),
    ensures
        merge_upto(m, rk, k).up.len() == m.n(),
        merge_upto(m, rk, k).norms.len() == merge_upto(m, rk, k).verts.len(),
        merge_upto(m, rk, k).areas.len() == merge_upto(m, rk, k).verts.len(),
        forall|v: int|
            0 <= v < m.n() ==> merge_upto(m, rk, k).up[v] == UNCLAIMED || (
            #[trigger] merge_upto(m, rk, k).up[v]) < merge_upto(m, rk, k).verts.len(),
        merge_upto(m, rk, k).verts.len() + unclaimed_count(merge_upto(m, rk, k).up) <= m.n(),
        k >= 1 && rk[0].0 != rk[0].1 ==> merge_upto(m, rk, k).verts.len() + unclaimed_count(
            merge_upto(m, rk, k).up,
        ) + 1 <= m.n(),
    decreases k,
{
    if k == 0 {
        lemma_unclaimed_const(m.n(), m.n() as int);
    } else {
        lemma_merge_upto_inv(m, rk, k - 1);
        let st = merge_upto(m, rk, k - 1);
        let e = rk[k - 1];
        let i = e.0 as int;
        let j = e.1 as int;
        if st.up[i] != UNCLAIMED || st.up[j] != UNCLAIMED {
        } else {
            let newidx = st.verts.len() as usize;
            lemma_unclaimed_nonneg(st.up, st.up.len() as int);
            assert(unclaimed_upto(st.up, st.up.len() as int) >= 1) by {
                lemma_unclaimed_at_least_one(st.up, i);
            }
            assert(st.verts.len() < m.n());
            let up1 = st.up.update(i, newidx);
            lemma_unclaimed_upto_update(st.up, i, newidx, st.up.len() as int);
            lemma_unclaimed_upto_update(up1, j, newidx, up1.len() as int);
        }
    }
}

/// A sequence of all-unclaimed entries has as many unclaimed as entries.
pub proof fn lemma_unclaimed_const(n: nat, k: int)
    requires
        0 <= k <= n,
    ensures
        unclaimed_upto(Seq::new(n, |i: int| UNCLAIMED), k) == k,
    decreases k,
{
    if k > 0 {
        lemma_unclaimed_const(n, k - 1);
    }
}

/// An unclaimed slot contributes to the unclaimed count.
pub proof fn lemma_unclaimed_at_least_one(up: Seq<usize>, i: int)
    requires
        0 <= i < up.len(),
        up[i] == UNCLAIMED,
    ensures
        unclaimed_upto(up, up.len() as int) >= 1,
{
    lemma_unclaimed_split(up, i, up.len() as int);
}

/// The unclaimed count of a prefix grows along the prefix.
pub proof fn lemma_unclaimed_split(up: Seq<usize>, i: int, k: int)
    requires
        0 <= i < k <= up.len(),
        up[i] == UNCLAIMED,
    ensures
        unclaimed_upto(up, k) >= 1,
        unclaimed_upto(up, k) >= unclaimed_upto(up, i + 1),
    decreases k,
{
    if k > i + 1 {
        lemma_unclaimed_split(up, i, k - 1);
    } else {
        lemma_unclaimed_nonneg(up, i);
    }
}

/// The invariants of the singleton pass: after it has passed the first
/// `k` vertices they are all claimed, claims it did not make are
/// untouched, every claim maps below the coarse count, and the coarse
/// count grows by exactly the unclaimed vertices passed.
pub proof fn lemma_singleton_upto_inv(m: MeshModel, st0: MergeState, k: int)
    requires
        m.wf(),
        m.n() <= usize::MAX,
        st0.up.len() == m.n(),
        st0.norms.len() == st0.verts.len(),
        st0.areas.len() == st0.verts.len(),
        forall|v: int|
            0 <= v < m.n() ==> st0.up[v] == UNCLAIMED || (#[trigger] st0.up[v]) < st0.verts.len(),
        st0.verts.len() + unclaimed_count(st0.up) <= m.n(),
        0 <= k <= m.n(),
    ensures
        singleton_upto(m, st0, k).up.len() == m.n(),
        singleton_upto(m, st0, k).norms.len() == singleton_upto(m, st0, k).verts.len(),
        singleton_upto(m, st0, k).areas.len() == singleton_upto(m, st0, k).verts.len(),
        forall|v: int|
            0 <= v < k ==> (#[trigger] singleton_upto(m, st0, k).up[v]) != UNCLAIMED,
        forall|v: int|
            0 <= v < m.n() && st0.up[v] != UNCLAIMED ==> (#[trigger] singleton_upto(
                m,
                st0,
                k,
            ).up[v]) == st0.up[v],
        forall|v: int|
            k <= v < m.n() ==> (#[trigger] singleton_upto(m, st0, k).up[v]) == st0.up[v],
        forall|v: int|
            0 <= v < m.n() ==> singleton_upto(m, st0, k).up[v] == UNCLAIMED || (
            #[trigger] singleton_upto(m, st0, k).up[v]) < singleton_upto(m, st0, k).verts.len(),
        singleton_upto(m, st0, k).verts.len() == st0.verts.len() + unclaimed_upto(st0.up, k),
        singleton_upto(m, st0, k).verts.len() + unclaimed_count(singleton_upto(m, st0, k).up)
            <= m.n(),
    decreases k,
{
    if k > 0 {
        lemma_singleton_upto_inv(m, st0, k - 1);
        let st = singleton_upto(m, st0, k - 1);
        if st.up[k - 1] == UNCLAIMED {
            lemma_unclaimed_at_least_one(st.up, k - 1);
            lemma_unclaimed_upto_update(st.up, k - 1, st.verts.len() as usize, st.up.len() as int);
        }
        lemma_unclaimed_agree(st0.up, st.up, k - 1);
    }
}

/// Two mappings that agree on a prefix have the same unclaimed count
/// over it.
pub proof fn lemma_unclaimed_agree(a: Seq<usize>, b: Seq<usize>, k: int)
    requires
        0 <= k <= a.len(),
        a.len() == b.len(),
        forall|v: int| k <= v < a.len() ==> a[v] == #[trigger] b[v],
    ensures
        unclaimed_upto(a, a.len() as int) - unclaimed_upto(a, k) == unclaimed_upto(
            b,
            b.len() as int,
        ) - unclaimed_upto(b, k),
    decreases a.len() - k,
{
    if k < a.len() {
        lemma_unclaimed_agree(a, b, k + 1);
    }
}

/// Runs the greedy merge scan over the sorted edges and then the
/// singleton pass, producing the fine-to-coarse mapping and the coarse
/// vertex data.
pub fn coarsen_vertices(mesh: &ProcessMesh, rk: &Vec<RankEdge>) -> (r: (
    Vec<usize>,
    Vec<V3>,
    Vec<V3>,
    Vec<u32>,
))
    requires
        mesh.wf(),
        forall|p: int|
            0 <= p < rk@.len() ==> (#[trigger] rk@[p]).0 < mesh.model().n() && rk@[p].1
                < mesh.model().n(),
    ensures
        r.0@ == coarse_state(mesh.model(), rk@).up,
        r.1@ == coarse_state(mesh.model(), rk@).verts,
        r.2@ == coarse_state(mesh.model(), rk@).norms,
        r.3@ == coarse_state(mesh.model(), rk@).areas,
{
    let ghost m = mesh.model();
    let n = mesh.vertices.len();
    let mut up: Vec<usize> = Vec::new();
    let mut i0: usize = 0;
    while i0 < n
        invariant
            i0 <= n,
            up@.len() == i0,
            forall|v: int| 0 <= v < i0 ==> up@[v] == UNCLAIMED,
        decreases n - i0,
    {
        up.push(UNCLAIMED);
        i0 += 1;
    }
    assert(up@ =~= init_state(n as nat).up);
    let mut verts: Vec<V3> = Vec::new();
    let mut norms: Vec<V3> = Vec::new();
    let mut areas: Vec<u32> = Vec::new();
    let mut k: usize = 0;
    while k < rk.len()
        invariant
            k <= rk@.len(),
            mesh.wf(),
            m == mesh.model(),
            n == m.n(),
            forall|p: int|
                0 <= p < rk@.len() ==> (#[trigger] rk@[p]).0 < n && rk@[p].1 < n,
            up@ == merge_upto(m, rk@, k as int).up,
            verts@ == merge_upto(m, rk@, k as int).verts,
            norms@ == merge_upto(m, rk@, k as int).norms,
            areas@ == merge_upto(m, rk@, k as int).areas,
        decreases rk@.len() - k,
    {
        proof {
            lemma_merge_upto_inv(m, rk@, k as int);
        }
        let e = rk[k];
        let i = e.0;
        let j = e.1;
        if up[i] != UNCLAIMED || up[j] != UNCLAIMED {
        } else {
            let ai = mesh.dual_area[i];
            let aj = mesh.dual_area[j];
            let newidx = verts.len();
            up[i] = newidx;
            up[j] = newidx;
            let at = fadd_e(ai, aj);
            verts.push(vdivs_w(vadd_w(vscale_w(ai, mesh.vertices[i]), vscale_w(aj, mesh.vertices[j])), at));
            norms.push(vnormalize_w(vadd_w(vscale_w(ai, mesh.normals[i]), vscale_w(aj, mesh.normals[j]))));
            areas.push(fadd_e(ai, aj));
        }
        k += 1;
    }
    proof {
        lemma_merge_upto_inv(m, rk@, rk@.len() as int);
    }
    let mut i: usize = 0;
    while i < n
        invariant
            i <= n,
            mesh.wf(),
            m == mesh.model(),
            n == m.n(),
            forall|p: int|
                0 <= p < rk@.len() ==> (#[trigger] rk@[p]).0 < n && rk@[p].1 < n,
            up@ == singleton_upto(m, merge_upto(m, rk@, rk@.len() as int), i as int).up,
            verts@ == singleton_upto(m, merge_upto(m, rk@, rk@.len() as int), i as int).verts,
            norms@ == singleton_upto(m, merge_upto(m, rk@, rk@.len() as int), i as int).norms,
            areas@ == singleton_upto(m, merge_upto(m, rk@, rk@.len() as int), i as int).areas,
            up@.len() == n,
        decreases n - i,
    {
        proof {
            lemma_merge_upto_inv(m, rk@, rk@.len() as int);
            lemma_singleton_upto_inv(m, merge_upto(m, rk@, rk@.len() as int), i as int);
        }
        if up[i] == UNCLAIMED {
            let newidx = verts.len();
            up[i] = newidx;
            verts.push(mesh.vertices[i]);
            norms.push(mesh.normals[i]);
            areas.push(mesh.dual_area[i]);
        }
        i += 1;
    }
    (up, verts, norms, areas)
}

/// The sentinel used for the triangle index of coarse adjacency entries:
/// coarse levels have no triangles.
pub const NO_FACE: usize = usize::MAX;

/// Maps the first `q` entries of one fine adjacency row through the
/// fine-to-coarse mapping, dropping entries that became self-loops.
pub open spec fn map_row_upto(
    acc: Seq<Seq<(usize, usize)>>,
    row: Seq<(usize, usize)>,
    iu: usize,
    up: Seq<usize>,
    q: int,
) -> Seq<Seq<(usize, usize)>>
    decreases q,
{
    if q <= 0 {
        acc
    } else {
        let prev = map_row_upto(acc, row, iu, up, q - 1);
        let ju = up[row[q - 1].0 as int];
        if iu != ju {
            push_at(prev, iu as int, (ju, NO_FACE))
        } else {
            prev
        }
    }
}

/// Maps the adjacency rows of the first `k` fine vertices.
pub open spec fn map_adj_upto(m: MeshModel, up: Seq<usize>, cn: nat, k: int) -> Seq<
    Seq<(usize, usize)>,
>
    decreases k,
{
    if k <= 0 {
        empty_adj(cn)
    } else {
        let prev = map_adj_upto(m, up, cn, k - 1);
        map_row_upto(prev, m.adj[k - 1], up[k - 1], up, m.adj[k - 1].len() as int)
    }
}

/// Every fine adjacency edge mapped through the coarse indices, with
/// self-loops dropped, in fine traversal order.
pub open spec fn mapped_adj(m: MeshModel, up: Seq<usize>, cn: nat) -> Seq<Seq<(usize, usize)>> {
    map_adj_upto(m, up, cn, m.n() as int)
}

/// The insertion position for ascending order by neighbor index: before
/// the first entry with a strictly larger neighbor.
pub open spec fn pair_pos(s: Seq<(usize, usize)>, key: usize) -> int
    decreases s.len(),
{
    if s.len() == 0 {
        0
    } else if s[0].0 > key {
        0
    } else {
        1 + pair_pos(s.drop_first(), key)
    }
}

pub open spec fn pair_insert(s: Seq<(usize, usize)>, x: (usize, usize)) -> Seq<(usize, usize)> {
    let p = pair_pos(s, x.0);
    s.take(p) + seq![x] + s.skip(p)
}

pub open spec fn pair_sort_upto(s: Seq<(usize, usize)>, k: int) -> Seq<(usize, usize)>
    decreases k,
{
    if k <= 0 {
        Seq::empty()
    } else {
        pair_insert(pair_sort_upto(s, k - 1), s[k - 1])
    }
}

/// One adjacency row sorted ascending by neighbor index.
pub open spec fn pair_sort_spec(s: Seq<(usize, usize)>) -> Seq<(usize, usize)> {
    pair_sort_upto(s, s.len() as int)
}

/// The row after removing consecutive duplicates of the first `k`
/// entries.
pub open spec fn dedup_upto(s: Seq<(usize, usize)>, k: int) -> Seq<(usize, usize)>
    decreases k,
{
    if k <= 0 {
        Seq::empty()
    } else {
        let prev = dedup_upto(s, k - 1);
        if prev.len() > 0 && prev.last() == s[k - 1] {
            prev
        } else {
            prev.push(s[k - 1])
        }
    }
}

pub open spec fn dedup_spec(s: Seq<(usize, usize)>) -> Seq<(usize, usize)> {
    dedup_upto(s, s.len() as int)
}

/// One coarse adjacency row: mapped, sorted, deduplicated.
pub open spec fn row_clean(s: Seq<(usize, usize)>) -> Seq<(usize, usize)> {
    dedup_spec(pair_sort_spec(s))
}

/// The coarse adjacency: every fine edge mapped through the coarse
/// indices, self-loops dropped, each row sorted by neighbor and
/// deduplicated.
pub open spec fn coarse_adj_of(m: MeshModel, up: Seq<usize>, cn: nat) -> Seq<Seq<(usize, usize)>> {
    Seq::new(cn, |r: int| row_clean(mapped_adj(m, up, cn)[r]))
}

pub proof fn lemma_pair_pos_props(s: Seq<(usize, usize)>, key: usize)
    ensures
        0 <= pair_pos(s, key) <= s.len(),
    decreases s.len(),
{
    if s.len() > 0 && !(s[0].0 > key) {
        lemma_pair_pos_props(s.drop_first(), key);
    }
}

pub proof fn lemma_pair_pos_char(s: Seq<(usize, usize)>, key: usize, p: int)
    requires
        0 <= p <= s.len(),
        forall|i: int| 0 <= i < p ==> (#[trigger] s[i]).0 <= key,
        p < s.len() ==> s[p].0 > key,
    ensures
        p == pair_pos(s, key),
    decreases s.len(),
{
    if s.len() == 0 {
    } else if s[0].0 > key {
        if p > 0 {
            assert(s[0].0 <= key);
        }
    } else {
        assert(p > 0);
        assert forall|i: int| 0 <= i < p - 1 implies (#[trigger] s.drop_first()[i]).0 <= key by {
            assert(s.drop_first()[i] == s[i + 1]);
        }
        if p - 1 < s.drop_first().len() {
            assert(s.drop_first()[p - 1] == s[p]);
        }
        lemma_pair_pos_char(s.drop_first(), key, p - 1);
    }
}

/// Everything in the insertion result is the new pair or one of the old
/// ones.
pub proof fn lemma_pair_insert_membership(s: Seq<(usize, usize)>, x: (usize, usize))
    ensures
        pair_insert(s, x).len() == s.len() + 1,
        forall|q: int|
            0 <= q < pair_insert(s, x).len() ==> (#[trigger] pair_insert(s, x)[q]) == x || exists|
                w: int,
            | 0 <= w < s.len() && s[w] == pair_insert(s, x)[q],
{
    let p = pair_pos(s, x.0);
    lemma_pair_pos_props(s, x.0);
    let t = pair_insert(s, x);
    assert forall|q: int| 0 <= q < t.len() implies (#[trigger] t[q]) == x || exists|w: int|
        0 <= w < s.len() && s[w] == t[q] by {
        if q < p {
            assert(s[q] == t[q]);
        } else if q > p {
            assert(s[q - 1] == t[q]);
        }
    }
}

/// Everything in a sorted row is one of the row's pairs.
pub proof fn lemma_pair_sort_membership(s: Seq<(usize, usize)>, k: int)
    requires
        0 <= k <= s.len(),
    ensures
        forall|q: int|
            0 <= q < pair_sort_upto(s, k).len() ==> exists|w: int|
                0 <= w < s.len() && s[w] == #[trigger] pair_sort_upto(s, k)[q],
    decreases k,
{
    if k > 0 {
        lemma_pair_sort_membership(s, k - 1);
        lemma_pair_insert_membership(pair_sort_upto(s, k - 1), s[k - 1]);
        assert forall|q: int| 0 <= q < pair_sort_upto(s, k).len() implies exists|w: int|
            0 <= w < s.len() && s[w] == #[trigger] pair_sort_upto(s, k)[q] by {
            let t = pair_sort_upto(s, k);
            if t[q] == s[k - 1] {
                assert(0 <= k - 1 < s.len() && s[k - 1] == t[q]);
            } else {
                let w0 = choose|w0: int|
                    0 <= w0 < pair_sort_upto(s, k - 1).len() && #[trigger] pair_sort_upto(
                        s,
                        k - 1,
                    )[w0] == t[q];
                assert(exists|w: int| 0 <= w < s.len() && s[w] == pair_sort_upto(s, k - 1)[w0]);
            }
        }
    }
}

/// Everything in a deduplicated row is one of the row's pairs.
pub proof fn lemma_dedup_membership(s: Seq<(usize, usize)>, k: int)
    requires
        0 <= k <= s.len(),
    ensures
        forall|q: int|
            0 <= q < dedup_upto(s, k).len() ==> exists|w: int|
                0 <= w < s.len() && s[w] == #[trigger] dedup_upto(s, k)[q],
    decreases k,
{
    if k > 0 {
        lemma_dedup_membership(s, k - 1);
        assert forall|q: int| 0 <= q < dedup_upto(s, k).len() implies exists|w: int|
            0 <= w < s.len() && s[w] == #[trigger] dedup_upto(s, k)[q] by {
            let prev = dedup_upto(s, k - 1);
            if !(prev.len() > 0 && prev.last() == s[k - 1]) && q == prev.len() {
                assert(dedup_upto(s, k)[q] == s[k - 1]);
                assert(0 <= k - 1 < s.len() && s[k - 1] == dedup_upto(s, k)[q]);
            } else {
                assert(dedup_upto(s, k)[q] == prev[q]);
            }
        }
    }
}

/// Everything in a cleaned row is one of the raw row's pairs.
pub proof fn lemma_row_clean_membership(s: Seq<(usize, usize)>)
    ensures
        forall|q: int|
            0 <= q < row_clean(s).len() ==> exists|w: int|
                0 <= w < s.len() && s[w] == #[trigger] row_clean(s)[q],
{
    lemma_pair_sort_membership(s, s.len() as int);
    lemma_dedup_membership(pair_sort_spec(s), pair_sort_spec(s).len() as int);
    assert forall|q: int| 0 <= q < row_clean(s).len() implies exists|w: int|
        0 <= w < s.len() && s[w] == #[trigger] row_clean(s)[q] by {
        let w0 = choose|w0: int|
            0 <= w0 < pair_sort_spec(s).len() && #[trigger] pair_sort_spec(s)[w0] == row_clean(
                s,
            )[q];
        assert(exists|w: int| 0 <= w < s.len() && s[w] == pair_sort_spec(s)[w0]);
    }
}

/// What the mapping pass puts into the rows: only valid coarse
/// neighbors, and never a self-loop.
pub proof fn lemma_map_row_upto_props(
    acc: Seq<Seq<(usize, usize)>>,
    row: Seq<(usize, usize)>,
    iu: usize,
    up: Seq<usize>,
    q: int,
    cn: nat,
)
    requires
        0 <= q <= row.len(),
        iu < cn,
        acc.len() == cn,
        forall|e: int| 0 <= e < row.len() ==> (#[trigger] row[e]).0 < up.len(),
        forall|v: int| 0 <= v < up.len() ==> (#[trigger] up[v]) < cn,
        forall|r: int, w: int|
            0 <= r < cn && 0 <= w < acc[r].len() ==> (#[trigger] acc[r][w]).0 < cn && acc[r][w].0
                != r,
    ensures
        map_row_upto(acc, row, iu, up, q).len() == cn,
        forall|r: int, w: int|
            0 <= r < cn && 0 <= w < map_row_upto(acc, row, iu, up, q)[r].len() ==> (
            #[trigger] map_row_upto(acc, row, iu, up, q)[r][w]).0 < cn && map_row_upto(
                acc,
                row,
                iu,
                up,
                q,
            )[r][w].0 != r,
    decreases q,
{
    if q > 0 {
        lemma_map_row_upto_props(acc, row, iu, up, q - 1, cn);
        let prev = map_row_upto(acc, row, iu, up, q - 1);
        let ju = up[row[q - 1].0 as int];
        if iu != ju {
            assert forall|r: int, w: int|
                0 <= r < cn && 0 <= w < push_at(prev, iu as int, (ju, NO_FACE))[r].len() implies (
            #[trigger] push_at(prev, iu as int, (ju, NO_FACE))[r][w]).0 < cn && push_at(
                prev,
                iu as int,
                (ju, NO_FACE),
            )[r][w].0 != r by {
                if r == iu as int && w == prev[r].len() {
                } else {
                    assert(push_at(prev, iu as int, (ju, NO_FACE))[r][w] == prev[r][w]);
                }
            }
        }
    }
}

/// The mapped adjacency has valid neighbors and no self-loops.
pub proof fn lemma_map_adj_upto_props(m: MeshModel, up: Seq<usize>, cn: nat, k: int)
    requires
        m.wf(),
        0 <= k <= m.n(),
        up.len() == m.n(),
        forall|v: int| 0 <= v < up.len() ==> (#[trigger] up[v]) < cn,
    ensures
        map_adj_upto(m, up, cn, k).len() == cn,
        forall|r: int, w: int|
            0 <= r < cn && 0 <= w < map_adj_upto(m, up, cn, k)[r].len() ==> (
            #[trigger] map_adj_upto(m, up, cn, k)[r][w]).0 < cn && map_adj_upto(
                m,
                up,
                cn,
                k,
            )[r][w].0 != r,
    decreases k,
{
    if k > 0 {
        lemma_map_adj_upto_props(m, up, cn, k - 1);
        lemma_map_row_upto_props(
            map_adj_upto(m, up, cn, k - 1),
            m.adj[k - 1],
            up[k - 1],
            up,
            m.adj[k - 1].len() as int,
            cn,
        );
    }
}

/// The coarse adjacency has valid neighbors and no self-loops.
pub proof fn lemma_coarse_adj_props(m: MeshModel, up: Seq<usize>, cn: nat)
    requires
        m.wf(),
        up.len() == m.n(),
        forall|v: int| 0 <= v < up.len() ==> (#[trigger] up[v]) < cn,
    ensures
        coarse_adj_of(m, up, cn).len() == cn,
        forall|r: int, w: int|
            0 <= r < cn && 0 <= w < coarse_adj_of(m, up, cn)[r].len() ==> (
            #[trigger] coarse_adj_of(m, up, cn)[r][w]).0 < cn && coarse_adj_of(
                m,
                up,
                cn,
            )[r][w].0 != r,
{
    lemma_map_adj_upto_props(m, up, cn, m.n() as int);
    assert forall|r: int, w: int|
        0 <= r < cn && 0 <= w < coarse_adj_of(m, up, cn)[r].len() implies (
    #[trigger] coarse_adj_of(m, up, cn)[r][w]).0 < cn && coarse_adj_of(m, up, cn)[r][w].0 != r by {
        let raw = mapped_adj(m, up, cn)[r];
        lemma_row_clean_membership(raw);
        assert(coarse_adj_of(m, up, cn)[r] == row_clean(raw));
        let w0 = choose|w0: int|
            0 <= w0 < raw.len() && #[trigger] raw[w0] == row_clean(raw)[w];
    }
}

/// Sorts one mapped adjacency row ascending by neighbor index.
pub fn pair_sort_row(input: &Vec<(usize, usize)>) -> (out: Vec<(usize, usize)>)
    ensures
        out@ == pair_sort_spec(input@),
{
    let mut out: Vec<(usize, usize)> = Vec::new();
    let mut k: usize = 0;
    while k < input.len()
        invariant
            k <= input@.len(),
            out@ == pair_sort_upto(input@, k as int),
        decreases input@.len() - k,
    {
        let x = input[k];
        let mut p: usize = 0;
        while p < out.len() && out[p].0 <= x.0
            invariant
                p <= out@.len(),
                forall|i: int| 0 <= i < p ==> (#[trigger] out@[i]).0 <= x.0,
            decreases out@.len() - p,
        {
            p += 1;
        }
        proof {
            lemma_pair_pos_char(out@, x.0, p as int);
        }
        let ghost before = out@;
        out.insert(p, x);
        proof {
            assert(out@ =~= before.take(p as int) + seq![x] + before.skip(p as int));
            assert(out@ =~= pair_insert(before, x));
        }
        k += 1;
    }
    out
}

/// Removes consecutive duplicate entries of a sorted row.
pub fn dedup_row(input: &Vec<(usize, usize)>) -> (out: Vec<(usize, usize)>)
    ensures
        out@ == dedup_spec(input@),
{
    let mut out: Vec<(usize, usize)> = Vec::new();
    let mut k: usize = 0;
    while k < input.len()
        invariant
            k <= input@.len(),
            out@ == dedup_upto(input@, k as int),
        decreases input@.len() - k,
    {
        let x = input[k];
        let keep = if out.len() > 0 {
            let last = out[out.len() - 1];
            !(last.0 == x.0 && last.1 == x.1)
        } else {
            true
        };
        if keep {
            out.push(x);
        }
        k += 1;
    }
    out
}

/// Builds the coarse adjacency from the fine mesh and the fine-to-coarse
/// mapping: maps every fine edge, drops self-loops, sorts each row by
/// neighbor and removes duplicate edges.
pub fn build_coarse_adjacency(mesh: &ProcessMesh, up: &Vec<usize>, cn: usize) -> (adj: Vec<
    Vec<(usize, usize)>,
>)
    requires
        mesh.wf(),
        up@.len() == mesh.model().n(),
        forall|v: int| 0 <= v < up@.len() ==> (#[trigger] up@[v]) < cn,
    ensures
        adj@.len() == cn,
        adj_view(adj@) == coarse_adj_of(mesh.model(), up@, cn as nat),
{
    let ghost m = mesh.model();
    let n = mesh.vertices.len();
    let mut adj: Vec<Vec<(usize, usize)>> = Vec::new();
    let mut r0: usize = 0;
    while r0 < cn
        invariant
            r0 <= cn,
            adj@.len() == r0,
            forall|t: int| 0 <= t < r0 ==> (#[trigger] adj@[t])@.len() == 0,
        decreases cn - r0,
    {
        adj.push(Vec::new());
        r0 += 1;
    }
    assert(adj_view(adj@) =~~= empty_adj(cn as nat));
    let mut i: usize = 0;
    while i < n
        invariant
            i <= n,
            mesh.wf(),
            m == mesh.model(),
            n == m.n(),
            up@.len() == n,
            forall|v: int| 0 <= v < up@.len() ==> (#[trigger] up@[v]) < cn,
            adj@.len() == cn,
            adj_view(adj@) == map_adj_upto(m, up@, cn as nat, i as int),
        decreases n - i,
    {
        let row = &mesh.adjacency_face[i];
        let iu = up[i];
        let mut q: usize = 0;
        while q < row.len()
            invariant
                q <= row@.len(),
                mesh.wf(),
                m == mesh.model(),
                n == m.n(),
                i < n,
                up@.len() == n,
                forall|v: int| 0 <= v < up@.len() ==> (#[trigger] up@[v]) < cn,
                row@ == m.adj[i as int],
                iu == up@[i as int],
                adj@.len() == cn,
                adj_view(adj@) == map_row_upto(
                    map_adj_upto(m, up@, cn as nat, i as int),
                    row@,
                    iu,
                    up@,
                    q as int,
                ),
            decreases row@.len() - q,
        {
            let e = row[q];
            assert(e.0 < n);
            let ju = up[e.0];
            if iu != ju {
                let ghost before = adj_view(adj@);
                adj[iu].push((ju, NO_FACE));
                assert(adj_view(adj@) =~= push_at(before, iu as int, (ju, NO_FACE)));
            }
            q += 1;
        }
        i += 1;
    }
    let mut r: usize = 0;
    while r < cn
        invariant
            r <= cn,
            adj@.len() == cn,
            forall|t: int|
                0 <= t < r ==> adj_view(adj@)[t] == row_clean(
                    #[trigger] mapped_adj(m, up@, cn as nat)[t],
                ),
            forall|t: int|
                r <= t < cn ==> adj_view(adj@)[t] == #[trigger] mapped_adj(m, up@, cn as nat)[t],
        decreases cn - r,
    {
        let sorted = pair_sort_row(&adj[r]);
        let cleaned = dedup_row(&sorted);
        let ghost before = adj_view(adj@);
        adj[r] = cleaned;
        proof {
            assert(adj_view(adj@) =~= before.update(r as int, row_clean(
                mapped_adj(m, up@, cn as nat)[r as int],
            )));
        }
        r += 1;
    }
    assert(adj_view(adj@) =~~= coarse_adj_of(m, up@, cn as nat));
    adj
}

/// Whether any adjacency row holds an edge back to its own vertex.
pub open spec fn has_self(adj: Seq<Seq<(usize, usize)>>) -> bool {
    exists|i: int, q: int|
        0 <= i < adj.len() && 0 <= q < adj[i].len() && (#[trigger] adj[i][q]).0 == i
}

/// No adjacency row is longer than the whole ranking.
pub proof fn lemma_ranking_upto_len(m: MeshModel, k: int)
    requires
        0 <= k <= m.adj.len(),
    ensures
        forall|i: int| 0 <= i < k ==> (#[trigger] m.adj[i]).len() <= ranking_upto(m, k).len(),
    decreases k,
{
    if k > 0 {
        lemma_ranking_upto_len(m, k - 1);
        assert(ranking_upto(m, k).len() == ranking_upto(m, k - 1).len() + ranking_row(
            m,
            k - 1,
        ).len());
        assert(ranking_row(m, k - 1).len() == m.adj[k - 1].len());
    }
}

/// In a mesh without self-loop edges, no scored edge joins a vertex to
/// itself.
pub proof fn lemma_ranking_upto_no_self(m: MeshModel, k: int)
    requires
        0 <= k <= m.adj.len(),
        m.adj.len() <= usize::MAX,
        !has_self(m.adj),
    ensures
        forall|p: int|
            0 <= p < ranking_upto(m, k).len() ==> (#[trigger] ranking_upto(m, k)[p]).0
                != ranking_upto(m, k)[p].1,
    decreases k,
{
    if k > 0 {
        lemma_ranking_upto_no_self(m, k - 1);
        let prev = ranking_upto(m, k - 1);
        let row = ranking_row(m, k - 1);
        assert forall|p: int|
            0 <= p < ranking_upto(m, k).len() implies (#[trigger] ranking_upto(m, k)[p]).0
            != ranking_upto(m, k)[p].1 by {
            if p >= prev.len() {
                assert(ranking_upto(m, k)[p] == row[p - prev.len()]);
                assert(row[p - prev.len()].0 == (k - 1) as usize);
                assert(row[p - prev.len()].1 == m.adj[k - 1][p - prev.len()].0);
                assert(m.adj[k - 1][p - prev.len()].0 != k - 1);
            } else {
                assert(ranking_upto(m, k)[p] == prev[p]);
            }
        }
    }
}

/// The combined result of the scan and the singleton pass: everything is
/// claimed below the coarse count, the coarse count never exceeds the
/// fine count, and it falls strictly behind as soon as the first scored
/// edge joins two distinct vertices.
pub proof fn lemma_coarse_counts(m: MeshModel, rk: Seq<RankEdge>)
    requires
        m.wf(),
        m.n() <= usize::MAX,
        forall|p: int|
            0 <= p < rk.len() ==> (#[trigger] rk[p]).0 < m.n() && rk[p].1 < m.n(),
    ensures
        coarse_state(m, rk).up.len() == m.n(),
        coarse_state(m, rk).norms.len() == coarse_state(m, rk).verts.len(),
        coarse_state(m, rk).areas.len() == coarse_state(m, rk).verts.len(),
        forall|v: int|
            0 <= v < m.n() ==> (#[trigger] coarse_state(m, rk).up[v]) < coarse_state(
                m,
                rk,
            ).verts.len(),
        coarse_state(m, rk).verts.len() <= m.n(),
        rk.len() >= 1 && rk[0].0 != rk[0].1 ==> coarse_state(m, rk).verts.len() < m.n(),
{
    lemma_merge_upto_inv(m, rk, rk.len() as int);
    let st0 = merge_upto(m, rk, rk.len() as int);
    lemma_singleton_upto_inv(m, st0, m.n() as int);
    lemma_unclaimed_nonneg(st0.up, st0.up.len() as int);
    let st = coarse_state(m, rk);
    assert forall|v: int| 0 <= v < m.n() implies (#[trigger] st.up[v]) < st.verts.len() by {
        assert(st.up[v] != UNCLAIMED);
    }
}

/// The next coarser mesh that one coarsening step produces.
pub open spec fn coarse_model_of(m: MeshModel) -> MeshModel {
    let rk = sort_ranking_spec(ranking_of(m));
    let st = coarse_state(m, rk);
    MeshModel {
        verts: st.verts,
        norms: st.norms,
        areas: st.areas,
        adj: coarse_adj_of(m, st.up, st.verts.len()),
    }
}

/// The fine-to-coarse mapping that one coarsening step produces.
pub open spec fn up_of(m: MeshModel) -> Seq<usize> {
    coarse_state(m, sort_ranking_spec(ranking_of(m))).up
}

/// The coarsening description a built hierarchy satisfies: the finest
/// (last) level is the input mesh, every level above the coarsest was
/// scored, scanned and merged into the one before it, and the coarsest
/// (first) level is exactly the one without scored edges.
pub open spec fn hierarchy_describes(m: MeshModel, h: Seq<HierarchyLevel>) -> bool {
    &&& h.len() >= 1
    &&& h[h.len() - 1].mesh.model() == m
    &&& h[0].up_mapping@.len() == 0
    &&& ranking_of(h[0].mesh.model()).len() == 0
    &&& forall|k: int|
        0 < k < h.len() ==> {
            &&& ranking_of((#[trigger] h[k]).mesh.model()).len() > 0
            &&& h[k].up_mapping@ == up_of(h[k].mesh.model())
            &&& h[k - 1].mesh.model() == coarse_model_of(h[k].mesh.model())
        }
}

/// Within the first `j + 1` levels off the fine end, two hierarchies
/// that satisfy the description for the same mesh agree.
pub proof fn lemma_describes_align(m: MeshModel, r1: Seq<HierarchyLevel>, r2: Seq<HierarchyLevel>, j: int)
    requires
        hierarchy_describes(m, r1),
        hierarchy_describes(m, r2),
        0 <= j < r1.len(),
        j < r2.len(),
    ensures
        r1[r1.len() - 1 - j].mesh.model() == r2[r2.len() - 1 - j].mesh.model(),
        r1.len() - 1 - j > 0 && r2.len() - 1 - j > 0 ==> r1[r1.len() - 1 - j].up_mapping@
            == r2[r2.len() - 1 - j].up_mapping@,
    decreases j,
{
    if j > 0 {
        lemma_describes_align(m, r1, r2, j - 1);
    }
}

/// The description pins the hierarchy: any two hierarchies that satisfy
/// it for the same mesh have the same number of levels, and their
/// levels agree in everything the coarsening defines — mesh content and
/// fine-to-coarse mapping alike.
pub proof fn lemma_build_unique(m: MeshModel, r1: Seq<HierarchyLevel>, r2: Seq<HierarchyLevel>)
    requires
        hierarchy_describes(m, r1),
        hierarchy_describes(m, r2),
    ensures
        r1.len() == r2.len(),
        forall|k: int|
            0 <= k < r1.len() ==> (#[trigger] r1[k]).mesh.model() == r2[k].mesh.model(),
        forall|k: int|
            0 < k < r1.len() ==> (#[trigger] r1[k]).up_mapping@ == r2[k].up_mapping@,
{
    if r1.len() < r2.len() {
        lemma_describes_align(m, r1, r2, r1.len() - 1);
        assert(r2[r2.len() - r1.len()].mesh.model() == r1[0].mesh.model());
        assert(ranking_of(r2[r2.len() - r1.len()].mesh.model()).len() > 0);
        assert(false);
    }
    if r2.len() < r1.len() {
        lemma_describes_align(m, r2, r1, r2.len() - 1);
        assert(r1[r1.len() - r2.len()].mesh.model() == r2[0].mesh.model());
        assert(ranking_of(r1[r1.len() - r2.len()].mesh.model()).len() > 0);
        assert(false);
    }
    assert forall|k: int|
        0 <= k < r1.len() implies (#[trigger] r1[k]).mesh.model() == r2[k].mesh.model() by {
        lemma_describes_align(m, r1, r2, r1.len() - 1 - k);
    }
    assert forall|k: int|
        0 < k < r1.len() implies (#[trigger] r1[k]).up_mapping@ == r2[k].up_mapping@ by {
        lemma_describes_align(m, r1, r2, r1.len() - 1 - k);
    }
}

/// What every built hierarchy guarantees its consumers: all levels are
/// well-formed, and every level's mapping covers exactly its vertices
/// and points into the next coarser level.
pub open spec fn hierarchy_wf(h: Seq<HierarchyLevel>) -> bool {
    &&& h.len() >= 1
    &&& forall|k: int| 0 <= k < h.len() ==> (#[trigger] h[k]).mesh.wf()
    &&& forall|k: int|
        0 < k < h.len() ==> (#[trigger] h[k]).up_mapping@.len() == h[k].mesh.vcount()
    &&& forall|k: int, v: int|
        0 < k < h.len() && 0 <= v < h[k].up_mapping@.len() ==> (#[trigger] h[k].up_mapping@[v])
            < h[k - 1].mesh.vcount()
}

/// Builds the multigrid hierarchy by greedy weighted coarsening,
/// coarsest level first.  Every vertex pair is scored, the pairs are
/// scanned by descending score and greedily merged, unclaimed vertices
/// are carried over unchanged, and the adjacency is mapped through the
/// merge; this repeats until a mesh with no adjacency edges remains.
pub fn build(mesh: ProcessMesh) -> (r: Vec<HierarchyLevel>)
    requires
        mesh.wf(),
    ensures
        hierarchy_wf(r@),
        hierarchy_describes(mesh.model(), r@),
        r@[r@.len() - 1].mesh.tris@ == mesh.tris@,
        forall|i: int|
            0 <= i < r@[0].mesh.adj().len() ==> (#[trigger] r@[0].mesh.adj()[i]).len() == 0,
        ranking_of(mesh.model()).len() == 0 ==> r@.len() == 1,
    decreases
            mesh.vcount(),
            (if has_self(mesh.adj()) {
                1int
            } else {
                0int
            }),
{
    let ghost m = mesh.model();
    let n = mesh.vertices.len();
    assert(m.n() <= usize::MAX);
    let ranking_raw = compute_ranking(&mesh);
    if ranking_raw.len() == 0 {
        proof {
            lemma_ranking_upto_len(m, m.adj.len() as int);
        }
        let mut r: Vec<HierarchyLevel> = Vec::new();
        r.push(HierarchyLevel { mesh, up_mapping: Vec::new() });
        return r;
    }
    let ranking = sort_ranking(&ranking_raw);
    proof {
        lemma_ranking_upto_valid(m, m.adj.len() as int);
        lemma_sort_upto_membership(ranking_raw@, ranking_raw@.len() as int);
        assert forall|p: int|
            0 <= p < ranking@.len() implies (#[trigger] ranking@[p]).0 < m.n() && ranking@[p].1
            < m.n() by {
            let w = choose|w: int|
                0 <= w < ranking_raw@.len() && ranking_raw@[w] == #[trigger] ranking@[p];
        }
    }
    let (up_mapping, verts, norms, areas) = coarsen_vertices(&mesh, &ranking);
    proof {
        lemma_coarse_counts(m, ranking@);
    }
    let cn = verts.len();
    let cadj = build_coarse_adjacency(&mesh, &up_mapping, cn);
    let new_mesh = ProcessMesh {
        vertices: verts,
        normals: norms,
        tris: Vec::new(),
        adjacency_face: cadj,
        dual_area: areas,
    };
    let ghost cm = coarse_model_of(m);
    proof {
        lemma_coarse_adj_props(m, up_mapping@, cn as nat);
        assert(new_mesh.model() == cm);
        assert(new_mesh.wf());
        // The recursion's measure: a coarse mesh never holds a self-loop
        // edge, and when the fine mesh holds none either, the top-scored
        // edge joins two distinct vertices, which the scan merges.
        assert(!has_self(new_mesh.adj()));
        if !has_self(m.adj) {
            lemma_ranking_upto_no_self(m, m.adj.len() as int);
            assert(ranking@[0].0 != ranking@[0].1) by {
                let w = choose|w: int|
                    0 <= w < ranking_raw@.len() && ranking_raw@[w] == #[trigger] ranking@[0];
            }
            assert(new_mesh.vcount() < mesh.vcount());
        }
    }
    let mut r = build(new_mesh);
    let ghost prefix = r@;
    r.push(HierarchyLevel { mesh, up_mapping });
    proof {
        assert(r@ =~= prefix.push(r@[r@.len() - 1]));
        assert(r@[r@.len() - 1].mesh.model() == m);
        assert forall|k: int|
            0 < k < r@.len() implies {
            &&& ranking_of((#[trigger] r@[k]).mesh.model()).len() > 0
            &&& r@[k].up_mapping@ == up_of(r@[k].mesh.model())
            &&& r@[k - 1].mesh.model() == coarse_model_of(r@[k].mesh.model())
        } by {
            if k < prefix.len() {
                assert(r@[k] == prefix[k]);
                assert(r@[k - 1] == prefix[k - 1]);
            } else {
                assert(r@[k] == r@[r@.len() - 1]);
                assert(r@[k - 1] == prefix[prefix.len() - 1]);
                assert(prefix[prefix.len() - 1].mesh.model() == cm);
            }
        }
        assert(hierarchy_wf(r@)) by {
            assert forall|k: int| 0 <= k < r@.len() implies (#[trigger] r@[k]).mesh.wf() by {
                if k < prefix.len() {
                    assert(r@[k] == prefix[k]);
                }
            }
            assert forall|k: int|
                0 < k < r@.len() implies (#[trigger] r@[k]).up_mapping@.len()
                == r@[k].mesh.vcount() by {
                if k < prefix.len() {
                    assert(r@[k] == prefix[k]);
                    assert(r@[k - 1] == prefix[k - 1]);
                }
            }
            assert forall|k: int, v: int|
                0 < k < r@.len() && 0 <= v < r@[k].up_mapping@.len() implies (
            #[trigger] r@[k].up_mapping@[v]) < r@[k - 1].mesh.vcount() by {
                if k < prefix.len() {
                    assert(r@[k] == prefix[k]);
                    assert(r@[k - 1] == prefix[k - 1]);
                } else {
                    assert(r@[k - 1] == prefix[prefix.len() - 1]);
                    assert(prefix[prefix.len() - 1].mesh.model() == cm);
                    assert(r@[k].up_mapping@[v] < cn);
                }
            }
        }
    }
    r
}

} // verus!
