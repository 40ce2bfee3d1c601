//! The orientation-field solver: a four-fold-symmetric tangent direction
//! per vertex, seeded at the coarsest hierarchy level and relaxed while
//! descending to the finest.

use vstd::prelude::*;

use crate::fp::F_NEG_ONE;
use crate::fp::F_ONE;
use crate::fp::F_TAU;
use crate::fp::F_TWO_NEG16;
use crate::fp::F_ZERO;
use crate::fp::V3;
use crate::fp::cos_sin_w;
use crate::fp::fadd;
use crate::fp::fadd_e;
use crate::fp::fdiv;
use crate::fp::fdiv_e;
use crate::fp::flt;
use crate::fp::flt_w;
use crate::fp::fmul;
use crate::fp::fmul_e;
use crate::fp::fneg;
use crate::fp::fneg_e;
use crate::fp::float_of_int;
use crate::fp::float_of_int_w;
use crate::fp::of_ge;
use crate::fp::of_ge_e;
use crate::fp::vadd;
use crate::fp::vadd_w;
use crate::fp::vcross;
use crate::fp::vcross_w;
use crate::fp::vdot;
use crate::fp::vdot_w;
use crate::fp::vneg;
use crate::fp::vneg_e;
use crate::fp::vnormalize;
use crate::fp::vnormalize_w;
use crate::fp::vscale;
use crate::fp::vscale_w;
use crate::fp::vsub;
use crate::fp::vsub_w;
use crate::hierarchy::HierarchyLevel;
use crate::hierarchy::MeshModel;
use crate::hierarchy::hierarchy_wf;
use crate::mesh::ProcessMesh;

verus! {

/// A small splittable-mix pseudo-random generator.  Any seedable
/// generator serves here; this one is a fixed, reproducible function of
/// its 64-bit state, so the whole solve is deterministic for a seed.
pub struct Prng64 {
    pub state: u64,
}

/// One generator step: the next state and the 64-bit output.
pub open spec fn sm_next(s: u64) -> (u64, u64) {
    let s2 = s.wrapping_add(0x9E37_79B9_7F4A_7C15);
    let z1 = (s2 ^ (s2 >> 30)).wrapping_mul(0xBF58_476D_1CE4_E5B9);
    let z2 = (z1 ^ (z1 >> 27)).wrapping_mul(0x94D0_49BB_1331_11EB);
    (s2, z2 ^ (z2 >> 31))
}

impl Prng64 {
    pub fn seed_from_u64(seed: u64) -> (r: Prng64)
        ensures
            r.state == seed,
    {
        Prng64 { state: seed }
    }

    pub fn next_u64(&mut self) -> (r: u64)
        ensures
            (final(self).state, r) == sm_next(old(self).state),
    {
        let s2 = self.state.wrapping_add(0x9E37_79B9_7F4A_7C15);
        let z1 = (s2 ^ (s2 >> 30)).wrapping_mul(0xBF58_476D_1CE4_E5B9);
        let z2 = (z1 ^ (z1 >> 27)).wrapping_mul(0x94D0_49BB_1331_11EB);
        self.state = s2;
        z2 ^ (z2 >> 31)
    }
}

/// The identity arrangement of `n` vertex indices.
pub open spec fn identity_perm(n: nat) -> Seq<usize> {
    Seq::new(n, |i: int| i as usize)
}

/// The tail of a Fisher-Yates shuffle: positions `i` down to 1 each
/// swap with a generator-chosen position at or below them.
pub open spec fn shuffle_from(s: Seq<usize>, rng: u64, i: int) -> (Seq<usize>, u64)
    decreases i,
{
    if i <= 0 {
        (s, rng)
    } else {
        let (r2, out) = sm_next(rng);
        let j = (out as int) % (i + 1);
        let sw = s.update(i, s[j]).update(j, s[i]);
        shuffle_from(sw, r2, i - 1)
    }
}

/// A fresh random visiting order of `n` vertices, and the generator
/// state after drawing it.
pub open spec fn shuffled_indices(n: nat, rng: u64) -> (Seq<usize>, u64) {
    shuffle_from(identity_perm(n), rng, n as int - 1)
}

/// Draws a fresh random visiting order of the `n` vertices.
pub fn shuffle_indices(n: usize, rng: &mut Prng64) -> (v: Vec<usize>)
    ensures
        (v@, final(rng).state) == shuffled_indices(n as nat, old(rng).state),
        v@.len() == n,
        forall|p: int| 0 <= p < n ==> (#[trigger] v@[p]) < n,
{
    let mut v: Vec<usize> = Vec::new();
    let mut k: usize = 0;
    while k < n
        invariant
            k <= n,
            v@.len() == k,
            forall|p: int| 0 <= p < k ==> (#[trigger] v@[p]) == p,
        decreases n - k,
    {
        v.push(k);
        k += 1;
    }
    assert(v@ =~= identity_perm(n as nat));
    let ghost rng0 = rng.state;
    if n == 0 {
        return v;
    }
    let mut i: usize = n - 1;
    while i >= 1
        invariant
            1 <= i + 1 <= n,
            v@.len() == n,
            forall|p: int| 0 <= p < n ==> (#[trigger] v@[p]) < n,
            shuffled_indices(n as nat, rng0) == shuffle_from(v@, rng.state, i as int),
        decreases i,
    {
        let out = rng.next_u64();
        let j_u64 = out % (i as u64 + 1);
        let j = j_u64 as usize;
        assert(j <= i);
        let a = v[i];
        let b = v[j];
        v[i] = b;
        v[j] = a;
        i -= 1;
    }
    assert(shuffle_from(v@, rng.state, 0) == (v@, rng.state));
    v
}

/// Takes the better-aligned of two candidate pairs, preferring the
/// later on ties, as a maximum search over the dot product does.
pub open spec fn pick(best: (V3, V3), cand: (V3, V3)) -> (V3, V3) {
    if of_ge(vdot(cand.0, cand.1), vdot(best.0, best.1)) {
        cand
    } else {
        best
    }
}

/// The four-fold-symmetric compatibility of two directions: among the
/// eight pairs of a representative of vertex 0 (the direction, its
/// 90-degree rotation about the normal, and their negations) with a
/// representative of vertex 1 (the direction and its rotation), the
/// pair whose dot product is greatest.
pub open spec fn compat_spec(o0: V3, n0: V3, o1: V3, n1: V3) -> (V3, V3) {
    let p0 = vcross(n0, o0);
    let p1 = vcross(n1, o1);
    let no0 = vneg(o0);
    let np0 = vneg(p0);
    pick(
        pick(
            pick(
                pick(pick(pick(pick((o0, o1), (p0, o1)), (no0, o1)), (np0, o1)), (o0, p1)),
                (p0, p1),
            ),
            (no0, p1),
        ),
        (np0, p1),
    )
}

/// The best-aligned pair of symmetry representatives of two directions.
pub fn extrinsic_compat(o0: V3, n0: V3, o1: V3, n1: V3) -> (r: (V3, V3))
    ensures
        r == compat_spec(o0, n0, o1, n1),
{
    let p0 = vcross_w(n0, o0);
    let p1 = vcross_w(n1, o1);
    let no0 = vneg_e(o0);
    let np0 = vneg_e(p0);
    let mut best: (V3, V3) = (o0, o1);
    let mut bestd = vdot_w(o0, o1);
    let d1 = vdot_w(p0, o1);
    if of_ge_e(d1, bestd) {
        best = (p0, o1);
        bestd = d1;
    }
    let d2 = vdot_w(no0, o1);
    if of_ge_e(d2, bestd) {
        best = (no0, o1);
        bestd = d2;
    }
    let d3 = vdot_w(np0, o1);
    if of_ge_e(d3, bestd) {
        best = (np0, o1);
        bestd = d3;
    }
    let d4 = vdot_w(o0, p1);
    if of_ge_e(d4, bestd) {
        best = (o0, p1);
        bestd = d4;
    }
    let d5 = vdot_w(p0, p1);
    if of_ge_e(d5, bestd) {
        best = (p0, p1);
        bestd = d5;
    }
    let d6 = vdot_w(no0, p1);
    if of_ge_e(d6, bestd) {
        best = (no0, p1);
        bestd = d6;
    }
    let d7 = vdot_w(np0, p1);
    if of_ge_e(d7, bestd) {
        best = (np0, p1);
        bestd = d7;
    }
    best
}

/// The direction of vertex `i` after folding in its first `q`
/// neighbors: each neighbor contributes the best-aligned representative
/// pair, weighted by its position in the adjacency list; the running
/// value is then flattened into the tangent plane and renormalized.
pub open spec fn relax_neighbors(m: MeshModel, field: Seq<V3>, i: int, q: int) -> V3
    decreases q,
{
    if q <= 0 {
        field[i]
    } else {
        let prev = relax_neighbors(m, field, i, q - 1);
        let j = m.adj[i][q - 1].0 as int;
        let cc = compat_spec(prev, m.norms[i], field[j], m.norms[j]);
        let v = vadd(vscale(float_of_int((q - 1) as u64), cc.0), cc.1);
        let v2 = vsub(v, vscale(vdot(v, m.norms[i]), m.norms[i]));
        vnormalize(v2)
    }
}

/// The new direction of vertex `i`, after all its neighbors.
pub open spec fn relax_vertex(m: MeshModel, field: Seq<V3>, i: int) -> V3 {
    relax_neighbors(m, field, i, m.adj[i].len() as int)
}

/// The field after updating, in place, the first `t` vertices of the
/// visiting order: each update sees the values already written by the
/// earlier ones.
pub open spec fn sweep_upto(m: MeshModel, field0: Seq<V3>, order: Seq<usize>, t: int) -> Seq<V3>
    decreases t,
{
    if t <= 0 {
        field0
    } else {
        let prev = sweep_upto(m, field0, order, t - 1);
        let i = order[t - 1] as int;
        prev.update(i, relax_vertex(m, prev, i))
    }
}

/// One relaxation sweep: a fresh random order is drawn, and every
/// vertex is updated once, in that order, in place.
pub open spec fn smooth_spec(m: MeshModel, field: Seq<V3>, rng: u64) -> (Seq<V3>, u64) {
    let (order, r2) = shuffled_indices(m.n(), rng);
    (sweep_upto(m, field, order, order.len() as int), r2)
}

/// Runs one randomized relaxation sweep over the mesh, updating the
/// field in place: every vertex is visited once in a fresh random
/// order, and each update already sees the neighbors updated before it.
pub fn extrinsic_smooth(mesh: &ProcessMesh, o_field: &mut Vec<V3>, rng: &mut Prng64)
    requires
        mesh.wf(),
        old(o_field)@.len() == mesh.model().n(),
    ensures
        (final(o_field)@, final(rng).state) == smooth_spec(
            mesh.model(),
            old(o_field)@,
            old(rng).state,
        ),
        final(o_field)@.len() == old(o_field)@.len(),
{
    let ghost m = mesh.model();
    let ghost f0 = o_field@;
    let n = mesh.vertices.len();
    let order = shuffle_indices(n, rng);
    let mut t: usize = 0;
    while t < n
        invariant
            t <= n,
            mesh.wf(),
            m == mesh.model(),
            n == m.n(),
            order@.len() == n,
            forall|p: int| 0 <= p < n ==> (#[trigger] order@[p]) < n,
            o_field@ == sweep_upto(m, f0, order@, t as int),
            o_field@.len() == n,
        decreases n - t,
    {
        let ghost cur = o_field@;
        let i = order[t];
        let row = &mesh.adjacency_face[i];
        let n_i = mesh.normals[i];
        let mut o_i = o_field[i];
        let mut q: usize = 0;
        while q < row.len()
            invariant
                q <= row@.len(),
                mesh.wf(),
                m == mesh.model(),
                n == m.n(),
                i < n,
                row@ == m.adj[i as int],
                n_i == m.norms[i as int],
                o_field@ == cur,
                o_field@.len() == n,
                o_i == relax_neighbors(m, cur, i as int, q as int),
            decreases row@.len() - q,
        {
            let e = row[q];
            let j = e.0;
            assert(j < n);
            let o_j = o_field[j];
            let n_j = mesh.normals[j];
            let cc = extrinsic_compat(o_i, n_i, o_j, n_j);
            let w = float_of_int_w(q as u64);
            let v = vadd_w(vscale_w(w, cc.0), cc.1);
            let v2 = vsub_w(v, vscale_w(vdot_w(v, n_i), n_i));
            o_i = vnormalize_w(v2);
            q += 1;
        }
        o_field[i] = o_i;
        proof {
            assert(o_field@ == cur.update(i as int, relax_vertex(m, cur, i as int)));
        }
        t += 1;
    }
}

/// The sign-dependent orthonormal tangent basis of a unit normal; the
/// branch is only on the sign of the normal's last component, which
/// keeps the construction stable for every orientation.
pub open spec fn basis_x(nrm: V3) -> V3 {
    let sign = if flt(nrm.z, F_ZERO) {
        F_NEG_ONE
    } else {
        F_ONE
    };
    let a = fdiv(F_NEG_ONE, fadd(sign, nrm.z));
    let b = fmul(fmul(nrm.x, nrm.y), a);
    V3 {
        x: fadd(F_ONE, fmul(fmul(fmul(sign, nrm.x), nrm.x), a)),
        y: fmul(sign, b),
        z: fmul(fneg(sign), nrm.x),
    }
}

/// The second vector of the tangent basis.
pub open spec fn basis_y(nrm: V3) -> V3 {
    let sign = if flt(nrm.z, F_ZERO) {
        F_NEG_ONE
    } else {
        F_ONE
    };
    let a = fdiv(F_NEG_ONE, fadd(sign, nrm.z));
    let b = fmul(fmul(nrm.x, nrm.y), a);
    V3 { x: b, y: fadd(sign, fmul(fmul(nrm.y, nrm.y), a)), z: fneg(nrm.y) }
}

/// Computes the tangent basis of a normal.
pub fn basis_e(nrm: V3) -> (r: (V3, V3))
    ensures
        r.0 == basis_x(nrm),
        r.1 == basis_y(nrm),
{
    let sign = if flt_w(nrm.z, F_ZERO) {
        F_NEG_ONE
    } else {
        F_ONE
    };
    let a = fdiv_e(F_NEG_ONE, fadd_e(sign, nrm.z));
    let b = fmul_e(fmul_e(nrm.x, nrm.y), a);
    let bx = V3 {
        x: fadd_e(F_ONE, fmul_e(fmul_e(fmul_e(sign, nrm.x), nrm.x), a)),
        y: fmul_e(sign, b),
        z: fmul_e(fneg_e(sign), nrm.x),
    };
    let by = V3 { x: b, y: fadd_e(sign, fmul_e(fmul_e(nrm.y, nrm.y), a)), z: fneg_e(nrm.y) };
    (bx, by)
}

/// The seeded field at the coarsest level, over the first `k` vertices:
/// each vertex draws one generator value and points along a random
/// angle in its tangent plane.  The cosine and sine of each angle come
/// from the platform's trigonometry and are taken as given in `trig`.
pub open spec fn init_upto(norms: Seq<V3>, rng0: u64, trig: Seq<(u32, u32)>, k: int) -> (
    Seq<V3>,
    u64,
)
    decreases k,
{
    if k <= 0 {
        (Seq::empty(), rng0)
    } else {
        let (prev, rng) = init_upto(norms, rng0, trig, k - 1);
        let (rng2, out) = sm_next(rng);
        let c = trig[k - 1].0;
        let s = trig[k - 1].1;
        (
            prev.push(vadd(vscale(c, basis_x(norms[k - 1])), vscale(s, basis_y(norms[k - 1])))),
            rng2,
        )
    }
}

/// The seeded field only reads the trigonometry of the vertices it has
/// reached.
pub proof fn lemma_init_agree(
    norms: Seq<V3>,
    rng0: u64,
    trig1: Seq<(u32, u32)>,
    trig2: Seq<(u32, u32)>,
    k: int,
)
    requires
        forall|p: int| 0 <= p < k ==> trig1[p] == #[trigger] trig2[p],
    ensures
        init_upto(norms, rng0, trig1, k) == init_upto(norms, rng0, trig2, k),
    decreases k,
{
    if k > 0 {
        lemma_init_agree(norms, rng0, trig1, trig2, k - 1);
    }
}

/// The field of every vertex of a coarser level, carried up to the next
/// finer one along the fine-to-coarse mapping.
pub open spec fn upsample(coarse: Seq<V3>, up: Seq<usize>) -> Seq<V3> {
    Seq::new(up.len(), |v: int| coarse[up[v] as int])
}

/// The field and generator state after running `cnt` sweeps at one
/// level.
pub open spec fn sweeps_spec(m: MeshModel, field: Seq<V3>, rng: u64, cnt: int) -> (Seq<V3>, u64)
    decreases cnt,
{
    if cnt <= 0 {
        (field, rng)
    } else {
        let prev = sweeps_spec(m, field, rng, cnt - 1);
        smooth_spec(m, prev.0, prev.1)
    }
}

/// The field and generator state after processing levels 0 through `k`:
/// the coarsest level is seeded and relaxed, and every finer level
/// inherits its coarse ancestors' directions and is relaxed in turn.
pub open spec fn solve_from(
    h: Seq<HierarchyLevel>,
    iterations: int,
    trig: Seq<(u32, u32)>,
    k: int,
) -> (Seq<V3>, u64)
    decreases k,
{
    if k <= 0 {
        let init = init_upto(h[0].mesh.model().norms, 0u64, trig, h[0].mesh.model().n() as int);
        sweeps_spec(h[0].mesh.model(), init.0, init.1, iterations)
    } else {
        let prev = solve_from(h, iterations, trig, k - 1);
        let fi = upsample(prev.0, h[k].up_mapping@);
        sweeps_spec(h[k].mesh.model(), fi, prev.1, iterations)
    }
}

/// The orientation field of the finest level of the hierarchy.
pub open spec fn solve_spec(h: Seq<HierarchyLevel>, iterations: int, trig: Seq<(u32, u32)>) -> Seq<
    V3,
> {
    solve_from(h, iterations, trig, h.len() - 1).0
}

/// The solver reads nothing of a hierarchy but its level models and
/// mappings: two hierarchies that agree there drive it to the same
/// field.
pub proof fn lemma_solve_from_congruent(
    h1: Seq<HierarchyLevel>,
    h2: Seq<HierarchyLevel>,
    iterations: int,
    trig: Seq<(u32, u32)>,
    k: int,
)
    requires
        h1.len() == h2.len(),
        forall|j: int| 0 <= j < h1.len() ==> (#[trigger] h1[j]).mesh.model() == h2[j].mesh.model(),
        forall|j: int| 0 < j < h1.len() ==> (#[trigger] h1[j]).up_mapping@ == h2[j].up_mapping@,
        0 <= k < h1.len(),
    ensures
        solve_from(h1, iterations, trig, k) == solve_from(h2, iterations, trig, k),
    decreases k,
{
    if k > 0 {
        lemma_solve_from_congruent(h1, h2, iterations, trig, k - 1);
    }
}

/// Determinism of the whole solve: any two hierarchies coarsened from
/// the same mesh drive the solver to the same field, for the same sweep
/// count and the same drawn cosines and sines.  Apart from the
/// platform's trigonometry, the field is a function of the mesh, the
/// sweep count and the fixed seed alone.
pub proof fn lemma_solve_determined_by_mesh(
    m: crate::hierarchy::MeshModel,
    r1: Seq<HierarchyLevel>,
    r2: Seq<HierarchyLevel>,
    iterations: int,
    trig: Seq<(u32, u32)>,
)
    requires
        crate::hierarchy::hierarchy_describes(m, r1),
        crate::hierarchy::hierarchy_describes(m, r2),
    ensures
        solve_spec(r1, iterations, trig) == solve_spec(r2, iterations, trig),
{
    crate::hierarchy::lemma_build_unique(m, r1, r2);
    lemma_solve_from_congruent(r1, r2, iterations, trig, r1.len() - 1);
}

/// Computes the orientation field of the finest mesh of a built
/// hierarchy: the coarsest level is seeded with random tangent
/// directions from a fixed-seed generator, every level is relaxed with
/// the given number of randomized sweeps, and each finer level starts
/// from its coarse ancestors' directions.  One seeded generator is
/// threaded through the whole descent, so the result is reproducible.
pub fn hierarchical_smoothing(hierarchy: &Vec<HierarchyLevel>, iterations: usize) -> (r: Vec<V3>)
    requires
        hierarchy_wf(hierarchy@),
    ensures
        r@.len() == hierarchy@[hierarchy@.len() - 1].mesh.vcount(),
        exists|trig: Seq<(u32, u32)>|
            trig.len() == hierarchy@[0].mesh.vcount() && r@ == #[trigger] solve_spec(
                hierarchy@,
                iterations as int,
                trig,
            ),
{
    let ghost h = hierarchy@;
    let mut rng = Prng64::seed_from_u64(0);
    let mesh0 = &hierarchy[0].mesh;
    let n0 = mesh0.vertices.len();
    let mut field: Vec<V3> = Vec::new();
    let ghost mut trig: Seq<(u32, u32)> = Seq::empty();
    let mut i: usize = 0;
    while i < n0
        invariant
            i <= n0,
            mesh0.wf(),
            mesh0.model() == hierarchy@[0].mesh.model(),
            n0 == mesh0.model().n(),
            trig.len() == i,
            (field@, rng.state) == init_upto(mesh0.model().norms, 0u64, trig, i as int),
            field@.len() == i,
        decreases n0 - i,
    {
        let ghost trig_old = trig;
        let nrm = mesh0.normals[i];
        let (bx, by) = basis_e(nrm);
        let out = rng.next_u64();
        let u = out >> 48;
        let unit = fmul_e(float_of_int_w(u), F_TWO_NEG16);
        let theta = fmul_e(unit, F_TAU);
        let cs = cos_sin_w(theta);
        proof {
            trig = trig.push((cs.0, cs.1));
            lemma_init_agree(mesh0.model().norms, 0u64, trig_old, trig, i as int);
        }
        field.push(vadd_w(vscale_w(cs.0, bx), vscale_w(cs.1, by)));
        i += 1;
    }
    let ghost trig0 = trig;
    let mut s: usize = 0;
    while s < iterations
        invariant
            s <= iterations,
            mesh0.wf(),
            mesh0.model() == hierarchy@[0].mesh.model(),
            n0 == mesh0.model().n(),
            field@.len() == n0,
            (field@, rng.state) == sweeps_spec(
                mesh0.model(),
                init_upto(mesh0.model().norms, 0u64, trig0, n0 as int).0,
                init_upto(mesh0.model().norms, 0u64, trig0, n0 as int).1,
                s as int,
            ),
        decreases iterations - s,
    {
        extrinsic_smooth(mesh0, &mut field, &mut rng);
        s += 1;
    }
    assert((field@, rng.state) == solve_from(h, iterations as int, trig0, 0));
    let mut k: usize = 1;
    while k < hierarchy.len()
        invariant
            1 <= k <= hierarchy@.len(),
            h == hierarchy@,
            hierarchy_wf(h),
            field@.len() == h[k - 1].mesh.vcount(),
            (field@, rng.state) == solve_from(h, iterations as int, trig0, k as int - 1),
        decreases hierarchy@.len() - k,
    {
        let level = &hierarchy[k];
        let nk = level.up_mapping.len();
        let mut fi: Vec<V3> = Vec::new();
        let mut v: usize = 0;
        while v < nk
            invariant
                v <= nk,
                level.up_mapping@ == hierarchy@[k as int].up_mapping@,
                1 <= k < hierarchy@.len(),
                h == hierarchy@,
                hierarchy_wf(h),
                nk == level.up_mapping@.len(),
                field@.len() == h[k - 1].mesh.vcount(),
                fi@.len() == v,
                forall|p: int|
                    0 <= p < v ==> #[trigger] fi@[p] == field@[level.up_mapping@[p] as int],
            decreases nk - v,
        {
            let u = level.up_mapping[v];
            assert(u < h[k - 1].mesh.vcount());
            fi.push(field[u]);
            v += 1;
        }
        assert(fi@ =~= upsample(field@, level.up_mapping@));
        let ghost f_start = fi@;
        let ghost r_start = rng.state;
        let mut s2: usize = 0;
        let mesh_k = &level.mesh;
        assert(mesh_k.wf());
        assert(fi@.len() == mesh_k.model().n());
        while s2 < iterations
            invariant
                s2 <= iterations,
                mesh_k.model() == hierarchy@[k as int].mesh.model(),
                1 <= k < hierarchy@.len(),
                mesh_k.wf(),
                fi@.len() == mesh_k.model().n(),
                (fi@, rng.state) == sweeps_spec(mesh_k.model(), f_start, r_start, s2 as int),
            decreases iterations - s2,
        {
            extrinsic_smooth(mesh_k, &mut fi, &mut rng);
            s2 += 1;
        }
        field = fi;
        proof {
            assert((field@, rng.state) == solve_from(h, iterations as int, trig0, k as int));
        }
        k += 1;
    }
    proof {
        assert(k == hierarchy@.len());
        assert(trig0.len() == hierarchy@[0].mesh.vcount() && field@ == solve_spec(
            hierarchy@,
            iterations as int,
            trig0,
        ));
    }
    field
}

} // verus!
