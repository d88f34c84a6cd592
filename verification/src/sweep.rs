//! Broad phase: sort the particles by leftmost x extent, then sweep once
//! with an ordered active set, recording a candidate pair whenever the
//! current particle's left extent still reaches an active particle's right
//! extent, and evicting an active particle once its right extent falls
//! short of the current left extent.  Because left extents are
//! nondecreasing along the sweep, an evicted particle can never overlap a
//! later one, so no true overlap is missed.  Candidates are pairs of
//! particle ids, the later particle of the sorted order first.

use crate::collide::circles_overlap;
use crate::particle::{left_ext, particle_bounded, right_ext, Particle};
use vstd::prelude::*;

verus! {

/// The list is sorted by leftmost x extent, ascending.
pub open spec fn sorted_by_left(s: Seq<Particle>) -> bool {
    forall|i: int, j: int| 0 <= i <= j < s.len() ==> left_ext(s[i]) <= left_ext(s[j])
}

/// All ids are pairwise distinct.
pub open spec fn unique_ids(s: Seq<Particle>) -> bool {
    forall|i: int, j: int| 0 <= i < j < s.len() ==> s[i].id != s[j].id
}

/// The candidate list holds the pair of the ids of particles `i` and `j`.
pub open spec fn recorded(s: Seq<Particle>, pairs: Seq<(usize, usize)>, i: int, j: int) -> bool {
    pairs.contains((s[i].id, s[j].id))
}

/// Every pair the sweep can still see is recorded: if no particle strictly
/// between `j` and `i` (nor `i` itself) starts past `j`'s right extent,
/// the pair of `i` and `j` is among the candidates.
pub open spec fn sweep_complete(s: Seq<Particle>, pairs: Seq<(usize, usize)>) -> bool {
    forall|i: int, j: int|
        0 <= j < i < s.len() && (forall|k: int|
            j < k <= i ==> left_ext(#[trigger] s[k]) <= right_ext(s[j])) ==> #[trigger] recorded(
            s,
            pairs,
            i,
            j,
        )
}

/// The candidate refers to two distinct positions of the list, later one
/// first, whose x extents overlapped when it was recorded.
pub open spec fn pair_from(s: Seq<Particle>, pr: (usize, usize)) -> bool {
    exists|i: int, j: int|
        0 <= j < i < s.len() && pr == (s[i].id, s[j].id) && left_ext(s[i]) <= right_ext(s[j])
}

/// Every candidate comes from a real pair of the list.
pub open spec fn sweep_sound(s: Seq<Particle>, pairs: Seq<(usize, usize)>) -> bool {
    forall|t: int| 0 <= t < pairs.len() ==> pair_from(s, #[trigger] pairs[t])
}

/// `j` occurs among the first `m` entries of the active set.
pub open spec fn has_up_to(act: Seq<usize>, j: int, m: int) -> bool {
    exists|mm: int| 0 <= mm < m && (#[trigger] act[mm]) as int == j
}

/// `j` occurs in the active set.
pub open spec fn active_has(act: Seq<usize>, j: int) -> bool {
    has_up_to(act, j, act.len() as int)
}

/// Swapping two positions of a sequence preserves its multiset.
proof fn lemma_swap_multiset(s: Seq<Particle>, i: int, j: int)
    requires
        0 <= i < s.len(),
        0 <= j < s.len(),
        i != j,
    ensures
        s.update(i, s[j]).update(j, s[i]).to_multiset() == s.to_multiset(),
{
    broadcast use vstd::seq_lib::group_to_multiset_ensures;
    broadcast use vstd::seq_lib::to_multiset_update;

    let s1 = s.update(i, s[j]);
    let s2 = s1.update(j, s[i]);
    assert(s.contains(s[i]));
    assert(s1[j] == s[j]);
    assert(s1.to_multiset() == s.to_multiset().insert(s[j]).remove(s[i]));
    assert(s2.to_multiset() == s1.to_multiset().insert(s[i]).remove(s[j]));
    assert(s2.to_multiset() =~= s.to_multiset());
}

/// Sort the particles by leftmost x extent with insertion sort.  The
/// result is a permutation of the input; ties keep their relative order.
pub fn sort_by_left_extent(ps: &mut Vec<Particle>)
    requires
        forall|k: int| 0 <= k < old(ps)@.len() ==> particle_bounded(#[trigger] old(ps)@[k]),
    ensures
        final(ps)@.len() == old(ps)@.len(),
        final(ps)@.to_multiset() == old(ps)@.to_multiset(),
        sorted_by_left(final(ps)@),
        forall|k: int| 0 <= k < final(ps)@.len() ==> particle_bounded(#[trigger] final(ps)@[k]),
{
    let ghost orig = ps@;
    let n = ps.len();
    if n == 0 {
        return ;
    }
    let mut i: usize = 1;
    while i < n
        invariant
            1 <= i <= n,
            n == ps@.len(),
            ps@.to_multiset() == orig.to_multiset(),
            orig.len() == n,
            forall|k: int| 0 <= k < n ==> particle_bounded(#[trigger] ps@[k]),
            forall|k1: int, k2: int|
                0 <= k1 <= k2 < i as int ==> left_ext(ps@[k1]) <= left_ext(ps@[k2]),
        decreases n - i,
    {
        let mut j: usize = i;
        while j > 0 && ps[j - 1].x - ps[j - 1].radius > ps[j].x - ps[j].radius
            invariant
                0 <= j <= i < n,
                n == ps@.len(),
                ps@.to_multiset() == orig.to_multiset(),
                orig.len() == n,
                forall|k: int| 0 <= k < n ==> particle_bounded(#[trigger] ps@[k]),
                forall|k1: int, k2: int|
                    0 <= k1 <= k2 <= i as int && k1 != j as int && k2 != j as int ==> left_ext(
                        ps@[k1],
                    ) <= left_ext(ps@[k2]),
                forall|k: int|
                    (j as int) < k <= i as int ==> left_ext(ps@[j as int]) <= left_ext(
                        #[trigger] ps@[k],
                    ),
            decreases j,
        {
            let tmp_small = ps[j];
            let tmp_big = ps[j - 1];
            let ghost pre = ps@;
            ps[j - 1] = tmp_small;
            ps[j] = tmp_big;
            proof {
                lemma_swap_multiset(pre, j as int - 1, j as int);
                assert(ps@ =~= pre.update(j as int - 1, pre[j as int]).update(
                    j as int,
                    pre[j as int - 1],
                ));
            }
            j = j - 1;
        }
        i = i + 1;
    }
}

/// One sweep over the sorted particles.  Walking left to right, compare
/// the current particle with every particle of the active set, record the
/// ids of each pair whose x extents still overlap, drop active particles
/// whose right extent no longer reaches the current left extent, and add
/// the current particle to the set.
pub fn sweep_candidates(ps: &Vec<Particle>) -> (pairs: Vec<(usize, usize)>)
    requires
        forall|k: int| 0 <= k < ps@.len() ==> particle_bounded(#[trigger] ps@[k]),
    ensures
        pairs@.len() <= ps@.len() * ps@.len(),
        sweep_sound(ps@, pairs@),
        sweep_complete(ps@, pairs@),
{
    let n = ps.len();
    let mut pairs: Vec<(usize, usize)> = Vec::new();
    let mut active: Vec<usize> = Vec::new();
    let mut i: usize = 0;
    while i < n
        invariant
            i <= n,
            n == ps@.len(),
            forall|k: int| 0 <= k < n ==> particle_bounded(#[trigger] ps@[k]),
            pairs@.len() <= i as int * n as int,
            forall|m: int| 0 <= m < active@.len() ==> ((#[trigger] active@[m]) as int) < i as int,
            forall|m1: int, m2: int|
                0 <= m1 < m2 < active@.len() ==> (#[trigger] active@[m1]) < (
                #[trigger] active@[m2]),
            forall|m: int| 0 <= m < active@.len() ==> m <= (#[trigger] active@[m]) as int,
            forall|m: int, k: int|
                0 <= m < active@.len() && ((#[trigger] active@[m]) as int) < k < i as int
                    ==> left_ext(#[trigger] ps@[k]) <= right_ext(ps@[active@[m] as int]),
            forall|j: int|
                0 <= j < i as int && (forall|k: int|
                    j < k < i as int ==> left_ext(#[trigger] ps@[k]) <= right_ext(ps@[j]))
                    ==> #[trigger] active_has(active@, j),
            forall|i2: int, j: int|
                0 <= j < i2 < i as int && (forall|k: int|
                    j < k <= i2 ==> left_ext(#[trigger] ps@[k]) <= right_ext(ps@[j]))
                    ==> #[trigger] recorded(ps@, pairs@, i2, j),
            sweep_sound(ps@, pairs@),
        decreases n - i,
    {
        let cur_left = ps[i].x - ps[i].radius;
        // record a candidate for every active particle still reached
        let mut m: usize = 0;
        let ghost pairs0 = pairs@;
        while m < active.len()
            invariant
                m <= active@.len(),
                i < n,
                n == ps@.len(),
                forall|k: int| 0 <= k < n ==> particle_bounded(#[trigger] ps@[k]),
                cur_left == left_ext(ps@[i as int]),
                forall|mm: int|
                    0 <= mm < active@.len() ==> ((#[trigger] active@[mm]) as int) < i as int,
                pairs@.len() <= pairs0.len() + m as int,
                pairs0.is_prefix_of(pairs@),
                forall|m2: int|
                    0 <= m2 < m as int && left_ext(ps@[i as int]) <= right_ext(
                        ps@[(#[trigger] active@[m2]) as int],
                    ) ==> recorded(ps@, pairs@, i as int, active@[m2] as int),
                sweep_sound(ps@, pairs@),
            decreases active@.len() - m,
        {
            let aj = active[m];
            let ghost before_push = pairs@;
            if cur_left <= ps[aj].x + ps[aj].radius {
                let pr = (ps[i].id, ps[aj].id);
                pairs.push(pr);
                proof {
                    assert(pair_from(ps@, pr)) by {
                        assert(0 <= aj as int && (aj as int) < i as int && (i as int) < ps@.len() && pr == (
                            ps@[i as int].id,
                            ps@[aj as int].id,
                        ) && left_ext(ps@[i as int]) <= right_ext(ps@[aj as int]));
                    }
                    assert forall|t: int| 0 <= t < pairs@.len() implies pair_from(
                        ps@,
                        #[trigger] pairs@[t],
                    ) by {
                        if t < before_push.len() {
                            assert(pairs@[t] == before_push[t]);
                        } else {
                            assert(pairs@[t] == pr);
                        }
                    }
                    assert forall|m2: int|
                        0 <= m2 < m as int + 1 && left_ext(ps@[i as int]) <= right_ext(
                            ps@[(#[trigger] active@[m2]) as int],
                        ) implies recorded(ps@, pairs@, i as int, active@[m2] as int) by {
                        if m2 < m as int {
                            assert(recorded(ps@, before_push, i as int, active@[m2] as int));
                            let t = choose|t: int|
                                0 <= t < before_push.len() && before_push[t] == (
                                ps@[i as int].id,
                                ps@[active@[m2] as int].id,
                                );
                            assert(pairs@[t] == (ps@[i as int].id, ps@[active@[m2] as int].id));
                        } else {
                            assert(pairs@[pairs@.len() - 1] == (
                                ps@[i as int].id,
                                ps@[active@[m2] as int].id,
                            ));
                        }
                    }
                }
            }
            m = m + 1;
        }
        // drop active particles the sweep has passed, keep the rest in order
        let ghost act0 = active@;
        let mut kept: Vec<usize> = Vec::new();
        let mut m2: usize = 0;
        while m2 < active.len()
            invariant
                m2 <= active@.len(),
                i < n,
                n == ps@.len(),
                forall|k: int| 0 <= k < n ==> particle_bounded(#[trigger] ps@[k]),
                cur_left == left_ext(ps@[i as int]),
                act0 == active@,
                forall|mm: int|
                    0 <= mm < active@.len() ==> ((#[trigger] active@[mm]) as int) < i as int,
                forall|mm1: int, mm2: int|
                    0 <= mm1 < mm2 < active@.len() ==> (#[trigger] active@[mm1]) < (
                    #[trigger] active@[mm2]),
                forall|mm: int| 0 <= mm < active@.len() ==> mm <= (#[trigger] active@[mm]) as int,
                kept@.len() <= m2 as int,
                forall|mm: int| 0 <= mm < kept@.len() ==> ((#[trigger] kept@[mm]) as int) < i as int,
                forall|mm1: int, mm2: int|
                    0 <= mm1 < mm2 < kept@.len() ==> (#[trigger] kept@[mm1]) < (
                    #[trigger] kept@[mm2]),
                forall|mm: int| 0 <= mm < kept@.len() ==> mm <= (#[trigger] kept@[mm]) as int,
                forall|mm: int|
                    0 <= mm < kept@.len() ==> left_ext(ps@[i as int]) <= right_ext(
                        ps@[(#[trigger] kept@[mm]) as int],
                    ),
                forall|mm: int|
                    0 <= mm < kept@.len() ==> exists|mo: int|
                        0 <= mo < m2 as int && (#[trigger] kept@[mm]) == active@[mo],
                forall|jj: int|
                    #[trigger] active_has(kept@, jj) <==> (has_up_to(active@, jj, m2 as int)
                        && left_ext(ps@[i as int]) <= right_ext(ps@[jj])),
            decreases active@.len() - m2,
        {
            let aj = active[m2];
            let ghost kept_old = kept@;
            if cur_left <= ps[aj].x + ps[aj].radius {
                proof {
                    if kept@.len() > 0 {
                        let mo = choose|mo: int|
                            0 <= mo < m2 as int && (#[trigger] kept@[kept@.len() - 1])
                                == active@[mo];
                        assert(active@[mo] < active@[m2 as int]);
                        assert(kept@[kept@.len() - 1] as int <= active@[m2 as int] as int - 1);
                    }
                }
                kept.push(aj);
                proof {
                    assert forall|jj: int| #[trigger]
                        active_has(kept@, jj) implies (has_up_to(active@, jj, m2 as int + 1)
                        && left_ext(ps@[i as int]) <= right_ext(ps@[jj])) by {
                        let mm = choose|mm: int|
                            0 <= mm < kept@.len() && (#[trigger] kept@[mm]) as int == jj;
                        if mm < kept@.len() - 1 {
                            assert(kept_old[mm] as int == jj);
                            assert(active_has(kept_old, jj));
                        } else {
                            assert(active@[m2 as int] as int == jj);
                        }
                    }
                    assert forall|jj: int|
                        (has_up_to(active@, jj, m2 as int + 1) && left_ext(ps@[i as int])
                            <= right_ext(ps@[jj])) implies #[trigger] active_has(kept@, jj) by {
                        let mm = choose|mm: int|
                            0 <= mm < m2 as int + 1 && (#[trigger] active@[mm]) as int == jj;
                        if mm < m2 as int {
                            assert(has_up_to(active@, jj, m2 as int));
                            assert(active_has(kept_old, jj));
                            let mo = choose|mo: int|
                                0 <= mo < kept_old.len() && (#[trigger] kept_old[mo]) as int == jj;
                            assert(kept@[mo] as int == jj);
                        } else {
                            assert(kept@[kept@.len() - 1] as int == jj);
                        }
                    }
                }
            } else {
                proof {
                    assert forall|jj: int|
                        (has_up_to(active@, jj, m2 as int + 1) && left_ext(ps@[i as int])
                            <= right_ext(ps@[jj])) implies #[trigger] active_has(kept@, jj) by {
                        let mm = choose|mm: int|
                            0 <= mm < m2 as int + 1 && (#[trigger] active@[mm]) as int == jj;
                        assert(mm != m2 as int);
                        assert(has_up_to(active@, jj, m2 as int));
                    }
                }
            }
            m2 = m2 + 1;
        }
        // the current particle becomes active
        let ghost kept_pre = kept@;
        kept.push(i);
        active = kept;
        proof {
            assert(kept_pre.len() <= act0.len());
            assert(act0.len() <= i as int) by {
                if act0.len() > 0 {
                    assert(act0.len() - 1 <= act0[act0.len() - 1] as int);
                }
            }
            assert forall|j: int|
                0 <= j < i as int + 1 && (forall|k: int|
                    j < k < i as int + 1 ==> left_ext(#[trigger] ps@[k]) <= right_ext(
                        ps@[j],
                    )) implies #[trigger] active_has(active@, j) by {
                if j == i as int {
                    assert(active@[active@.len() - 1] as int == j);
                } else {
                    assert(forall|k: int|
                        j < k < i as int ==> left_ext(#[trigger] ps@[k]) <= right_ext(ps@[j]));
                    assert(active_has(act0, j));
                    assert(left_ext(ps@[i as int]) <= right_ext(ps@[j]));
                    assert(active_has(kept_pre, j));
                    let mm = choose|mm: int|
                        0 <= mm < kept_pre.len() && (#[trigger] kept_pre[mm]) as int == j;
                    assert(active@[mm] as int == j);
                }
            }
            assert forall|i2: int, j: int|
                0 <= j < i2 < i as int + 1 && (forall|k: int|
                    j < k <= i2 ==> left_ext(#[trigger] ps@[k]) <= right_ext(
                        ps@[j],
                    )) implies #[trigger] recorded(ps@, pairs@, i2, j) by {
                if i2 == i as int {
                    assert(forall|k: int|
                        j < k < i as int ==> left_ext(#[trigger] ps@[k]) <= right_ext(ps@[j]));
                    assert(active_has(act0, j));
                    let mm = choose|mm: int|
                        0 <= mm < act0.len() && (#[trigger] act0[mm]) as int == j;
                    assert(left_ext(ps@[i as int]) <= right_ext(ps@[act0[mm] as int]));
                    assert(recorded(ps@, pairs@, i as int, act0[mm] as int));
                } else {
                    assert(recorded(ps@, pairs0, i2, j));
                    let t = choose|t: int|
                        0 <= t < pairs0.len() && #[trigger] pairs0[t] == (ps@[i2].id, ps@[j].id);
                    assert(pairs@[t] == (ps@[i2].id, ps@[j].id));
                }
            }
            assert(pairs@.len() <= (i as int + 1) * n as int) by (nonlinear_arith)
                requires
                    pairs@.len() <= i as int * n as int + act0.len(),
                    act0.len() <= n as int,
                    0 <= i as int,
                    0 <= n as int,
            ;
        }
        i = i + 1;
    }
    pairs
}

/// A true circle overlap implies overlap of the x extents.
pub proof fn lemma_overlap_x(a: Particle, p: Particle)
    requires
        circles_overlap(a, p),
        a.radius > 0,
        p.radius > 0,
    ensures
        left_ext(p) <= right_ext(a),
        left_ext(a) <= right_ext(p),
{
    let dx = p.x - a.x;
    let rs = a.radius + p.radius;
    assert(-rs <= dx <= rs) by (nonlinear_arith)
        requires
            dx * dx + (p.y - a.y) * (p.y - a.y) <= rs * rs,
            rs > 0,
    ;
}

/// Broad-phase soundness: on a list sorted by left extent, every truly
/// overlapping pair appears among the sweep's candidates.  Left extents
/// are nondecreasing along the sweep, so a particle is evicted only once
/// nothing later can reach it, and no true overlap is missed.
pub proof fn lemma_broad_phase_complete(
    s: Seq<Particle>,
    pairs: Seq<(usize, usize)>,
    i: int,
    j: int,
)
    requires
        sweep_complete(s, pairs),
        sorted_by_left(s),
        0 <= j < i < s.len(),
        s[i].radius > 0,
        s[j].radius > 0,
        circles_overlap(s[j], s[i]),
    ensures
        pairs.contains((s[i].id, s[j].id)),
{
    lemma_overlap_x(s[j], s[i]);
    assert(forall|k: int| j < k <= i ==> left_ext(#[trigger] s[k]) <= right_ext(s[j])) by {
        assert(forall|k: int| j < k <= i ==> left_ext(#[trigger] s[k]) <= left_ext(s[i]));
    }
    assert(recorded(s, pairs, i, j));
}

/// Id stability: reordering the particle list never re-binds an id.  In
/// any permutation of a list with pairwise distinct ids, looking a
/// particle up by id before and after yields the same physical state.
pub proof fn lemma_id_lookup_stable(s1: Seq<Particle>, s2: Seq<Particle>, i: int, j: int)
    requires
        s1.to_multiset() == s2.to_multiset(),
        unique_ids(s1),
        0 <= i < s1.len(),
        0 <= j < s2.len(),
        s1[i].id == s2[j].id,
    ensures
        s1[i] == s2[j],
{
    broadcast use vstd::seq_lib::group_to_multiset_ensures;

    assert(s2.contains(s2[j]));
    assert(s1.to_multiset().count(s2[j]) > 0);
    assert(s1.contains(s2[j]));
    let k = choose|k: int| 0 <= k < s1.len() && s1[k] == s2[j];
    assert(s1[k].id == s1[i].id);
    assert(k == i);
}

/// Permuting a list with pairwise distinct ids below a bound keeps the ids
/// pairwise distinct and below the bound.
pub proof fn lemma_wf_ids_permuted(s1: Seq<Particle>, s2: Seq<Particle>, n: int)
    requires
        s1.to_multiset() == s2.to_multiset(),
        unique_ids(s1),
        forall|k: int| 0 <= k < s1.len() ==> (#[trigger] s1[k]).id < n,
    ensures
        unique_ids(s2),
        forall|k: int| 0 <= k < s2.len() ==> (#[trigger] s2[k]).id < n,
{
    broadcast use vstd::seq_lib::group_to_multiset_ensures;

    assert(s1.no_duplicates()) by {
        assert forall|i: int, j: int|
            0 <= i < s1.len() && 0 <= j < s1.len() && i != j implies s1[i] != s1[j] by {
            if i < j {
                assert(s1[i].id != s1[j].id);
            } else {
                assert(s1[j].id != s1[i].id);
            }
        }
    }
    s1.lemma_multiset_has_no_duplicates();
    s2.lemma_multiset_has_no_duplicates_conv();
    assert forall|k: int| 0 <= k < s2.len() implies (#[trigger] s2[k]).id < n by {
        assert(s2.contains(s2[k]));
        assert(s1.to_multiset().count(s2[k]) > 0);
        assert(s1.contains(s2[k]));
    }
    assert forall|i: int, j: int| 0 <= i < j < s2.len() implies s2[i].id != s2[j].id by {
        assert(s2[i] != s2[j]);
        assert(s1.contains(s2[i]) && s1.contains(s2[j])) by {
            assert(s2.contains(s2[i]) && s2.contains(s2[j]));
            assert(s1.to_multiset().count(s2[i]) > 0 && s1.to_multiset().count(s2[j]) > 0);
        }
        let k1 = choose|k1: int| 0 <= k1 < s1.len() && s1[k1] == s2[i];
        let k2 = choose|k2: int| 0 <= k2 < s1.len() && s1[k2] == s2[j];
        assert(k1 != k2);
        if k1 < k2 {
            assert(s1[k1].id != s1[k2].id);
        } else {
            assert(s1[k2].id != s1[k1].id);
        }
    }
}

} // verus!
