//! The alias overlay: a may-point-to relation between slots, grown
//! whenever a reference is taken and never shrunk.  Writing taint to a
//! slot writes it to the slot's whole alias group — the transitive
//! closure of the relation — so taint written through one reference is
//! visible through all of its aliases.

use vstd::prelude::*;

use crate::taint_domain::TaintState;

verus! {

/// May-point-to edges between slots; an edge `(a, b)` records that a
/// value written through `a` may land in `b`.
pub struct PointsMap {
    edges: Vec<(usize, usize)>,
}

impl View for PointsMap {
    type V = Seq<(usize, usize)>;

    closed spec fn view(&self) -> Seq<(usize, usize)> {
        self.edges@
    }
}

/// Adding an edge, without duplicates.
pub open spec fn spec_add_edge(e: Seq<(usize, usize)>, from: usize, to: usize) -> Seq<
    (usize, usize),
> {
    if e.contains((from, to)) {
        e
    } else {
        e.push((from, to))
    }
}

/// `b` can be reached from `a` along at most `fuel` edges.
pub open spec fn reaches(e: Seq<(usize, usize)>, a: int, b: int, fuel: nat) -> bool
    decreases fuel,
{
    a == b || (fuel > 0 && exists|k: int|
        0 <= k < e.len() && (#[trigger] e[k]).0 == a && reaches(
            e,
            e[k].1 as int,
            b,
            (fuel - 1) as nat,
        ))
}

/// `b` belongs to the alias group of `a`: it is reachable from `a`
/// along the edges, in any number of steps.
pub open spec fn in_group(e: Seq<(usize, usize)>, a: int, b: int) -> bool {
    exists|fuel: nat| reaches(e, a, b, fuel)
}

/// A set of slots closed under the edges: following any edge out of
/// the set stays in the set.
pub open spec fn closed_under(e: Seq<(usize, usize)>, s: Set<int>) -> bool {
    forall|k: int|
        0 <= k < e.len() && s.contains((#[trigger] e[k]).0 as int) ==> s.contains(e[k].1 as int)
}

/// Reachability is monotone in the fuel.
proof fn lemma_reaches_mono(e: Seq<(usize, usize)>, a: int, b: int, f1: nat, f2: nat)
    requires
        f1 <= f2,
        reaches(e, a, b, f1),
    ensures
        reaches(e, a, b, f2),
    decreases f1,
{
    if a != b {
        let k = choose|k: int|
            0 <= k < e.len() && (#[trigger] e[k]).0 == a && reaches(
                e,
                e[k].1 as int,
                b,
                (f1 - 1) as nat,
            );
        lemma_reaches_mono(e, e[k].1 as int, b, (f1 - 1) as nat, (f2 - 1) as nat);
    }
}

/// Every slot is in its own alias group.
pub proof fn lemma_in_group_refl(e: Seq<(usize, usize)>, a: int)
    ensures
        in_group(e, a, a),
{
    assert(reaches(e, a, a, 0));
}

/// A path can be extended by one more edge at its end.
proof fn lemma_reaches_extend(e: Seq<(usize, usize)>, a: int, k: int, fuel: nat)
    requires
        0 <= k < e.len(),
        reaches(e, a, e[k].0 as int, fuel),
    ensures
        reaches(e, a, e[k].1 as int, (fuel + 1) as nat),
    decreases fuel,
{
    if a == e[k].0 as int {
        assert(reaches(e, e[k].1 as int, e[k].1 as int, 0));
        assert(reaches(e, a, e[k].1 as int, 1));
        lemma_reaches_mono(e, a, e[k].1 as int, 1, (fuel + 1) as nat);
    } else {
        let k0 = choose|k0: int|
            0 <= k0 < e.len() && (#[trigger] e[k0]).0 == a && reaches(
                e,
                e[k0].1 as int,
                e[k].0 as int,
                (fuel - 1) as nat,
            );
        lemma_reaches_extend(e, e[k0].1 as int, k, (fuel - 1) as nat);
        assert(reaches(e, a, e[k].1 as int, (fuel + 1) as nat));
    }
}

/// The group absorbs one more step: a member's successor is a member.
pub proof fn lemma_in_group_step(e: Seq<(usize, usize)>, a: int, k: int)
    requires
        0 <= k < e.len(),
        in_group(e, a, e[k].0 as int),
    ensures
        in_group(e, a, e[k].1 as int),
{
    let fuel = choose|fuel: nat| reaches(e, a, e[k].0 as int, fuel);
    lemma_reaches_extend(e, a, k, fuel);
}

/// Any set that contains `a` and is closed under the edges contains
/// everything reachable from `a`; the alias group is the least such
/// set.
pub proof fn lemma_closed_contains_group(
    e: Seq<(usize, usize)>,
    s: Set<int>,
    a: int,
    b: int,
    fuel: nat,
)
    requires
        closed_under(e, s),
        s.contains(a),
        reaches(e, a, b, fuel),
    ensures
        s.contains(b),
    decreases fuel,
{
    if a != b {
        let k = choose|k: int|
            0 <= k < e.len() && (#[trigger] e[k]).0 == a && reaches(
                e,
                e[k].1 as int,
                b,
                (fuel - 1) as nat,
            );
        assert(s.contains(e[k].1 as int));
        lemma_closed_contains_group(e, s, e[k].1 as int, b, (fuel - 1) as nat);
    }
}

/// Edges whose target has not yet been absorbed into the group being
/// built; the closure loop's progress measure.
spec fn count_pending(e: Seq<(usize, usize)>, g: Seq<usize>) -> nat
    decreases e.len(),
{
    if e.len() == 0 {
        0
    } else {
        count_pending(e.drop_last(), g) + if g.contains(e.last().1) {
            0nat
        } else {
            1nat
        }
    }
}

/// Growing the group can only lower the number of pending edges.
proof fn lemma_count_pending_grow(e: Seq<(usize, usize)>, g1: Seq<usize>, g2: Seq<usize>)
    requires
        forall|x: usize| g1.contains(x) ==> g2.contains(x),
    ensures
        count_pending(e, g2) <= count_pending(e, g1),
    decreases e.len(),
{
    if e.len() > 0 {
        lemma_count_pending_grow(e.drop_last(), g1, g2);
    }
}

/// Absorbing the target of some edge strictly lowers the number of
/// pending edges.
proof fn lemma_count_pending_strict(
    e: Seq<(usize, usize)>,
    g1: Seq<usize>,
    g2: Seq<usize>,
    k: int,
)
    requires
        forall|x: usize| g1.contains(x) ==> g2.contains(x),
        0 <= k < e.len(),
        !g1.contains(e[k].1),
        g2.contains(e[k].1),
    ensures
        count_pending(e, g2) < count_pending(e, g1),
    decreases e.len(),
{
    if k == e.len() - 1 {
        lemma_count_pending_grow(e.drop_last(), g1, g2);
    } else {
        lemma_count_pending_strict(e.drop_last(), g1, g2, k);
    }
}

impl PointsMap {
    /// An overlay with no edges: nothing aliases anything yet.
    pub fn new() -> (r: PointsMap)
        ensures
            r@ == Seq::<(usize, usize)>::empty(),
    {
        let r = PointsMap { edges: Vec::new() };
        proof {
            assert(r@ =~= Seq::<(usize, usize)>::empty());
        }
        r
    }

    /// Record that `from` may point to `to`; taken on a `Ref`
    /// assignment.
    pub fn add_ref(&mut self, from: usize, to: usize)
        ensures
            final(self)@ == spec_add_edge(old(self)@, from, to),
    {
        let ghost pre = self.edges@;
        let n = self.edges.len();
        let mut k: usize = 0;
        while k < n
            invariant
                self.edges@ == pre,
                n == pre.len(),
                k <= n,
                forall|j: int| 0 <= j < k ==> pre[j] != (from, to),
            decreases n - k,
        {
            let (a, b) = self.edges[k];
            if a == from && b == to {
                return ;
            }
            k += 1;
        }
        assert(!pre.contains((from, to)));
        self.edges.push((from, to));
    }

    /// The alias group of `ix`: every slot reachable from `ix` over
    /// the recorded edges, `ix` itself included.  Computed by repeated
    /// expansion until the group stops growing.
    pub fn get_aliases(&self, ix: usize) -> (g: Vec<usize>)
        ensures
            forall|s: usize| #[trigger] g@.contains(s) <==> in_group(self@, ix as int, s as int),
    {
        let ghost e = self.edges@;
        let mut g: Vec<usize> = Vec::new();
        g.push(ix);
        proof {
            lemma_in_group_refl(e, ix as int);
            assert(g@.contains(ix)) by {
                assert(g@[0] == ix);
            }
        }
        loop
            invariant
                e == self.edges@,
                g@.contains(ix),
                forall|i: int| 0 <= i < g@.len() ==> in_group(e, ix as int, #[trigger] g@[i] as int),
            decreases count_pending(e, g@),
        {
            let ghost g_round = g@;
            let mut changed = false;
            let n = self.edges.len();
            let mut k: usize = 0;
            while k < n
                invariant
                    e == self.edges@,
                    n == e.len(),
                    k <= n,
                    g@.contains(ix),
                    forall|i: int|
                        0 <= i < g@.len() ==> in_group(e, ix as int, #[trigger] g@[i] as int),
                    forall|x: usize| g_round.contains(x) ==> g@.contains(x),
                    !changed ==> g@ == g_round,
                    changed ==> count_pending(e, g@) < count_pending(e, g_round),
                    !changed ==> forall|j: int|
                        0 <= j < k && g@.contains((#[trigger] e[j]).0) ==> g@.contains(e[j].1),
                decreases n - k,
            {
                let (a, b) = self.edges[k];
                if Self::contains_slot(&g, a) && !Self::contains_slot(&g, b) {
                    let ghost g_before = g@;
                    g.push(b);
                    proof {
                        assert forall|x: usize| #[trigger]
                            g_before.contains(x) implies g@.contains(x) by {
                            let i = choose|i: int| 0 <= i < g_before.len() && g_before[i] == x;
                            assert(g@[i] == x);
                        }
                        assert(g@.contains(b)) by {
                            assert(g@[g@.len() - 1] == b);
                        }
                        // the pushed slot is reachable: some member points to it
                        let i = choose|i: int| 0 <= i < g_before.len() && g_before[i] == a;
                        assert(in_group(e, ix as int, a as int));
                        lemma_in_group_step(e, ix as int, k as int);
                        if changed {
                            lemma_count_pending_strict(e, g_before, g@, k as int);
                            lemma_count_pending_grow(e, g_round, g_before);
                        } else {
                            lemma_count_pending_strict(e, g_round, g@, k as int);
                        }
                    }
                    changed = true;
                }
                k += 1;
            }
            if !changed {
                proof {
                    let ghost sg = Set::new(|x: int| 0 <= x && g@.contains(x as usize));
                    assert(closed_under(e, sg)) by {
                        assert forall|j: int|
                            0 <= j < e.len() && sg.contains((#[trigger] e[j]).0 as int) implies sg
                            .contains(e[j].1 as int) by {
                            assert(g@.contains(e[j].0));
                            assert(g@.contains(e[j].1));
                        }
                    }
                    assert forall|s: usize|
                        in_group(e, ix as int, s as int) implies #[trigger] g@.contains(s) by {
                        let fuel = choose|fuel: nat| reaches(e, ix as int, s as int, fuel);
                        lemma_closed_contains_group(e, sg, ix as int, s as int, fuel);
                    }
                }
                return g;
            }
        }
    }

    /// Linear membership scan over the group being built.
    fn contains_slot(g: &Vec<usize>, x: usize) -> (r: bool)
        ensures
            r == g@.contains(x),
    {
        let n = g.len();
        let mut i: usize = 0;
        while i < n
            invariant
                n == g@.len(),
                i <= n,
                forall|j: int| 0 <= j < i ==> g@[j] != x,
            decreases n - i,
        {
            if g[i] == x {
                return true;
            }
            i += 1;
        }
        false
    }
}

/// A taint write through the alias overlay: `v` lands on every slot of
/// `ix`'s alias group that the state covers, and nowhere else.
pub open spec fn group_set(s: Seq<bool>, e: Seq<(usize, usize)>, ix: usize, v: bool) -> Seq<bool> {
    Seq::new(
        s.len(),
        |j: int|
            if in_group(e, ix as int, j) {
                v
            } else {
                s[j]
            },
    )
}

/// Write `v` to every member of `ix`'s alias group; the alias-aware
/// form of `TaintState::set_taint`.
pub fn set_taint_group(state: &mut TaintState, map: &PointsMap, ix: usize, v: bool)
    ensures
        final(state)@ == group_set(old(state)@, map@, ix, v),
{
    let ghost pre = state@;
    let upper = state.len();
    let g = map.get_aliases(ix);
    let n = g.len();
    let mut i: usize = 0;
    while i < n
        invariant
            n == g@.len(),
            i <= n,
            state@.len() == pre.len(),
            forall|s: usize| #[trigger] g@.contains(s) <==> in_group(map@, ix as int, s as int),
            forall|j: int|
                0 <= j < pre.len() ==> state@[j] == if (exists|m: int|
                    0 <= m < i && #[trigger] g@[m] as int == j) {
                    v
                } else {
                    pre[j]
                },
        decreases n - i,
    {
        let slot = g[i];
        if slot < state.len() {
            state.set_taint(slot, v);
        }
        i += 1;
    }
    proof {
        assert(pre.len() == upper as int);
        assert forall|j: int| 0 <= j < pre.len() implies state@[j] == group_set(pre, map@, ix, v)[j]
        by {
            let ju = j as usize;
            assert(ju as int == j);
            if in_group(map@, ix as int, j) {
                assert(in_group(map@, ix as int, ju as int));
                assert(g@.contains(ju));
                let m = choose|m: int| 0 <= m < g@.len() && g@[m] == ju;
                assert(g@[m] as int == j);
            } else {
                assert(forall|m: int| 0 <= m < g@.len() ==> (#[trigger] g@[m]) as int != j) by {
                    assert forall|m: int| 0 <= m < g@.len() implies (#[trigger] g@[m]) as int != j
                    by {
                        assert(g@.contains(g@[m]));
                    }
                }
            }
        }
        assert(state@ =~= group_set(pre, map@, ix, v));
    }
}

} // verus!
