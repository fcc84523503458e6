//! The taint lattice for one function activation: a fixed-size set of
//! tainted variable slots, ordered by inclusion.  Bottom is the empty
//! set (nothing tainted) and the join is set union, so a slot is
//! tainted at a merge point as soon as it is tainted on any incoming
//! path.

use vstd::prelude::*;

verus! {

/// The set of possibly-tainted slots of one function body, as a bit
/// vector indexed by slot number.
pub struct TaintState {
    bits: Vec<bool>,
}

impl View for TaintState {
    type V = Seq<bool>;

    closed spec fn view(&self) -> Seq<bool> {
        self.bits@
    }
}

/// Pointwise union of two taint states of equal size.
pub open spec fn spec_join(a: Seq<bool>, b: Seq<bool>) -> Seq<bool> {
    Seq::new(a.len(), |i: int| a[i] || b[i])
}

/// Number of untainted slots; the solver's progress measure, since a
/// fixpoint pass only ever adds taint to block entry states.
pub open spec fn count_false(s: Seq<bool>) -> nat
    decreases s.len(),
{
    if s.len() == 0 {
        0
    } else {
        count_false(s.drop_last()) + if s.last() {
            0nat
        } else {
            1nat
        }
    }
}

impl TaintState {
    /// The lattice bottom: every slot untainted.
    pub fn bottom(len: usize) -> (r: TaintState)
        ensures
            r@.len() == len,
            forall|j: int| 0 <= j < len ==> !r@[j],
    {
        TaintState { bits: vec![false; len] }
    }

    /// Whether `ix` is possibly tainted.
    pub fn get_taint(&self, ix: usize) -> (b: bool)
        requires
            ix < self@.len(),
        ensures
            b == self@[ix as int],
    {
        self.bits[ix]
    }

    /// Mark `ix` tainted or untainted.
    pub fn set_taint(&mut self, ix: usize, taint: bool)
        requires
            ix < old(self)@.len(),
        ensures
            final(self)@ == old(self)@.update(ix as int, taint),
    {
        self.bits.set(ix, taint);
    }

    /// Copy the taint of `from` onto `to`, overwriting whatever `to`
    /// held before.
    pub fn propagate(&mut self, from: usize, to: usize)
        requires
            from < old(self)@.len(),
            to < old(self)@.len(),
        ensures
            final(self)@ == old(self)@.update(to as int, old(self)@[from as int]),
            final(self)@[to as int] == old(self)@[from as int],
    {
        let t = self.get_taint(from);
        self.set_taint(to, t);
    }

    /// Join `other` into `self`; reports whether `self` changed.
    pub fn join(&mut self, other: &TaintState) -> (changed: bool)
        requires
            old(self)@.len() == other@.len(),
        ensures
            final(self)@ == spec_join(old(self)@, other@),
            changed == (final(self)@ != old(self)@),
    {
        let ghost pre = self.bits@;
        let n = self.bits.len();
        let mut out: Vec<bool> = Vec::new();
        let mut i: usize = 0;
        let mut changed = false;
        while i < n
            invariant
                self.bits@ == pre,
                n == pre.len(),
                n == other@.len(),
                i <= n,
                out@.len() == i,
                forall|j: int| 0 <= j < i ==> out@[j] == (pre[j] || other@[j]),
                changed == exists|j: int| 0 <= j < i && out@[j] != pre[j],
            decreases n - i,
        {
            let b = self.bits[i] || other.bits[i];
            if b != self.bits[i] {
                changed = true;
            }
            out.push(b);
            i += 1;
        }
        self.bits = out;
        proof {
            assert(self.bits@ =~= spec_join(pre, other@));
            if !changed {
                assert(self.bits@ =~= pre);
            }
        }
        changed
    }

    /// The number of slots this state covers.
    pub fn len(&self) -> (n: usize)
        ensures
            n == self@.len(),
    {
        self.bits.len()
    }

    /// An identical copy, useful when a block's entry state must be
    /// kept while its exit state is computed.
    pub fn duplicate(&self) -> (r: TaintState)
        ensures
            r@ == self@,
    {
        let bits = self.bits.clone();
        proof {
            assert(bits@ =~= self.bits@);
        }
        TaintState { bits }
    }
}

/// Join conservatism: a slot tainted on either of two incoming paths
/// is tainted in the merged state.
pub proof fn lemma_join_conservative(a: Seq<bool>, b: Seq<bool>, x: int)
    requires
        a.len() == b.len(),
        0 <= x < a.len(),
        a[x] || b[x],
    ensures
        spec_join(a, b)[x],
{
}

/// Growing a state pointwise can only lower the count of untainted
/// slots.
pub proof fn lemma_count_false_grow(a: Seq<bool>, b: Seq<bool>)
    requires
        a.len() == b.len(),
        forall|j: int| 0 <= j < a.len() ==> (a[j] ==> b[j]),
    ensures
        count_false(b) <= count_false(a),
    decreases a.len(),
{
    if a.len() > 0 {
        lemma_count_false_grow(a.drop_last(), b.drop_last());
    }
}

/// Newly tainting at least one slot strictly lowers the count of
/// untainted slots.
pub proof fn lemma_count_false_grow_strict(a: Seq<bool>, b: Seq<bool>, w: int)
    requires
        a.len() == b.len(),
        forall|j: int| 0 <= j < a.len() ==> (a[j] ==> b[j]),
        0 <= w < a.len(),
        !a[w],
        b[w],
    ensures
        count_false(b) < count_false(a),
    decreases a.len(),
{
    if w == a.len() - 1 {
        lemma_count_false_grow(a.drop_last(), b.drop_last());
    } else {
        lemma_count_false_grow_strict(a.drop_last(), b.drop_last(), w);
    }
}

} // verus!
