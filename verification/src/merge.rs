//! The merge capability that every replicated data type offers, and the
//! laws that make replicas converge.

use vstd::prelude::*;

verus! {

/// A replicated value. Its view is the abstract state that replicas
/// exchange; merging replaces the state by the join of two states.
pub trait Merge: View + Sized {
    /// Whether the value is well formed: what its constructors establish
    /// and every operation preserves.
    spec fn wf(&self) -> bool;

    /// The join of two abstract states.
    spec fn join(a: Self::V, b: Self::V) -> Self::V;

    /// Replaces `self` by the join of `self` and `other`; `other` is used up.
    fn merge_mut(&mut self, other: Self)
        requires
            old(self).wf(),
            other.wf(),
        ensures
            final(self).wf(),
            final(self)@ == Self::join(old(self)@, other@),
    ;

    /// The join of `self` and `other` as a new value.
    fn merge(self, other: Self) -> (merged: Self)
        requires
            self.wf(),
            other.wf(),
        ensures
            merged.wf(),
            merged@ == Self::join(self@, other@),
    {
        let mut merged = self;
        merged.merge_mut(other);
        merged
    }
}

/// The laws under which replicas converge whatever the order and number of
/// their merges: the join is idempotent, commutative and associative.
pub trait MergeLaws: Merge {
    /// The pairs of states whose join does not depend on the order of the
    /// operands. For most types that is every pair.
    open spec fn compatible(a: Self::V, b: Self::V) -> bool {
        true
    }

    /// Merging a state into itself changes nothing.
    proof fn join_idempotent(a: Self)
        requires
            a.wf(),
        ensures
            Self::join(a@, a@) == a@,
    ;

    /// Merging `b` into `a` gives what merging `a` into `b` gives.
    proof fn join_commutative(a: Self, b: Self)
        requires
            a.wf(),
            b.wf(),
            Self::compatible(a@, b@),
        ensures
            Self::join(a@, b@) == Self::join(b@, a@),
    ;

    /// Merging three states gives the same state however they are grouped.
    proof fn join_associative(a: Self, b: Self, c: Self)
        requires
            a.wf(),
            b.wf(),
            c.wf(),
        ensures
            Self::join(Self::join(a@, b@), c@) == Self::join(a@, Self::join(b@, c@)),
    ;
}

/// Merging the same state in once more changes nothing: replicas do not
/// have to know what they have merged before.
pub proof fn lemma_merge_repeated<T: MergeLaws>(a: T, b: T)
    requires
        a.wf(),
        b.wf(),
    ensures
        T::join(T::join(a@, b@), b@) == T::join(a@, b@),
{
    T::join_associative(a, b, b);
    T::join_idempotent(b);
}

/// Merging two states in gives the same state whichever of them comes
/// first.
pub proof fn lemma_merge_reordered<T: MergeLaws>(a: T, b: T, c: T)
    requires
        a.wf(),
        b.wf(),
        c.wf(),
        T::compatible(b@, c@),
    ensures
        T::join(T::join(a@, b@), c@) == T::join(T::join(a@, c@), b@),
{
    T::join_associative(a, b, c);
    T::join_commutative(b, c);
    T::join_associative(a, c, b);
}

} // verus!
