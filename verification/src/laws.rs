//! The laws of version vectors and dots.
//!
//! Each law is stated over the views of its arguments and the functions of
//! [`crate::model`], in which the contracts of the operations are written: what
//! is proved here of `clock_merge(v@, w@)` holds of what `v.merge(&w)` returns.
//! `descends` is a partial order on vectors, `merge` is its join, and `inc`
//! moves a vector strictly up.

use crate::dot::Dot;
use crate::model::{
    clock_concurrent, clock_descends, clock_descends_dot, clock_dot, clock_increment, clock_merge,
    counter, dot_descends_clock,
};
use crate::version_vector::VersionVector;
use vstd::prelude::*;

verus! {

/// Every vector descends itself.
pub proof fn lemma_descends_reflexive(v: VersionVector)
    ensures
        clock_descends(v@, v@),
{
}

/// If `u` descends `v` and `v` descends `w`, then `u` descends `w`.
pub proof fn lemma_descends_transitive(u: VersionVector, v: VersionVector, w: VersionVector)
    requires
        clock_descends(u@, v@),
        clock_descends(v@, w@),
    ensures
        clock_descends(u@, w@),
{
    assert forall|replica: Seq<char>| counter(u@, replica) >= counter(w@, replica) by {
        assert(counter(u@, replica) >= counter(v@, replica));
        assert(counter(v@, replica) >= counter(w@, replica));
    }
}

/// Two vectors that descend each other are the same clock: they record the
/// same replicas with the same counters.
pub proof fn lemma_descends_antisymmetric(v: VersionVector, w: VersionVector)
    requires
        clock_descends(v@, w@),
        clock_descends(w@, v@),
    ensures
        v@ == w@,
{
    v.lemma_view_valid();
    w.lemma_view_valid();
    assert forall|replica: Seq<char>| v@.contains_key(replica) == w@.contains_key(replica) by {
        assert(counter(v@, replica) >= counter(w@, replica));
        assert(counter(w@, replica) >= counter(v@, replica));
    }
    assert forall|replica: Seq<char>| v@.contains_key(replica) implies v@[replica]
        == w@[replica] by {
        assert(counter(v@, replica) >= counter(w@, replica));
        assert(counter(w@, replica) >= counter(v@, replica));
    }
    assert(v@ =~= w@);
}

/// Whether `v` descends `w` is decided by the replicas that occur in either:
/// `v` descends `w` exactly when its counter is at least that of `w` for each
/// replica that `v` or `w` records.
pub proof fn lemma_descends_by_recorded(v: VersionVector, w: VersionVector)
    ensures
        clock_descends(v@, w@) <==> forall|replica: Seq<char>|
            #![trigger counter(v@, replica)]
            #![trigger counter(w@, replica)]
            v@.contains_key(replica) || w@.contains_key(replica) ==> counter(v@, replica)
                >= counter(w@, replica),
{
}

/// `v` descends `w` exactly when it has seen every dot of `w`.
pub proof fn lemma_descends_by_dots(v: VersionVector, w: VersionVector)
    ensures
        clock_descends(v@, w@) <==> forall|replica: Seq<char>|
            clock_descends_dot(v@, #[trigger] clock_dot(w@, replica)),
{
    if clock_descends(v@, w@) {
        assert forall|replica: Seq<char>|
            clock_descends_dot(v@, #[trigger] clock_dot(w@, replica)) by {
            assert(counter(v@, replica) >= counter(w@, replica));
        }
    }
    if forall|replica: Seq<char>| clock_descends_dot(v@, #[trigger] clock_dot(w@, replica)) {
        assert forall|replica: Seq<char>| counter(v@, replica) >= counter(w@, replica) by {
            assert(clock_descends_dot(v@, clock_dot(w@, replica)));
        }
    }
}

/// No vector is concurrent with itself.
pub proof fn lemma_concurrent_irreflexive(v: VersionVector)
    ensures
        !clock_concurrent(v@, v@),
{
}

/// Concurrency is symmetric.
pub proof fn lemma_concurrent_symmetric(v: VersionVector, w: VersionVector)
    ensures
        clock_concurrent(v@, w@) == clock_concurrent(w@, v@),
{
}

/// What the merge of two clocks counts for a replica is the larger of their
/// two counts.
pub proof fn lemma_merge_counter(v: VersionVector, w: VersionVector, replica: Seq<char>)
    ensures
        counter(clock_merge(v@, w@), replica) == if counter(v@, replica) >= counter(w@, replica) {
            counter(v@, replica)
        } else {
            counter(w@, replica)
        },
{
}

/// Merging is commutative: `v.merge(w)` and `w.merge(v)` have the same
/// counters.
pub proof fn lemma_merge_commutative(v: VersionVector, w: VersionVector)
    ensures
        clock_merge(v@, w@) == clock_merge(w@, v@),
{
    assert(clock_merge(v@, w@) =~= clock_merge(w@, v@));
}

/// Merging is associative.
pub proof fn lemma_merge_associative(u: VersionVector, v: VersionVector, w: VersionVector)
    ensures
        clock_merge(clock_merge(u@, v@), w@) == clock_merge(u@, clock_merge(v@, w@)),
{
    assert(clock_merge(clock_merge(u@, v@), w@) =~= clock_merge(u@, clock_merge(v@, w@)));
}

/// Merging is idempotent: `v.merge(v)` is `v`.
pub proof fn lemma_merge_idempotent(v: VersionVector)
    ensures
        clock_merge(v@, v@) == v@,
{
    assert(clock_merge(v@, v@) =~= v@);
}

/// The merge of two vectors descends both.
pub proof fn lemma_merge_upper_bound(v: VersionVector, w: VersionVector)
    ensures
        clock_descends(clock_merge(v@, w@), v@),
        clock_descends(clock_merge(v@, w@), w@),
{
    let merged = clock_merge(v@, w@);
    assert forall|replica: Seq<char>| counter(merged, replica) >= counter(v@, replica) by {
        lemma_merge_counter(v, w, replica);
    }
    assert forall|replica: Seq<char>| counter(merged, replica) >= counter(w@, replica) by {
        lemma_merge_counter(v, w, replica);
    }
}

/// The merge is the least of the upper bounds: a vector that descends both `v`
/// and `w` descends their merge.
pub proof fn lemma_merge_least(u: VersionVector, v: VersionVector, w: VersionVector)
    requires
        clock_descends(u@, v@),
        clock_descends(u@, w@),
    ensures
        clock_descends(u@, clock_merge(v@, w@)),
{
    let merged = clock_merge(v@, w@);
    assert forall|replica: Seq<char>| counter(u@, replica) >= counter(merged, replica) by {
        lemma_merge_counter(v, w, replica);
        assert(counter(u@, replica) >= counter(v@, replica));
        assert(counter(u@, replica) >= counter(w@, replica));
    }
}

/// Merging a vector with one that it descends leaves it as it is.
pub proof fn lemma_merge_absorbs(v: VersionVector, w: VersionVector)
    requires
        clock_descends(v@, w@),
    ensures
        clock_merge(v@, w@) == v@,
{
    w.lemma_view_valid();
    let merged = clock_merge(v@, w@);
    assert forall|replica: Seq<char>| merged.contains_key(replica) == v@.contains_key(replica) by {
        assert(counter(v@, replica) >= counter(w@, replica));
    }
    assert forall|replica: Seq<char>| merged.contains_key(replica) implies merged[replica]
        == v@[replica] by {
        assert(counter(v@, replica) >= counter(w@, replica));
    }
    assert(merged =~= v@);
}

/// An increment moves a vector strictly up: the result descends the vector,
/// and the vector does not descend the result.
pub proof fn lemma_increment_monotonic(v: VersionVector, replica: Seq<char>)
    requires
        counter(v@, replica) < i64::MAX,
    ensures
        clock_descends(clock_increment(v@, replica), v@),
        !clock_descends(v@, clock_increment(v@, replica)),
{
    let next = clock_increment(v@, replica);
    assert(counter(next, replica) == counter(v@, replica) + 1);
}

/// An increment counts one more event at its replica and changes no other
/// counter.
pub proof fn lemma_increment_counter(v: VersionVector, replica: Seq<char>, other: Seq<char>)
    requires
        counter(v@, replica) < i64::MAX,
    ensures
        counter(clock_increment(v@, replica), other) == if other == replica {
            counter(v@, replica) + 1
        } else {
            counter(v@, other)
        },
{
}

/// The dot that a vector gives for a replica descends the vector, and the
/// vector descends the dot.
pub proof fn lemma_dot_round_trip(v: VersionVector, replica: Seq<char>)
    ensures
        dot_descends_clock(clock_dot(v@, replica), v@),
        clock_descends_dot(v@, clock_dot(v@, replica)),
{
}

/// A dot whose counter is beyond what the vector has for the dot's replica is
/// in the vector's strict future: the vector has not seen it, and it descends
/// the vector.
pub proof fn lemma_dot_strict_future(v: VersionVector, d: Dot)
    requires
        d@.counter > counter(v@, d@.replica),
    ensures
        !clock_descends_dot(v@, d@),
        dot_descends_clock(d@, v@),
{
}

/// No counter of a vector is negative: it is at least one for a replica that
/// the vector records, and zero for any other.
pub proof fn lemma_counters_nonnegative(v: VersionVector, replica: Seq<char>)
    ensures
        counter(v@, replica) >= 0,
        v@.contains_key(replica) <==> counter(v@, replica) >= 1,
{
    v.lemma_view_valid();
}

} // verus!
