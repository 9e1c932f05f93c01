//! The mathematical model of clocks and dots.
//!
//! A clock is a map from replica identifiers to event counters. A replica that
//! the map does not record has counter zero: a clock that never heard of a
//! replica and one that saw no event of it say the same thing.

use vstd::prelude::*;

verus! {

/// The model of a version vector: the counter recorded for each replica.
pub type Clock = Map<Seq<char>, i64>;

/// The model of a dot: event number `counter` of `replica`.
pub struct Event {
    pub replica: Seq<char>,
    pub counter: int,
}

/// The number of events of `replica` that `clock` has seen: the recorded
/// counter, or zero where none is recorded.
pub open spec fn counter(clock: Clock, replica: Seq<char>) -> int {
    if clock.contains_key(replica) {
        clock[replica] as int
    } else {
        0
    }
}

/// A clock is valid when every counter it records is at least one: a replica
/// enters a clock with its first event.
pub open spec fn clock_valid(clock: Clock) -> bool {
    forall|replica: Seq<char>| #[trigger]
        clock.contains_key(replica) ==> clock[replica] >= 1
}

/// `a` descends `b`: `a` has seen, of every replica, at least as many events as
/// `b`. For a replica that neither records this reads `0 >= 0`, so it asks
/// something only of the replicas that occur in either clock.
pub open spec fn clock_descends(a: Clock, b: Clock) -> bool {
    forall|replica: Seq<char>|
        #![trigger counter(a, replica)]
        #![trigger counter(b, replica)]
        counter(a, replica) >= counter(b, replica)
}

/// Two clocks are concurrent when neither descends the other.
pub open spec fn clock_concurrent(a: Clock, b: Clock) -> bool {
    !clock_descends(a, b) && !clock_descends(b, a)
}

/// The clock after one more event at `replica`.
pub open spec fn clock_increment(clock: Clock, replica: Seq<char>) -> Clock {
    clock.insert(replica, (counter(clock, replica) + 1) as i64)
}

/// The join of two clocks: it records the replicas that either records, each
/// with the larger of its two counters.
pub open spec fn clock_merge(a: Clock, b: Clock) -> Clock {
    Map::new(
        |replica: Seq<char>| a.contains_key(replica) || b.contains_key(replica),
        |replica: Seq<char>|
            if counter(a, replica) >= counter(b, replica) {
                counter(a, replica) as i64
            } else {
                counter(b, replica) as i64
            },
    )
}

/// The dot that `clock` gives for `replica`: the replica with its current
/// counter.
pub open spec fn clock_dot(clock: Clock, replica: Seq<char>) -> Event {
    Event { replica, counter: counter(clock, replica) }
}

/// `clock` has seen the event `dot`, or a later one of the same replica.
pub open spec fn clock_descends_dot(clock: Clock, dot: Event) -> bool {
    counter(clock, dot.replica) >= dot.counter
}

/// `dot` is at least as far, for its replica, as `clock` is.
pub open spec fn dot_descends_clock(dot: Event, clock: Clock) -> bool {
    dot.counter >= counter(clock, dot.replica)
}

/// `dot` descends `other`: both are events of one replica, and `dot` is not the
/// earlier one. Dots of different replicas do not descend each other.
pub open spec fn dot_descends(dot: Event, other: Event) -> bool {
    dot.replica == other.replica && dot.counter >= other.counter
}

} // verus!
