//! The version vector: one event counter for each replica that has been heard
//! of.
//!
//! A vector is kept as a list of entries, one for each replica, in no
//! particular order. A vector holds one entry for each replica of a system,
//! which is few, and a lookup walks the list. What an operation returns is
//! stated over the view of the vector, a map from replica to counter, so no
//! contract depends on the order of the entries.

use crate::dot::Dot;
use crate::model::{
    clock_concurrent, clock_descends, clock_descends_dot, clock_dot, clock_increment, clock_merge,
    clock_valid, counter, Clock,
};
use vstd::prelude::*;

verus! {

/// One replica with the number of its events that have been seen.
#[derive(Debug)]
struct Entry {
    node: String,
    count: i64,
}

/// The causal summary of a state: how many events of each replica it has seen.
///
/// Its view is the [`Clock`] that records each replica heard of with its
/// counter. A replica enters the vector with its first event, so every
/// recorded counter is at least one, and a replica that is not recorded has
/// seen none.
#[derive(Debug)]
pub struct VersionVector {
    vector: Vec<Entry>,
}

/// Entry `i` records `replica`.
spec fn records(entries: Seq<Entry>, i: int, replica: Seq<char>) -> bool {
    0 <= i < entries.len() && entries[i].node@ == replica && entries[i].count >= 1
}

/// No replica occurs twice, and every counter is at least one.
spec fn entries_valid(entries: Seq<Entry>) -> bool {
    &&& forall|i: int| 0 <= i < entries.len() ==> (#[trigger] entries[i]).count >= 1
    &&& forall|i: int, j: int|
        0 <= i < j < entries.len() ==> (#[trigger] entries[i]).node@ != (#[trigger] entries[j]).node@
}

/// The clock that a list of entries stands for. Among valid entries at most
/// one records a given replica, and the clock has its counter.
spec fn clock_of(entries: Seq<Entry>) -> Clock {
    Map::new(
        |replica: Seq<char>| exists|i: int| records(entries, i, replica),
        |replica: Seq<char>| entries[choose|i: int| records(entries, i, replica)].count,
    )
}

impl View for VersionVector {
    type V = Clock;

    closed spec fn view(&self) -> Clock {
        clock_of(self.vector@)
    }
}

/// One of the first `n` of `entries` is for `replica`.
spec fn listed_among(entries: Seq<Entry>, n: int, replica: Seq<char>) -> bool {
    exists|i: int| 0 <= i < n && (#[trigger] entries[i]).node@ == replica
}

/// `keys` holds the identifier `replica`.
spec fn names(keys: Seq<String>, replica: Seq<char>) -> bool {
    exists|k: int| 0 <= k < keys.len() && (#[trigger] keys[k])@ == replica
}

/// No identifier occurs twice in `keys`.
spec fn distinct(keys: Seq<String>) -> bool {
    forall|i: int, j: int|
        0 <= i < j < keys.len() ==> (#[trigger] keys[i])@ != (#[trigger] keys[j])@
}

/// One of the first `n` of `clocks` records `replica`.
spec fn recorded_among(clocks: Seq<&VersionVector>, n: int, replica: Seq<char>) -> bool {
    exists|c: int| 0 <= c < n && (#[trigger] clocks[c])@.contains_key(replica)
}

/// `keys` holds, each once, the replicas that `a` or `b` records.
spec fn keys_of(keys: Seq<String>, a: Clock, b: Clock) -> bool {
    &&& distinct(keys)
    &&& forall|replica: Seq<char>|
        names(keys, replica) <==> a.contains_key(replica) || b.contains_key(replica)
}

/// What entry `i` holds is what the clock gives for its replica.
proof fn lemma_clock_at(entries: Seq<Entry>, i: int)
    requires
        entries_valid(entries),
        0 <= i < entries.len(),
    ensures
        clock_of(entries).contains_key(entries[i].node@),
        clock_of(entries)[entries[i].node@] == entries[i].count,
{
    let replica = entries[i].node@;
    assert(records(entries, i, replica));
    let j = choose|j: int| records(entries, j, replica);
    assert(j == i);
}

/// A replica that no entry names is not in the clock.
proof fn lemma_clock_without(entries: Seq<Entry>, replica: Seq<char>)
    requires
        forall|i: int| 0 <= i < entries.len() ==> (#[trigger] entries[i]).node@ != replica,
    ensures
        !clock_of(entries).contains_key(replica),
{
    assert forall|i: int| !records(entries, i, replica) by {
        if 0 <= i < entries.len() {
            assert(entries[i].node@ != replica);
        }
    }
}

/// The clock of valid entries records the replicas that the entries list.
proof fn lemma_clock_lists(entries: Seq<Entry>, replica: Seq<char>)
    requires
        entries_valid(entries),
    ensures
        clock_of(entries).contains_key(replica) <==> listed_among(
            entries,
            entries.len() as int,
            replica,
        ),
{
    if clock_of(entries).contains_key(replica) {
        let i = choose|i: int| records(entries, i, replica);
        assert(entries[i].node@ == replica);
    }
    if listed_among(entries, entries.len() as int, replica) {
        let i = choose|i: int| 0 <= i < entries.len() && (#[trigger] entries[i]).node@ == replica;
        lemma_clock_at(entries, i);
    }
}

/// Valid entries stand for `clock` if each entry is in `clock` as it is, and
/// `clock` records no replica but those of the entries.
proof fn lemma_clock_is(entries: Seq<Entry>, clock: Clock)
    requires
        entries_valid(entries),
        forall|i: int|
            0 <= i < entries.len() ==> clock.contains_key((#[trigger] entries[i]).node@)
                && clock[entries[i].node@] == entries[i].count,
        forall|replica: Seq<char>| #[trigger]
            clock.contains_key(replica) ==> listed_among(entries, entries.len() as int, replica),
    ensures
        clock_of(entries) == clock,
{
    assert forall|replica: Seq<char>|
        clock_of(entries).contains_key(replica) == clock.contains_key(replica) by {
        lemma_clock_lists(entries, replica);
        if clock_of(entries).contains_key(replica) {
            let i = choose|i: int| records(entries, i, replica);
            assert(clock.contains_key(entries[i].node@));
        }
    }
    assert forall|replica: Seq<char>| clock_of(entries).contains_key(replica) implies clock_of(
        entries,
    )[replica] == clock[replica] by {
        let i = choose|i: int| records(entries, i, replica);
        assert(clock[entries[i].node@] == entries[i].count);
    }
    assert(clock_of(entries) =~= clock);
}

/// The first `n + 1` entries list what the first `n` list, and the replica of
/// entry `n`.
proof fn lemma_listed_step(entries: Seq<Entry>, n: int, replica: Seq<char>)
    requires
        0 <= n < entries.len(),
    ensures
        listed_among(entries, n + 1, replica) <==> listed_among(entries, n, replica)
            || entries[n].node@ == replica,
{
    if listed_among(entries, n + 1, replica) {
        let i = choose|i: int| 0 <= i < n + 1 && (#[trigger] entries[i]).node@ == replica;
        if i < n {
            assert(listed_among(entries, n, replica));
        }
    }
    if listed_among(entries, n, replica) {
        let i = choose|i: int| 0 <= i < n && (#[trigger] entries[i]).node@ == replica;
        assert(0 <= i < n + 1);
    }
    if entries[n].node@ == replica {
        assert(0 <= n < n + 1);
    }
}

/// With `key` pushed, `keys` holds what it held, and `key`.
proof fn lemma_names_push(keys: Seq<String>, key: String, replica: Seq<char>)
    ensures
        names(keys.push(key), replica) <==> names(keys, replica) || key@ == replica,
{
    let pushed = keys.push(key);
    if names(keys, replica) {
        let k = choose|k: int| 0 <= k < keys.len() && (#[trigger] keys[k])@ == replica;
        assert(pushed[k]@ == replica);
    }
    if key@ == replica {
        assert(pushed[keys.len() as int]@ == replica);
    }
    if names(pushed, replica) {
        let k = choose|k: int| 0 <= k < pushed.len() && (#[trigger] pushed[k])@ == replica;
        if k < keys.len() {
            assert(keys[k]@ == replica);
        }
    }
}

/// The keys of a pair of clocks are the replicas that either records.
proof fn lemma_keys_of_two(keys: Seq<String>, clocks: Seq<&VersionVector>)
    requires
        clocks.len() == 2,
        distinct(keys),
        forall|replica: Seq<char>| names(keys, replica) <==> recorded_among(clocks, 2, replica),
    ensures
        keys_of(keys, clocks[0]@, clocks[1]@),
{
    assert forall|replica: Seq<char>|
        names(keys, replica) <==> clocks[0]@.contains_key(replica) || clocks[1]@.contains_key(
            replica,
        ) by {
        if recorded_among(clocks, 2, replica) {
            let c = choose|c: int| 0 <= c < 2 && (#[trigger] clocks[c])@.contains_key(replica);
            assert(c == 0 || c == 1);
        }
    }
}

/// The index of the entry for `id`, if there is one.
fn position(entries: &Vec<Entry>, id: &String) -> (found: Option<usize>)
    ensures
        match found {
            Some(i) => i < entries.len() && entries[i as int].node@ == id@,
            None => forall|j: int| 0 <= j < entries.len() ==> (#[trigger] entries[j]).node@ != id@,
        },
{
    let mut i: usize = 0;
    while i < entries.len()
        invariant
            i <= entries.len(),
            forall|j: int| 0 <= j < i ==> (#[trigger] entries[j]).node@ != id@,
        decreases entries.len() - i,
    {
        if entries[i].node == *id {
            return Some(i);
        }
        i += 1;
    }
    None
}

/// Whether `keys` holds `id`.
fn contains(keys: &Vec<String>, id: &String) -> (b: bool)
    ensures
        b == names(keys@, id@),
{
    let mut k: usize = 0;
    while k < keys.len()
        invariant
            k <= keys.len(),
            forall|j: int| 0 <= j < k ==> (#[trigger] keys[j])@ != id@,
        decreases keys.len() - k,
    {
        if keys[k] == *id {
            return true;
        }
        k += 1;
    }
    false
}

impl VersionVector {
    #[verifier::type_invariant]
    spec fn well_formed(&self) -> bool {
        entries_valid(self.vector@)
    }

    /// Every vector stands for a valid clock: each counter that it records is
    /// at least one.
    pub proof fn lemma_view_valid(self)
        ensures
            clock_valid(self@),
    {
        assert forall|replica: Seq<char>| #[trigger]
            self@.contains_key(replica) implies self@[replica] >= 1 by {
            let i = choose|i: int| records(self.vector@, i, replica);
            assert(records(self.vector@, i, replica));
        }
    }

    /// The empty vector: no replica has been heard of.
    pub fn new() -> (vector: VersionVector)
        ensures
            vector@ == Map::<Seq<char>, i64>::empty(),
    {
        let vector = VersionVector { vector: Vec::new() };
        assert(vector@ =~= Map::<Seq<char>, i64>::empty());
        vector
    }

    /// The vector after one more event at `node_id`: its counter there is one
    /// greater, a replica not heard of before enters with counter one, and no
    /// other counter changes. Any string names a replica, the empty one too.
    ///
    /// The counter is an `i64`, so the replica must not have used it up.
    pub fn inc(self, node_id: &str) -> (next: VersionVector)
        requires
            counter(self@, node_id@) < i64::MAX,
        ensures
            next@ == clock_increment(self@, node_id@),
    {
        proof {
            use_type_invariant(&self);
        }
        let key = node_id.to_owned();
        let found = position(&self.vector, &key);
        let ghost before = self.vector@;
        let mut entries = self.vector;
        match found {
            Some(i) => {
                proof {
                    lemma_clock_at(before, i as int);
                }
                let count = entries[i].count + 1;
                entries.set(i, Entry { node: key, count });
            },
            None => {
                proof {
                    lemma_clock_without(before, key@);
                }
                entries.push(Entry { node: key, count: 1 });
            },
        }
        proof {
            let next = clock_increment(clock_of(before), node_id@);
            assert forall|j: int| 0 <= j < entries.len() implies next.contains_key(
                (#[trigger] entries[j]).node@,
            ) && next[entries[j].node@] == entries[j].count by {
                if j < before.len() {
                    lemma_clock_at(before, j);
                }
            }
            assert forall|replica: Seq<char>| #[trigger] next.contains_key(replica) implies listed_among(
                entries@,
                entries.len() as int,
                replica,
            ) by {
                if replica == node_id@ {
                    let j = if found is Some {
                        found->0 as int
                    } else {
                        before.len() as int
                    };
                    assert(entries[j].node@ == replica);
                } else {
                    let j = choose|j: int| records(before, j, replica);
                    assert(entries[j].node@ == replica);
                }
            }
            lemma_clock_is(entries@, next);
        }
        VersionVector { vector: entries }
    }

    /// Whether this vector has seen, of every replica, at least as many events
    /// as `w` has. Every vector descends itself. The replicas of both vectors
    /// are looked at, so that one which only `w` knows counts against `self`.
    pub fn descends(&self, w: &VersionVector) -> (b: bool)
        ensures
            b == clock_descends(self@, w@),
    {
        let clocks = [self, w];
        let keys = VersionVector::all_keys(&clocks);
        proof {
            lemma_keys_of_two(keys@, clocks@);
        }
        let mut k: usize = 0;
        while k < keys.len()
            invariant
                k <= keys.len(),
                keys_of(keys@, self@, w@),
                forall|j: int|
                    0 <= j < k ==> counter(self@, (#[trigger] keys[j])@) >= counter(w@, keys[j]@),
            decreases keys.len() - k,
        {
            let v1 = self.count(&keys[k]);
            let v2 = w.count(&keys[k]);
            if v1 < v2 {
                return false;
            }
            k += 1;
        }
        proof {
            assert forall|replica: Seq<char>|
                counter(self@, replica) >= counter(w@, replica) by {
                if w@.contains_key(replica) {
                    assert(names(keys@, replica));
                    let j = choose|j: int| 0 <= j < keys.len() && (#[trigger] keys[j])@ == replica;
                    assert(counter(self@, keys[j]@) >= counter(w@, keys[j]@));
                } else {
                    self.lemma_view_valid();
                }
            }
        }
        true
    }

    /// Whether neither vector descends the other: the two histories have
    /// diverged. A vector is never concurrent with itself.
    pub fn concurrent(&self, w: &VersionVector) -> (b: bool)
        ensures
            b == clock_concurrent(self@, w@),
    {
        !(self.descends(w) || w.descends(self))
    }

    /// Whether this vector has seen the event `w`, or a later one of the same
    /// replica.
    pub fn descends_dot(&self, w: &Dot) -> (b: bool)
        ensures
            b == clock_descends_dot(self@, w@),
    {
        let v = self.count(&w.0);
        v >= w.1
    }

    /// The join of the two vectors: for every replica that either records, the
    /// larger of the two counters. Neither argument changes.
    pub fn merge(&self, w: &VersionVector) -> (merged: VersionVector)
        ensures
            merged@ == clock_merge(self@, w@),
    {
        let clocks = [self, w];
        let keys = VersionVector::all_keys(&clocks);
        proof {
            lemma_keys_of_two(keys@, clocks@);
        }
        let mut res: Vec<Entry> = Vec::new();
        let mut k: usize = 0;
        while k < keys.len()
            invariant
                k <= keys.len(),
                keys_of(keys@, self@, w@),
                res.len() == k,
                forall|j: int|
                    0 <= j < k ==> (#[trigger] res[j]).node@ == keys[j]@ && res[j].count >= 1
                        && clock_merge(self@, w@)[keys[j]@] == res[j].count,
            decreases keys.len() - k,
        {
            let e1 = self.count(&keys[k]);
            let e2 = w.count(&keys[k]);
            proof {
                assert(names(keys@, keys[k as int]@));
            }
            res.push(Entry { node: keys[k].clone(), count: if e1 >= e2 { e1 } else { e2 } });
            k += 1;
        }
        proof {
            let joined = clock_merge(self@, w@);
            assert forall|j: int| 0 <= j < res.len() implies joined.contains_key(
                (#[trigger] res[j]).node@,
            ) && joined[res[j].node@] == res[j].count by {
                assert(names(keys@, keys[j]@));
            }
            assert forall|replica: Seq<char>| #[trigger] joined.contains_key(replica) implies listed_among(
                res@,
                res.len() as int,
                replica,
            ) by {
                assert(names(keys@, replica));
                let j = choose|j: int| 0 <= j < keys.len() && (#[trigger] keys[j])@ == replica;
                assert(res[j].node@ == replica);
            }
            lemma_clock_is(res@, joined);
        }
        VersionVector { vector: res }
    }

    /// The dot of `node_id` at this moment: the replica with its current
    /// counter, zero where the vector has not heard of it. The vector does not
    /// change, and the dot does not follow what happens to the vector later.
    pub fn get_dot(&self, node_id: &str) -> (dot: Dot)
        ensures
            dot@ == clock_dot(self@, node_id@),
            dot.1 >= 0,
            dot.1 >= 1 <==> self@.contains_key(node_id@),
    {
        let key = node_id.to_owned();
        let count = self.count(&key);
        Dot(key, count)
    }

    /// The counter recorded for `node_id`, or `None` where the vector has not
    /// heard of that replica.
    pub fn get(&self, node_id: &str) -> (found: Option<i64>)
        ensures
            found == self@.get(node_id@),
            found matches Some(n) ==> n >= 1,
    {
        let key = node_id.to_owned();
        self.lookup(&key)
    }

    /// The replicas that any of `clocks` records, each of them once.
    fn all_keys(clocks: &[&VersionVector]) -> (keys: Vec<String>)
        ensures
            distinct(keys@),
            forall|replica: Seq<char>|
                names(keys@, replica) <==> recorded_among(clocks@, clocks@.len() as int, replica),
    {
        let mut res: Vec<String> = Vec::new();
        let mut c: usize = 0;
        while c < clocks.len()
            invariant
                c <= clocks.len(),
                distinct(res@),
                forall|replica: Seq<char>|
                    names(res@, replica) <==> recorded_among(clocks@, c as int, replica),
            decreases clocks.len() - c,
        {
            let clock = clocks[c];
            proof {
                use_type_invariant(clock);
            }
            let mut e: usize = 0;
            while e < clock.vector.len()
                invariant
                    e <= clock.vector.len(),
                    distinct(res@),
                    forall|replica: Seq<char>|
                        names(res@, replica) <==> recorded_among(clocks@, c as int, replica)
                            || listed_among(clock.vector@, e as int, replica),
                decreases clock.vector.len() - e,
            {
                let ghost before = res@;
                let fresh = !contains(&res, &clock.vector[e].node);
                if fresh {
                    res.push(clock.vector[e].node.clone());
                }
                proof {
                    assert forall|replica: Seq<char>|
                        names(res@, replica) <==> recorded_among(clocks@, c as int, replica)
                            || listed_among(clock.vector@, e + 1, replica) by {
                        lemma_listed_step(clock.vector@, e as int, replica);
                        if fresh {
                            lemma_names_push(before, clock.vector@[e as int].node, replica);
                        }
                    }
                }
                e += 1;
            }
            proof {
                assert forall|replica: Seq<char>|
                    names(res@, replica) <==> recorded_among(clocks@, c + 1, replica) by {
                    lemma_clock_lists(clock.vector@, replica);
                    if clock@.contains_key(replica) {
                        assert(clocks@[c as int]@.contains_key(replica));
                    }
                    if recorded_among(clocks@, c + 1, replica) {
                        let d = choose|d: int|
                            0 <= d < c + 1 && (#[trigger] clocks@[d])@.contains_key(replica);
                        if d < c {
                            assert(recorded_among(clocks@, c as int, replica));
                        }
                    }
                }
            }
            c += 1;
        }
        res
    }

    /// The counter recorded for `id`, if there is one.
    fn lookup(&self, id: &String) -> (found: Option<i64>)
        ensures
            found == self@.get(id@),
            found matches Some(n) ==> n >= 1,
    {
        proof {
            use_type_invariant(self);
        }
        match position(&self.vector, id) {
            Some(i) => {
                proof {
                    lemma_clock_at(self.vector@, i as int);
                }
                Some(self.vector[i].count)
            },
            None => {
                proof {
                    lemma_clock_without(self.vector@, id@);
                }
                None
            },
        }
    }

    /// The counter for `id`, zero where none is recorded.
    pub(crate) fn count(&self, id: &String) -> (n: i64)
        ensures
            n == counter(self@, id@),
            n >= 1 <==> self@.contains_key(id@),
    {
        match self.lookup(id) {
            None => 0,
            Some(v) => v,
        }
    }
}

impl Clone for VersionVector {
    fn clone(&self) -> (copy: VersionVector)
        ensures
            copy@ == self@,
    {
        proof {
            use_type_invariant(self);
        }
        let mut entries: Vec<Entry> = Vec::new();
        let mut i: usize = 0;
        while i < self.vector.len()
            invariant
                i <= self.vector.len(),
                entries.len() == i,
                forall|j: int| 0 <= j < i ==> entries[j] == self.vector[j],
            decreases self.vector.len() - i,
        {
            entries.push(Entry { node: self.vector[i].node.clone(), count: self.vector[i].count });
            i += 1;
        }
        assert(entries@ =~= self.vector@);
        VersionVector { vector: entries }
    }
}

impl Default for VersionVector {
    /// The empty vector.
    fn default() -> (vector: VersionVector)
        ensures
            vector@ == Map::<Seq<char>, i64>::empty(),
    {
        VersionVector::new()
    }
}

} // verus!
