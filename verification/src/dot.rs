//! The dot: the mark of one event, by the replica that made it and its number
//! there.

use crate::model::{dot_descends, dot_descends_clock, Event};
use crate::version_vector::VersionVector;
use vstd::prelude::*;

verus! {

/// Event number `.1` of replica `.0`. Counter zero says that no event of the
/// replica has been seen yet.
#[derive(Debug)]
pub struct Dot(pub String, pub i64);

impl View for Dot {
    type V = Event;

    open spec fn view(&self) -> Event {
        Event { replica: self.0@, counter: self.1 as int }
    }
}

impl Clone for Dot {
    fn clone(&self) -> (dot: Dot)
        ensures
            dot == *self,
    {
        Dot(self.0.clone(), self.1)
    }
}

impl Dot {
    /// Whether this dot is at least as far, for its replica, as `w` is: the
    /// mirror image of [`VersionVector::descends_dot`]. A replica that `w` has
    /// not heard of counts as zero there.
    pub fn descends_vv(&self, w: &VersionVector) -> (b: bool)
        ensures
            b == dot_descends_clock(self@, w@),
    {
        let v = w.count(&self.0);
        self.1 >= v
    }

    /// Whether this dot descends `w`: both belong to one replica and this one
    /// is not the earlier. For dots of different replicas the answer is `false`
    /// both ways.
    pub fn descends(&self, w: &Dot) -> (b: bool)
        ensures
            b == dot_descends(self@, w@),
    {
        self.0 == w.0 && self.1 >= w.1
    }
}

} // verus!
