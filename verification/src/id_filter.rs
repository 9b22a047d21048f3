//! Selection of robots by id.

use vstd::prelude::*;

verus! {

/// Decides which robots may connect.
#[derive(Debug)]
pub struct RobotIdFilter {
    blacklist: Vec<u8>,
}

impl RobotIdFilter {
    /// The robots that may connect.
    pub closed spec fn accepts(&self, id: u8) -> bool {
        !self.blacklist@.contains(id)
    }

    /// Accepts every robot.
    pub fn new() -> (f: RobotIdFilter)
        ensures
            forall|id: u8| f.accepts(id),
    {
        RobotIdFilter { blacklist: Vec::new() }
    }

    /// Accepts the same robots, but for those in `ids`.
    pub fn with_blacklist(self, ids: Vec<u8>) -> (f: RobotIdFilter)
        ensures
            forall|id: u8| #[trigger] f.accepts(id) == (self.accepts(id) && !ids@.contains(id)),
    {
        let mut blacklist: Vec<u8> = self.blacklist;
        let ghost before = blacklist@;
        let mut ids: Vec<u8> = ids;
        let ghost added = ids@;
        blacklist.append(&mut ids);
        let f = RobotIdFilter { blacklist };
        proof {
            assert forall|id: u8| #[trigger] f.accepts(id) == (self.accepts(id) && !added.contains(
                id,
            )) by {
                vstd::seq_lib::lemma_seq_concat_contains_all_elements(before, added, id);
            }
        }
        f
    }

    /// Whether the robot may connect.
    pub fn apply(&self, id: u8) -> (b: bool)
        ensures
            b == self.accepts(id),
    {
        let mut i: usize = 0;
        while i < self.blacklist.len()
            invariant
                i <= self.blacklist@.len(),
                forall|k: int| 0 <= k < i ==> self.blacklist@[k] != id,
            decreases self.blacklist@.len() - i,
        {
            if self.blacklist[i] == id {
                return false;
            }
            i = i + 1;
        }
        true
    }
}

impl Default for RobotIdFilter {
    /// Accepts every robot.
    fn default() -> (f: RobotIdFilter)
        ensures
            forall|id: u8| f.accepts(id),
    {
        RobotIdFilter::new()
    }
}

impl Clone for RobotIdFilter {
    fn clone(&self) -> (f: RobotIdFilter)
        ensures
            forall|id: u8| f.accepts(id) == self.accepts(id),
    {
        let f = RobotIdFilter { blacklist: self.blacklist.clone() };
        proof {
            assert(f.blacklist@ =~= self.blacklist@);
        }
        f
    }
}

} // verus!
