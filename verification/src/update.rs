//! The general change: any function from the data read to the data to keep.
//!
//! Every named change (adding, moving, editing, ...) is one of these; this
//! is the door for a change the library has no name for.

use vstd::prelude::*;

use crate::error::Result;
use crate::log::{latest, lemma_replay_distinct};
use crate::model::now_millis;
use crate::persist::{committed, copy_data, read_refusal, reads_as, Store, StoreView};
use crate::store::Data;

verus! {

/// What `update` is owed for a change: on success, the store was read, the
/// change ran on what was read and succeeded, and what it returned was
/// committed; on failure nothing was written, and either the store could
/// not be read or the change failed on what was read.
pub open spec fn updated<T, F: FnOnce(Data) -> (Data, Result<T>)>(
    old: StoreView,
    new: StoreView,
    change: F,
    r: Result<T>,
) -> bool {
    match r {
        Ok(_) => exists|before: Data, after: Data, now: u64|
            #![trigger call_ensures(change, (before,), (after, r)), committed(old, new, before@, after@, now)]
            reads_as(old, before@) && call_ensures(change, (before,), (after, r)) && committed(
                old,
                new,
                before@,
                after@,
                now,
            ),
        Err(e) => new == old && (read_refusal(old, e) || exists|before: Data, after: Data|
            #![trigger call_ensures(change, (before,), (after, r))]
            reads_as(old, before@) && call_ensures(change, (before,), (after, r))),
    }
}

impl Store {
    /// Make a change: read the store, hand a copy of what was read to
    /// `change`, and, if it succeeds, commit the data it hands back (only
    /// what differs is appended to the log). If it fails, nothing is written.
    pub fn update<T, F: FnOnce(Data) -> (Data, Result<T>)>(&mut self, change: F) -> (r: Result<T>)
        requires
            forall|d: Data| #[trigger] call_requires(change, (d,)),
        ensures
            updated(old(self)@, final(self)@, change, r),
    {
        let before = match self.read() {
            Ok(d) => d,
            Err(e) => return Err(e),
        };
        let copy = copy_data(&before);
        let ghost given = copy;
        let (after, outcome) = change(copy);
        match outcome {
            Ok(x) => {
                let now = now_millis();
                proof {
                    reveal(reads_as);
                    lemma_replay_distinct(latest(self@.records), before@.tasks);
                }
                let ghost kept_after = after;
                self.commit(&before, after, now);
                proof {
                    assert(reads_as(old(self)@, given@));
                    assert(committed(old(self)@, self@, given@, kept_after@, now));
                }
                Ok(x)
            },
            Err(e) => {
                proof {
                    assert(reads_as(old(self)@, given@));
                }
                Err(e)
            },
        }
    }
}

} // verus!
