use vstd::prelude::*;

use crate::plan::Rename;

verus! {

/// Bookkeeping of the execute phase: hands out the planned renames strictly
/// in the planner's emission order and counts the ones that were performed.
/// The caller carries each rename out and reports back; after a failure it
/// simply stops asking, so earlier renames stay in place (partial
/// application is accepted) and the counter still says how many happened.
pub struct Executor {
    records: Vec<Rename>,
    done: usize,
}

impl Executor {
    /// The planned renames, in order.
    pub closed spec fn records_view(&self) -> Seq<(Seq<u8>, Seq<u8>)> {
        self.records.deep_view()
    }

    /// How many renames have been performed so far.
    pub closed spec fn performed_count(&self) -> int {
        self.done as int
    }

    /// The counter never runs past the plan.
    pub closed spec fn wf(&self) -> bool {
        self.done <= self.records.len()
    }

    /// Starts the execute phase at the head of the plan.
    pub fn new(records: Vec<Rename>) -> (r: Executor)
        ensures
            r.wf(),
            r.records_view() == records.deep_view(),
            r.performed_count() == 0,
    {
        Executor { records, done: 0 }
    }

    /// The next rename to perform, or `None` when the plan is exhausted.
    pub fn next_pending(&self) -> (r: Option<&Rename>)
        requires
            self.wf(),
        ensures
            r matches Some(record) ==> self.performed_count() < self.records_view().len()
                && record.deep_view() == self.records_view()[self.performed_count()],
            r is None ==> self.performed_count() == self.records_view().len(),
    {
        if self.done < self.records.len() {
            Some(&self.records[self.done])
        } else {
            None
        }
    }

    /// Records that the pending rename was performed: the counter moves up
    /// by one and the plan itself is unchanged.
    pub fn mark_performed(&mut self)
        requires
            old(self).wf(),
            old(self).performed_count() < old(self).records_view().len(),
        ensures
            final(self).wf(),
            final(self).records_view() == old(self).records_view(),
            final(self).performed_count() == old(self).performed_count() + 1,
    {
        self.done = self.done + 1;
    }

    /// The number of renames performed: what the final summary reports.
    pub fn performed(&self) -> (n: usize)
        ensures
            n == self.performed_count(),
    {
        self.done
    }
}

} // verus!
