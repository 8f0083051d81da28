//! A week: an ordered run of days that all share one job catalog.

use vstd::prelude::*;

use crate::data::day::day_jobs_view;
use crate::data::day::Day;
use crate::data::day::DayView;
use crate::data::job::Job;
use crate::data::job::jobs_view;

verus! {

/// The views of a list of days.
pub open spec fn days_view(s: Seq<Day>) -> Seq<DayView> {
    s.map_values(|d: Day| d@)
}

/// An ordered run of day assignments. Every day was produced from the same
/// job list, so all days agree on job count, names and order.
#[derive(Debug)]
pub struct Week {
    week: Vec<Day>,
}

impl View for Week {
    type V = Seq<DayView>;

    closed spec fn view(&self) -> Seq<DayView> {
        days_view(self.week@)
    }
}

impl Week {
    pub fn new(week: Vec<Day>) -> (w: Self)
        ensures
            w@ == days_view(week@),
    {
        Week { week }
    }

    /// How many jobs each day of the week assigns. A week with no days has
    /// no job list to ask.
    pub fn num_jobs(&self) -> (n: usize)
        requires
            self@.len() > 0,
        ensures
            n == self@[0].jobs.len(),
    {
        self.week[0].jobs().len()
    }

    /// The days, in order.
    pub fn days(&self) -> (days: &Vec<Day>)
        ensures
            days_view(days@) == self@,
    {
        &self.week
    }

    /// The shared job catalog: the jobs of the first day, in order, without
    /// their workers.
    #[verifier::loop_isolation(false)]
    pub fn jobs(&self) -> (jobs: Vec<Job>)
        requires
            self@.len() > 0,
        ensures
            jobs_view(jobs@).len() == self@[0].jobs.len(),
            forall|i: int|
                0 <= i < jobs@.len() ==> jobs_view(jobs@)[i] == self@[0].jobs[i].0,
    {
        let first = self.week[0].jobs();
        let mut jobs: Vec<Job> = Vec::new();
        let n = first.len();
        let mut i: usize = 0;
        while i < n
            invariant
                i <= n,
                n == first@.len(),
                day_jobs_view(first@) == self@[0].jobs,
                jobs@.len() == i,
                forall|k: int| 0 <= k < i ==> (#[trigger] jobs@[k])@ == self@[0].jobs[k].0,
            decreases n - i,
        {
            jobs.push(first[i].0.clone());
            i = i + 1;
        }
        jobs
    }
}

} // verus!
