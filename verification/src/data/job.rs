//! Jobs: named tasks with an ordered list of ability-tagged worker slots.

use vstd::prelude::*;

use crate::data::person::Ability;

verus! {

/// The mathematical value of a `Job`: its name and the ordered tiers of its
/// worker slots.
pub ghost struct JobView {
    pub name: Seq<char>,
    pub slots: Seq<Ability>,
}

/// A named task. Slot `i` of the job must be worked by a person of tier
/// `slots[i]`.
#[derive(Debug)]
pub struct Job {
    name: &'static str,
    people: Vec<Ability>,
}

impl View for Job {
    type V = JobView;

    closed spec fn view(&self) -> JobView {
        JobView { name: self.name@, slots: self.people@ }
    }
}

impl Clone for Job {
    fn clone(&self) -> (j: Self)
        ensures
            j@ == self@,
    {
        let people = self.people.clone();
        proof {
            assert(people@ =~= self.people@);
        }
        Job { name: self.name, people }
    }
}

impl Job {
    pub fn new(name: &'static str, people: Vec<Ability>) -> (j: Self)
        ensures
            j@ == (JobView { name: name@, slots: people@ }),
    {
        Job { name, people }
    }

    pub fn name(&self) -> (s: &str)
        ensures
            s@ == self@.name,
    {
        self.name
    }

    /// The ordered tiers of the workers this job needs.
    pub fn people(&self) -> (slots: &Vec<Ability>)
        ensures
            slots@ == self@.slots,
    {
        &self.people
    }
}

/// How many slots of tier `t` the slot list `slots` holds.
pub open spec fn count_tier(slots: Seq<Ability>, t: Ability) -> nat
    decreases slots.len(),
{
    if slots.len() == 0 {
        0
    } else {
        count_tier(slots.drop_last(), t) + if slots.last() == t {
            1nat
        } else {
            0nat
        }
    }
}

/// The views of a list of jobs.
pub open spec fn jobs_view(jobs: Seq<Job>) -> Seq<JobView> {
    jobs.map_values(|j: Job| j@)
}

/// How many slots of tier `t` the first `j` jobs hold together. For the day
/// assigner this is the number of tier-`t` pool members handed out before
/// job `j` is reached.
pub open spec fn slots_before_job(jobs: Seq<JobView>, t: Ability, j: int) -> nat
    decreases j,
{
    if j <= 0 {
        0
    } else {
        slots_before_job(jobs, t, j - 1) + count_tier(jobs[j - 1].slots, t)
    }
}

/// How many slots of tier `t` one whole day's job list holds.
pub open spec fn total_tier(jobs: Seq<JobView>, t: Ability) -> nat {
    slots_before_job(jobs, t, jobs.len() as int)
}

/// Counting tier `t` in a one-longer prefix adds one exactly when the new
/// slot has tier `t`.
pub proof fn lemma_count_tier_take_succ(slots: Seq<Ability>, t: Ability, i: int)
    requires
        0 <= i < slots.len(),
    ensures
        count_tier(slots.take(i + 1), t) == count_tier(slots.take(i), t) + if slots[i] == t {
            1nat
        } else {
            0nat
        },
{
    assert(slots.take(i + 1).drop_last() =~= slots.take(i));
    assert(slots.take(i + 1).last() == slots[i]);
}

/// The whole slot list is its own full prefix.
pub proof fn lemma_count_tier_take_all(slots: Seq<Ability>, t: Ability)
    ensures
        count_tier(slots.take(slots.len() as int), t) == count_tier(slots, t),
{
    assert(slots.take(slots.len() as int) =~= slots);
}

/// A count of one tier never exceeds the number of slots.
pub proof fn lemma_count_tier_le_len(slots: Seq<Ability>, t: Ability)
    ensures
        count_tier(slots, t) <= slots.len(),
    decreases slots.len(),
{
    if slots.len() > 0 {
        lemma_count_tier_le_len(slots.drop_last(), t);
    }
}

/// Prefix sums of slot counts grow with the prefix.
pub proof fn lemma_slots_before_job_le(jobs: Seq<JobView>, t: Ability, j1: int, j2: int)
    requires
        0 <= j1 <= j2,
    ensures
        slots_before_job(jobs, t, j1) <= slots_before_job(jobs, t, j2),
    decreases j2 - j1,
{
    if j1 < j2 {
        lemma_slots_before_job_le(jobs, t, j1, j2 - 1);
    }
}

} // verus!
