//! One day's assignment: every job paired with the workers that fill its
//! slots, produced by draining the three rotation pools slot by slot.

use vstd::prelude::*;

use crate::data::job::count_tier;
use crate::data::job::jobs_view;
use crate::data::job::slots_before_job;
use crate::data::job::total_tier;
use crate::data::job::lemma_count_tier_take_succ;
use crate::data::job::lemma_count_tier_take_all;
use crate::data::job::Job;
use crate::data::job::JobView;
use crate::data::person::people_view;
use crate::data::person::Ability;
use crate::data::person::Person;
use crate::data::person::PersonView;
use crate::data::pool::lemma_advanced_compose;
use crate::data::pool::lemma_advanced_zero;
use crate::data::pool::lemma_pick_after_advanced;
use crate::data::pool::PoolView;
use crate::data::pool::RotationPool;

verus! {

/// The mathematical value of a `Day`: its label and, in job order, each
/// job paired with its assigned workers.
pub ghost struct DayView {
    pub name: Seq<char>,
    pub jobs: Seq<(JobView, Seq<PersonView>)>,
}

/// The pool that serves tier `t`.
pub open spec fn pool_of(t: Ability, ch: PoolView, te: PoolView, ad: PoolView) -> PoolView {
    match t {
        Ability::Child => ch,
        Ability::Teen => te,
        Ability::Adult => ad,
    }
}

/// The worker that fills slot `i` of job `j` when the jobs are walked in
/// declaration order, slot by slot: the slot's tier has already supplied one
/// worker for each earlier tier-matching slot, so its pool hands out the
/// member that many positions past the cursor.
pub open spec fn day_worker(
    jobs: Seq<JobView>,
    ch: PoolView,
    te: PoolView,
    ad: PoolView,
    j: int,
    i: int,
) -> PersonView {
    let t = jobs[j].slots[i];
    let k = slots_before_job(jobs, t, j) + count_tier(jobs[j].slots.take(i), t);
    pool_of(t, ch, te, ad).pick(k)
}

/// The full worker list of job `j` for one day.
pub open spec fn day_workers(
    jobs: Seq<JobView>,
    ch: PoolView,
    te: PoolView,
    ad: PoolView,
    j: int,
) -> Seq<PersonView> {
    Seq::new(jobs[j].slots.len(), |i: int| day_worker(jobs, ch, te, ad, j, i))
}

/// One day's complete assignment, as a function of the job list and the
/// three pool states at the start of the day.
pub open spec fn spec_day(
    name: Seq<char>,
    jobs: Seq<JobView>,
    ch: PoolView,
    te: PoolView,
    ad: PoolView,
) -> DayView {
    DayView {
        name,
        jobs: Seq::new(jobs.len(), |j: int| (jobs[j], day_workers(jobs, ch, te, ad, j))),
    }
}

/// The views of a list of (job, workers) pairs.
pub open spec fn day_jobs_view(s: Seq<(Job, Vec<Person>)>) -> Seq<(JobView, Seq<PersonView>)> {
    s.map_values(|pr: (Job, Vec<Person>)| (pr.0@, people_view(pr.1@)))
}

/// One scheduling period's complete job-to-worker assignment, in job
/// declaration order. Immutable once returned.
#[derive(Debug)]
pub struct Day {
    name: String,
    jobs: Vec<(Job, Vec<Person>)>,
}

impl View for Day {
    type V = DayView;

    closed spec fn view(&self) -> DayView {
        DayView { name: self.name@, jobs: day_jobs_view(self.jobs@) }
    }
}

impl Day {
    /// Fill every slot of every job, in declaration order, from the pool of
    /// the slot's tier. Each pool advances by exactly the number of slots of
    /// its tier; nothing else about the pools changes.
    #[verifier::loop_isolation(false)]
    pub fn new(
        name: String,
        jobs: Vec<Job>,
        children: &mut RotationPool,
        teens: &mut RotationPool,
        adults: &mut RotationPool,
    ) -> (day: Day)
        requires
            old(children)@.wf(),
            old(teens)@.wf(),
            old(adults)@.wf(),
            old(children)@.tier == Ability::Child,
            old(teens)@.tier == Ability::Teen,
            old(adults)@.tier == Ability::Adult,
        ensures
            day@ == spec_day(name@, jobs_view(jobs@), old(children)@, old(teens)@, old(adults)@),
            final(children)@ == old(children)@.advanced(
                total_tier(jobs_view(jobs@), Ability::Child),
            ),
            final(teens)@ == old(teens)@.advanced(total_tier(jobs_view(jobs@), Ability::Teen)),
            final(adults)@ == old(adults)@.advanced(total_tier(jobs_view(jobs@), Ability::Adult)),
            final(children)@.wf(),
            final(teens)@.wf(),
            final(adults)@.wf(),
    {
        let ghost jv = jobs_view(jobs@);
        let ghost ch0 = children@;
        let ghost te0 = teens@;
        let ghost ad0 = adults@;
        proof {
            lemma_advanced_zero(ch0);
            lemma_advanced_zero(te0);
            lemma_advanced_zero(ad0);
        }
        let mut day_jobs: Vec<(Job, Vec<Person>)> = Vec::new();
        let mut j: usize = 0;
        while j < jobs.len()
            invariant
                j <= jobs.len(),
                day_jobs@.len() == j,
                forall|jj: int|
                    0 <= jj < j ==> #[trigger] day_jobs_view(day_jobs@)[jj] == (
                        jv[jj],
                        day_workers(jv, ch0, te0, ad0, jj),
                    ),
                children@ == ch0.advanced(slots_before_job(jv, Ability::Child, j as int)),
                teens@ == te0.advanced(slots_before_job(jv, Ability::Teen, j as int)),
                adults@ == ad0.advanced(slots_before_job(jv, Ability::Adult, j as int)),
                children@.wf(),
                teens@.wf(),
                adults@.wf(),
            decreases jobs.len() - j,
        {
            let job = jobs[j].clone();
            let slots = job.people().len();
            let mut workers: Vec<Person> = Vec::new();
            let mut i: usize = 0;
            while i < slots
                invariant
                    i <= slots,
                    slots == jv[j as int].slots.len(),
                    job@ == jv[j as int],
                    workers@.len() == i,
                    forall|ii: int|
                        0 <= ii < i ==> #[trigger] people_view(workers@)[ii] == day_worker(
                            jv,
                            ch0,
                            te0,
                            ad0,
                            j as int,
                            ii,
                        ),
                    children@ == ch0.advanced(
                        slots_before_job(jv, Ability::Child, j as int) + count_tier(
                            jv[j as int].slots.take(i as int),
                            Ability::Child,
                        ),
                    ),
                    teens@ == te0.advanced(
                        slots_before_job(jv, Ability::Teen, j as int) + count_tier(
                            jv[j as int].slots.take(i as int),
                            Ability::Teen,
                        ),
                    ),
                    adults@ == ad0.advanced(
                        slots_before_job(jv, Ability::Adult, j as int) + count_tier(
                            jv[j as int].slots.take(i as int),
                            Ability::Adult,
                        ),
                    ),
                    children@.wf(),
                    teens@.wf(),
                    adults@.wf(),
                decreases slots - i,
            {
                let tier = job.people()[i];
                proof {
                    lemma_count_tier_take_succ(jv[j as int].slots, Ability::Child, i as int);
                    lemma_count_tier_take_succ(jv[j as int].slots, Ability::Teen, i as int);
                    lemma_count_tier_take_succ(jv[j as int].slots, Ability::Adult, i as int);
                    let k = slots_before_job(jv, tier, j as int) + count_tier(
                        jv[j as int].slots.take(i as int),
                        tier,
                    );
                    lemma_pick_after_advanced(pool_of(tier, ch0, te0, ad0), k, 0);
                    lemma_advanced_compose(pool_of(tier, ch0, te0, ad0), k, 1);
                }
                let p = match tier {
                    Ability::Child => children.next(),
                    Ability::Teen => teens.next(),
                    Ability::Adult => adults.next(),
                };
                let ghost prev_workers = workers@;
                let ghost pp = p;
                workers.push(p);
                proof {
                    assert forall|ii: int|
                        0 <= ii < i + 1 implies #[trigger] people_view(workers@)[ii]
                        == day_worker(jv, ch0, te0, ad0, j as int, ii) by {
                        if ii < i {
                            assert(workers@[ii] == prev_workers[ii]);
                            assert(people_view(prev_workers)[ii] == day_worker(
                                jv,
                                ch0,
                                te0,
                                ad0,
                                j as int,
                                ii,
                            ));
                        } else {
                            assert(workers@[ii] == prev_workers.push(pp)[ii]);
                        }
                    }
                }
                i = i + 1;
            }
            proof {
                lemma_count_tier_take_all(jv[j as int].slots, Ability::Child);
                lemma_count_tier_take_all(jv[j as int].slots, Ability::Teen);
                lemma_count_tier_take_all(jv[j as int].slots, Ability::Adult);
                assert(people_view(workers@) =~= day_workers(jv, ch0, te0, ad0, j as int));
            }
            let ghost jobv = job@;
            let ghost workers_seq = workers@;
            let ghost prev_day_jobs = day_jobs@;
            day_jobs.push((job, workers));
            proof {
                assert forall|jj: int|
                    0 <= jj < j + 1 implies #[trigger] day_jobs_view(day_jobs@)[jj] == (
                    jv[jj],
                    day_workers(jv, ch0, te0, ad0, jj),
                ) by {
                    if jj < j {
                        assert(day_jobs@[jj] == prev_day_jobs[jj]);
                        assert(day_jobs_view(prev_day_jobs)[jj] == (
                            jv[jj],
                            day_workers(jv, ch0, te0, ad0, jj),
                        ));
                    } else {
                        assert(day_jobs@[jj].0@ == jobv);
                        assert(people_view(day_jobs@[jj].1@) == people_view(workers_seq));
                    }
                }
            }
            j = j + 1;
        }
        let day = Day { name, jobs: day_jobs };
        proof {
            assert(day@.jobs =~= spec_day(name@, jv, ch0, te0, ad0).jobs);
        }
        day
    }

    /// The day's label.
    pub fn name(&self) -> (s: &str)
        ensures
            s@ == self@.name,
    {
        self.name.as_str()
    }

    /// Every job of the day with its assigned workers, in job order.
    pub fn jobs(&self) -> (jobs: &Vec<(Job, Vec<Person>)>)
        ensures
            day_jobs_view(jobs@) == self@.jobs,
    {
        &self.jobs
    }

    /// The workers assigned to the job at `job` in the day's job order.
    pub fn get_job_people(&self, job: usize) -> (workers: &Vec<Person>)
        requires
            job < self@.jobs.len(),
        ensures
            people_view(workers@) == self@.jobs[job as int].1,
    {
        &self.jobs[job].1
    }
}

} // verus!
