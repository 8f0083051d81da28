//! Kitchen-patrol chart scheduling: assigns a fixed catalog of household jobs
//! to a roster of people over a run of days, rotating each ability tier's pool
//! round-robin and applying an extra adult-pool advance between days so the
//! heaviest adult jobs do not land on the same adults every day.
//!
//! Policy choices, documented here once: an empty tier pool degrades
//! gracefully (a placeholder person fills the slot, see `data::pool`), and a
//! run of zero days returns an empty week cleanly rather than failing.

pub mod data;
pub mod label;
pub mod laws;

use vstd::prelude::*;

use crate::data::day::spec_day;
use crate::data::day::Day;
use crate::data::day::DayView;
use crate::data::job::count_tier;
use crate::data::job::jobs_view;
use crate::data::job::lemma_count_tier_take_all;
use crate::data::job::lemma_count_tier_take_succ;
use crate::data::job::lemma_slots_before_job_le;
use crate::data::job::slots_before_job;
use crate::data::job::total_tier;
use crate::data::job::Job;
use crate::data::job::JobView;
use crate::data::person::filter_tier;
use crate::data::person::lemma_filter_tier_ability;
use crate::data::person::lemma_filter_tier_take_all;
use crate::data::person::lemma_filter_tier_take_succ;
use crate::data::person::lemma_people_view_push;
use crate::data::person::people_view;
use crate::data::person::Ability;
use crate::data::person::Person;
use crate::data::person::PersonView;
use crate::data::pool::lemma_advanced_compose;
use crate::data::pool::PoolView;
use crate::data::pool::RotationPool;
use crate::data::week::days_view;
use crate::data::week::Week;
use crate::label::day_label;
use crate::label::day_label_string;

verus! {

/// The pool a scheduling run starts with for tier `t`: the tier's people in
/// roster order, cursor at the front.
pub open spec fn start_pool(t: Ability, people: Seq<PersonView>) -> PoolView {
    PoolView { tier: t, members: filter_tier(people, t), cursor: 0 }
}

/// The extra steps the adult pool is advanced after each day. When the day's
/// adult slot count and one more adult exactly fill the pool, a single extra
/// step would rotate the pool back onto the same adults for the heaviest
/// jobs every day; two steps break that degenerate cycle.
pub open spec fn adult_offset(adult_slots: nat, adult_pool_size: nat) -> nat {
    if adult_slots + 1 == adult_pool_size {
        2
    } else {
        1
    }
}

/// The days `n` consecutive runs of the day assigner produce, starting at
/// day index `d` with the given pool states. After each day every pool has
/// advanced by its tier's slot count, and the adult pool by `off` more.
pub open spec fn spec_days(
    n: nat,
    d: nat,
    jobs: Seq<JobView>,
    ch: PoolView,
    te: PoolView,
    ad: PoolView,
    off: nat,
) -> Seq<DayView>
    decreases n,
{
    if n == 0 {
        Seq::empty()
    } else {
        seq![spec_day(day_label(d), jobs, ch, te, ad)] + spec_days(
            (n - 1) as nat,
            d + 1,
            jobs,
            ch.advanced(total_tier(jobs, Ability::Child)),
            te.advanced(total_tier(jobs, Ability::Teen)),
            ad.advanced(total_tier(jobs, Ability::Adult) + off),
            off,
        )
    }
}

/// A whole scheduling run: partition the roster into the three tier pools,
/// fix the adult offset once from the job list and the original adult pool
/// size, and run the day assigner `n` times.
pub open spec fn spec_calculate(n: nat, jobs: Seq<JobView>, people: Seq<PersonView>) -> Seq<
    DayView,
> {
    let ch = start_pool(Ability::Child, people);
    let te = start_pool(Ability::Teen, people);
    let ad = start_pool(Ability::Adult, people);
    spec_days(
        n,
        0,
        jobs,
        ch,
        te,
        ad,
        adult_offset(total_tier(jobs, Ability::Adult), ad.members.len()),
    )
}

/// The people of one tier, in roster order.
#[verifier::loop_isolation(false)]
fn filter_people(people: &Vec<Person>, tier: Ability) -> (kept: Vec<Person>)
    ensures
        people_view(kept@) == filter_tier(people_view(people@), tier),
        forall|i: int| 0 <= i < kept@.len() ==> (#[trigger] kept@[i])@.ability == tier,
{
    let ghost pv = people_view(people@);
    let mut kept: Vec<Person> = Vec::new();
    proof {
        assert(pv.take(0) =~= Seq::empty());
    }
    let mut i: usize = 0;
    while i < people.len()
        invariant
            i <= people@.len(),
            people_view(kept@) == filter_tier(pv.take(i as int), tier),
        decreases people@.len() - i,
    {
        proof {
            lemma_filter_tier_take_succ(pv, tier, i as int);
        }
        let ghost prev = kept@;
        if people[i].ability() == tier {
            let p = people[i].clone();
            kept.push(p);
            proof {
                lemma_people_view_push(prev, p);
                assert(people_view(kept@) =~= filter_tier(pv.take(i as int + 1), tier));
            }
        }
        i = i + 1;
    }
    proof {
        lemma_filter_tier_take_all(pv, tier);
        lemma_filter_tier_ability(pv, tier);
        assert forall|k: int| 0 <= k < kept@.len() implies (#[trigger] kept@[k])@.ability
            == tier by {
            assert(people_view(kept@)[k] == kept@[k]@);
        }
    }
    kept
}

/// How many slots of tier `tier` one job's slot list holds.
fn count_tier_in(slots: &Vec<Ability>, tier: Ability) -> (n: usize)
    ensures
        n == count_tier(slots@, tier),
{
    let mut n: usize = 0;
    proof {
        assert(slots@.take(0) =~= Seq::empty());
    }
    let mut i: usize = 0;
    while i < slots.len()
        invariant
            i <= slots@.len(),
            n <= i,
            n == count_tier(slots@.take(i as int), tier),
        decreases slots@.len() - i,
    {
        proof {
            lemma_count_tier_take_succ(slots@, tier, i as int);
        }
        if slots[i] == tier {
            n = n + 1;
        }
        i = i + 1;
    }
    proof {
        lemma_count_tier_take_all(slots@, tier);
    }
    n
}

/// How many slots of tier `tier` the whole job list holds.
#[verifier::loop_isolation(false)]
fn count_tier_slots(jobs: &Vec<Job>, tier: Ability) -> (n: usize)
    requires
        total_tier(jobs_view(jobs@), tier) <= usize::MAX,
    ensures
        n == total_tier(jobs_view(jobs@), tier),
{
    let ghost jv = jobs_view(jobs@);
    let mut n: usize = 0;
    let mut j: usize = 0;
    while j < jobs.len()
        invariant
            j <= jobs@.len(),
            n == slots_before_job(jv, tier, j as int),
        decreases jobs@.len() - j,
    {
        proof {
            lemma_slots_before_job_le(jv, tier, j as int + 1, jv.len() as int);
        }
        let c = count_tier_in(jobs[j].people(), tier);
        n = n + c;
        j = j + 1;
    }
    n
}

/// Produce a week of `num_days` day assignments for `jobs` over the roster
/// `people`: partition the roster by tier, then run the day assigner once per
/// day, advancing the adult pool by the fixed offset at every day boundary.
/// Zero days yield an empty week.
#[verifier::loop_isolation(false)]
pub fn calculate(num_days: usize, jobs: Vec<Job>, people: Vec<Person>) -> (week: Week)
    requires
        total_tier(jobs_view(jobs@), Ability::Adult) <= usize::MAX,
    ensures
        week@ == spec_calculate(num_days as nat, jobs_view(jobs@), people_view(people@)),
        week@.len() == num_days,
{
    let ghost jv = jobs_view(jobs@);
    let ghost pv = people_view(people@);

    let children = filter_people(&people, Ability::Child);
    let teens = filter_people(&people, Ability::Teen);
    let adults = filter_people(&people, Ability::Adult);
    let adult_pool_len = adults.len();

    let mut children_pool = RotationPool::new(Ability::Child, children);
    let mut teens_pool = RotationPool::new(Ability::Teen, teens);
    let mut adults_pool = RotationPool::new(Ability::Adult, adults);

    let adult_job_count = count_tier_slots(&jobs, Ability::Adult);
    let ghost off = adult_offset(total_tier(jv, Ability::Adult), filter_tier(pv, Ability::Adult).len());

    proof {
        assert(children_pool@ == start_pool(Ability::Child, pv));
        assert(teens_pool@ == start_pool(Ability::Teen, pv));
        assert(adults_pool@ == start_pool(Ability::Adult, pv));
    }

    let mut days: Vec<Day> = Vec::new();
    let mut i: usize = 0;
    while i < num_days
        invariant
            i <= num_days,
            days@.len() == i,
            children_pool@.wf(),
            teens_pool@.wf(),
            adults_pool@.wf(),
            children_pool@.tier == Ability::Child,
            teens_pool@.tier == Ability::Teen,
            adults_pool@.tier == Ability::Adult,
            spec_calculate(num_days as nat, jv, pv) == days_view(days@) + spec_days(
                (num_days - i) as nat,
                i as nat,
                jv,
                children_pool@,
                teens_pool@,
                adults_pool@,
                off,
            ),
        decreases num_days - i,
    {
        let label = day_label_string(i);
        let ghost ch_cur = children_pool@;
        let ghost te_cur = teens_pool@;
        let ghost ad_cur = adults_pool@;
        let ghost prev_days = days@;

        let day_jobs = jobs.clone();
        proof {
            assert forall|k: int| 0 <= k < day_jobs@.len() implies #[trigger] jobs_view(
                day_jobs@,
            )[k] == jv[k] by {
                assert(cloned::<Job>(jobs@[k], day_jobs@[k]));
            }
            assert(jobs_view(day_jobs@) =~= jv);
        }
        let day = Day::new(label, day_jobs, &mut children_pool, &mut teens_pool, &mut adults_pool);
        let ghost dayv = day@;
        days.push(day);

        if adult_pool_len > 0 && adult_job_count == adult_pool_len - 1 {
            adults_pool.advance_extra(1);
            adults_pool.advance_extra(1);
            proof {
                lemma_advanced_compose(ad_cur.advanced(total_tier(jv, Ability::Adult)), 1, 1);
            }
        } else {
            adults_pool.advance_extra(1);
        }

        proof {
            lemma_advanced_compose(ad_cur, total_tier(jv, Ability::Adult), off);
            assert(adults_pool@ == ad_cur.advanced(total_tier(jv, Ability::Adult) + off));
            assert(days_view(days@) =~= days_view(prev_days).push(dayv));
            assert(dayv == spec_day(day_label(i as nat), jv, ch_cur, te_cur, ad_cur));
            assert(days_view(days@) + spec_days(
                (num_days - i - 1) as nat,
                i as nat + 1,
                jv,
                children_pool@,
                teens_pool@,
                adults_pool@,
                off,
            ) =~= days_view(prev_days) + spec_days(
                (num_days - i) as nat,
                i as nat,
                jv,
                ch_cur,
                te_cur,
                ad_cur,
                off,
            ));
        }
        i = i + 1;
    }
    proof {
        assert(days_view(days@) + spec_days(
            0,
            num_days as nat,
            jv,
            children_pool@,
            teens_pool@,
            adults_pool@,
            off,
        ) =~= days_view(days@));
    }
    Week::new(days)
}

/// The default job catalog, in declaration order.
pub open spec fn default_jobs_seq() -> Seq<JobView> {
    seq![
        JobView { name: "Breakfast dishes"@, slots: seq![Ability::Teen, Ability::Child] },
        JobView { name: "Lunch preparation"@, slots: seq![Ability::Adult, Ability::Adult] },
        JobView { name: "Lunch dishes"@, slots: seq![Ability::Adult, Ability::Teen] },
        JobView {
            name: "Dinner Setting"@,
            slots: seq![Ability::Teen, Ability::Child, Ability::Child],
        },
        JobView { name: "Dinner shopping and chef"@, slots: seq![Ability::Adult, Ability::Adult] },
        JobView { name: "Dinner dishes"@, slots: seq![Ability::Adult, Ability::Teen] },
        JobView { name: "Late night dishes"@, slots: seq![Ability::Teen] },
        JobView { name: "Cabin cleanup"@, slots: seq![Ability::Adult] },
        JobView { name: "Nag"@, slots: seq![Ability::Adult] },
    ]
}

fn slots1(a: Ability) -> (v: Vec<Ability>)
    ensures
        v@ == seq![a],
{
    let mut v: Vec<Ability> = Vec::new();
    v.push(a);
    proof {
        assert(v@ =~= seq![a]);
    }
    v
}

fn slots2(a: Ability, b: Ability) -> (v: Vec<Ability>)
    ensures
        v@ == seq![a, b],
{
    let mut v: Vec<Ability> = Vec::new();
    v.push(a);
    v.push(b);
    proof {
        assert(v@ =~= seq![a, b]);
    }
    v
}

fn slots3(a: Ability, b: Ability, c: Ability) -> (v: Vec<Ability>)
    ensures
        v@ == seq![a, b, c],
{
    let mut v: Vec<Ability> = Vec::new();
    v.push(a);
    v.push(b);
    v.push(c);
    proof {
        assert(v@ =~= seq![a, b, c]);
    }
    v
}

/// The default job catalog.
pub fn default_jobs() -> (jobs: Vec<Job>)
    ensures
        jobs_view(jobs@) == default_jobs_seq(),
{
    let mut jobs: Vec<Job> = Vec::new();
    jobs.push(Job::new("Breakfast dishes", slots2(Ability::Teen, Ability::Child)));
    jobs.push(Job::new("Lunch preparation", slots2(Ability::Adult, Ability::Adult)));
    jobs.push(Job::new("Lunch dishes", slots2(Ability::Adult, Ability::Teen)));
    jobs.push(Job::new("Dinner Setting", slots3(Ability::Teen, Ability::Child, Ability::Child)));
    jobs.push(Job::new("Dinner shopping and chef", slots2(Ability::Adult, Ability::Adult)));
    jobs.push(Job::new("Dinner dishes", slots2(Ability::Adult, Ability::Teen)));
    jobs.push(Job::new("Late night dishes", slots1(Ability::Teen)));
    jobs.push(Job::new("Cabin cleanup", slots1(Ability::Adult)));
    jobs.push(Job::new("Nag", slots1(Ability::Adult)));
    proof {
        assert(jobs_view(jobs@) =~~= default_jobs_seq());
    }
    jobs
}

/// The default roster, in declaration order.
pub open spec fn default_people_seq() -> Seq<PersonView> {
    seq![
        PersonView { name: "Papa"@, ability: Ability::Adult },
        PersonView { name: "Chris"@, ability: Ability::Adult },
        PersonView { name: "Kim"@, ability: Ability::Adult },
        PersonView { name: "Becky"@, ability: Ability::Adult },
        PersonView { name: "Carl"@, ability: Ability::Adult },
        PersonView { name: "Ben"@, ability: Ability::Adult },
        PersonView { name: "Big Jake"@, ability: Ability::Adult },
        PersonView { name: "Anna"@, ability: Ability::Teen },
        PersonView { name: "Luke"@, ability: Ability::Teen },
        PersonView { name: "Little Jake"@, ability: Ability::Teen },
        PersonView { name: "Catherine"@, ability: Ability::Child },
        PersonView { name: "Owen"@, ability: Ability::Child },
    ]
}

/// The default roster.
pub fn default_people() -> (people: Vec<Person>)
    ensures
        people_view(people@) == default_people_seq(),
{
    let mut people: Vec<Person> = Vec::new();
    people.push(Person::new("Papa", Ability::Adult));
    people.push(Person::new("Chris", Ability::Adult));
    people.push(Person::new("Kim", Ability::Adult));
    people.push(Person::new("Becky", Ability::Adult));
    people.push(Person::new("Carl", Ability::Adult));
    people.push(Person::new("Ben", Ability::Adult));
    people.push(Person::new("Big Jake", Ability::Adult));
    people.push(Person::new("Anna", Ability::Teen));
    people.push(Person::new("Luke", Ability::Teen));
    people.push(Person::new("Little Jake", Ability::Teen));
    people.push(Person::new("Catherine", Ability::Child));
    people.push(Person::new("Owen", Ability::Child));
    proof {
        assert(people_view(people@) =~~= default_people_seq());
    }
    people
}

/// The default catalog holds eight adult slots.
pub proof fn lemma_default_adult_slots()
    ensures
        total_tier(default_jobs_seq(), Ability::Adult) == 8,
{
    reveal_with_fuel(slots_before_job, 11);
    reveal_with_fuel(count_tier, 5);
}

/// Schedule the default jobs for the default roster over five days.
pub fn calculate_day_jobs() -> (week: Week)
    ensures
        week@ == spec_calculate(5, default_jobs_seq(), default_people_seq()),
{
    let jobs = default_jobs();
    let people = default_people();
    proof {
        lemma_default_adult_slots();
    }
    calculate(5, jobs, people)
}

} // verus!
