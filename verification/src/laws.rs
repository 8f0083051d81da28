//! The scheduler's general properties, stated and proved against the
//! mathematical model that the executable contracts are written over.

use vstd::arithmetic::div_mod::lemma_add_mod_noop;
use vstd::arithmetic::div_mod::lemma_add_mod_noop_right;
use vstd::arithmetic::div_mod::lemma_fundamental_div_mod;
use vstd::arithmetic::div_mod::lemma_mod_division_less_than_divisor;
use vstd::arithmetic::div_mod::lemma_small_mod;
use vstd::arithmetic::div_mod::lemma_sub_mod_noop;
use vstd::arithmetic::div_mod::lemma_sub_mod_noop_right;
use vstd::prelude::*;

use crate::data::day::day_worker;
use crate::data::day::day_workers;
use crate::data::day::pool_of;
use crate::data::day::spec_day;
use crate::data::day::DayView;
use crate::data::job::count_tier;
use crate::data::job::lemma_count_tier_take_all;
use crate::data::job::lemma_count_tier_take_succ;
use crate::data::job::slots_before_job;
use crate::data::job::total_tier;
use crate::data::job::JobView;
use crate::data::person::filter_tier;
use crate::data::person::lemma_filter_tier_ability;
use crate::data::person::Ability;
use crate::data::person::PersonView;
use crate::data::pool::lemma_advanced_compose;
use crate::data::pool::lemma_advanced_zero;
use crate::data::pool::lemma_pick_ability;
use crate::data::pool::PoolView;
use crate::data::week::Week;
use crate::label::day_label;
use crate::adult_offset;
use crate::spec_calculate;
use crate::spec_days;
use crate::start_pool;

verus! {

/// A run of `n` days schedules exactly `n` days, whatever the pools hold.
pub proof fn lemma_spec_days_len(
    n: nat,
    d: nat,
    jobs: Seq<JobView>,
    ch: PoolView,
    te: PoolView,
    ad: PoolView,
    off: nat,
)
    ensures
        spec_days(n, d, jobs, ch, te, ad, off).len() == n,
    decreases n,
{
    if n > 0 {
        lemma_spec_days_len(
            (n - 1) as nat,
            d + 1,
            jobs,
            ch.advanced(total_tier(jobs, Ability::Child)),
            te.advanced(total_tier(jobs, Ability::Teen)),
            ad.advanced(total_tier(jobs, Ability::Adult) + off),
            off,
        );
    }
}

/// For every day count `n` and any job catalog and roster, the scheduled
/// week has exactly `n` days.
pub proof fn lemma_week_length(n: nat, jobs: Seq<JobView>, people: Seq<PersonView>)
    ensures
        spec_calculate(n, jobs, people).len() == n,
{
    let ad = start_pool(Ability::Adult, people);
    lemma_spec_days_len(
        n,
        0,
        jobs,
        start_pool(Ability::Child, people),
        start_pool(Ability::Teen, people),
        ad,
        adult_offset(total_tier(jobs, Ability::Adult), ad.members.len()),
    );
}

/// A run's starting pool for tier `t` is well formed: the cursor is at the
/// front and a stable tier filter only keeps people of that tier.
pub proof fn lemma_start_pool_wf(t: Ability, people: Seq<PersonView>)
    ensures
        start_pool(t, people).wf(),
        start_pool(t, people).tier == t,
        start_pool(t, people).members == filter_tier(people, t),
        start_pool(t, people).cursor == 0,
{
    lemma_filter_tier_ability(people, t);
}

/// Day `d` of a run is one day-assigner pass over the pools as they stand
/// after `d` earlier days: each pool has advanced by `d` times its tier's
/// daily slot count, the adult pool by `d` offsets more.
pub proof fn lemma_spec_days_index(
    n: nat,
    d0: nat,
    jobs: Seq<JobView>,
    ch: PoolView,
    te: PoolView,
    ad: PoolView,
    off: nat,
    d: nat,
)
    requires
        d < n,
        ch.wf(),
        te.wf(),
        ad.wf(),
    ensures
        spec_days(n, d0, jobs, ch, te, ad, off)[d as int] == spec_day(
            day_label(d0 + d),
            jobs,
            ch.advanced(d * total_tier(jobs, Ability::Child)),
            te.advanced(d * total_tier(jobs, Ability::Teen)),
            ad.advanced(d * (total_tier(jobs, Ability::Adult) + off)),
        ),
    decreases d,
{
    let tc = total_tier(jobs, Ability::Child);
    let tt = total_tier(jobs, Ability::Teen);
    let ta = total_tier(jobs, Ability::Adult) + off;
    let first = spec_day(day_label(d0), jobs, ch, te, ad);
    let rest = spec_days(
        (n - 1) as nat,
        d0 + 1,
        jobs,
        ch.advanced(tc),
        te.advanced(tt),
        ad.advanced(ta),
        off,
    );
    assert(spec_days(n, d0, jobs, ch, te, ad, off) == seq![first] + rest);
    lemma_spec_days_len(
        (n - 1) as nat,
        d0 + 1,
        jobs,
        ch.advanced(tc),
        te.advanced(tt),
        ad.advanced(ta),
        off,
    );
    if d == 0 {
        assert((seq![first] + rest)[0] == first);
        assert(d * tc == 0 && d * tt == 0 && d * ta == 0) by (nonlinear_arith)
            requires
                d == 0,
        ;
        lemma_advanced_zero(ch);
        lemma_advanced_zero(te);
        lemma_advanced_zero(ad);
    } else {
        assert((seq![first] + rest)[d as int] == rest[d - 1]);
        lemma_advanced_compose(ch, tc, ((d - 1) as nat) * tc);
        lemma_advanced_compose(te, tt, ((d - 1) as nat) * tt);
        lemma_advanced_compose(ad, ta, ((d - 1) as nat) * ta);
        lemma_spec_days_index(
            (n - 1) as nat,
            d0 + 1,
            jobs,
            ch.advanced(tc),
            te.advanced(tt),
            ad.advanced(ta),
            off,
            (d - 1) as nat,
        );
        assert(tc + ((d - 1) as nat) * tc == d * tc) by (nonlinear_arith)
            requires
                d >= 1,
        ;
        assert(tt + ((d - 1) as nat) * tt == d * tt) by (nonlinear_arith)
            requires
                d >= 1,
        ;
        assert(ta + ((d - 1) as nat) * ta == d * ta) by (nonlinear_arith)
            requires
                d >= 1,
        ;
    }
}

/// One day never breaks the ability tags: the day keeps the job list as
/// given, fills every slot, and the worker in slot `i` of job `j` has
/// exactly the tier that slot demands.
pub proof fn lemma_day_ability(
    name: Seq<char>,
    jobs: Seq<JobView>,
    ch: PoolView,
    te: PoolView,
    ad: PoolView,
    j: int,
    i: int,
)
    requires
        ch.wf(),
        te.wf(),
        ad.wf(),
        ch.tier == Ability::Child,
        te.tier == Ability::Teen,
        ad.tier == Ability::Adult,
        0 <= j < jobs.len(),
        0 <= i < jobs[j].slots.len(),
    ensures
        spec_day(name, jobs, ch, te, ad).jobs.len() == jobs.len(),
        spec_day(name, jobs, ch, te, ad).jobs[j].0 == jobs[j],
        spec_day(name, jobs, ch, te, ad).jobs[j].1.len() == jobs[j].slots.len(),
        spec_day(name, jobs, ch, te, ad).jobs[j].1[i].ability == jobs[j].slots[i],
{
    let t = jobs[j].slots[i];
    let k = slots_before_job(jobs, t, j) + count_tier(jobs[j].slots.take(i), t);
    lemma_pick_ability(pool_of(t, ch, te, ad), k);
}

/// Every scheduled day carries the same job catalog: day `d` lists exactly
/// the input jobs, in order, and fills every slot of each, so all days of
/// one week agree on job count, names, order and worker-list lengths.
pub proof fn lemma_week_shape(n: nat, jobs: Seq<JobView>, people: Seq<PersonView>, d: int, j: int)
    requires
        0 <= d < n,
        0 <= j < jobs.len(),
    ensures
        spec_calculate(n, jobs, people)[d].jobs.len() == jobs.len(),
        spec_calculate(n, jobs, people)[d].jobs[j].0 == jobs[j],
        spec_calculate(n, jobs, people)[d].jobs[j].1.len() == jobs[j].slots.len(),
{
    let ch = start_pool(Ability::Child, people);
    let te = start_pool(Ability::Teen, people);
    let ad = start_pool(Ability::Adult, people);
    let off = adult_offset(total_tier(jobs, Ability::Adult), ad.members.len());
    lemma_start_pool_wf(Ability::Child, people);
    lemma_start_pool_wf(Ability::Teen, people);
    lemma_start_pool_wf(Ability::Adult, people);
    lemma_spec_days_index(n, 0, jobs, ch, te, ad, off, d as nat);
}

/// The ability-tag contract: in every scheduled day, for every job, the
/// worker assigned to slot `i` has the tier that slot demands, the worker
/// list is exactly as long as the slot list, and the day's job list is the
/// input catalog unchanged.
pub proof fn lemma_ability_contract(
    n: nat,
    jobs: Seq<JobView>,
    people: Seq<PersonView>,
    d: int,
    j: int,
    i: int,
)
    requires
        0 <= d < n,
        0 <= j < jobs.len(),
        0 <= i < jobs[j].slots.len(),
    ensures
        spec_calculate(n, jobs, people)[d].jobs.len() == jobs.len(),
        spec_calculate(n, jobs, people)[d].jobs[j].0 == jobs[j],
        spec_calculate(n, jobs, people)[d].jobs[j].1.len() == jobs[j].slots.len(),
        spec_calculate(n, jobs, people)[d].jobs[j].1[i].ability == jobs[j].slots[i],
{
    let ch = start_pool(Ability::Child, people);
    let te = start_pool(Ability::Teen, people);
    let ad = start_pool(Ability::Adult, people);
    let off = adult_offset(total_tier(jobs, Ability::Adult), ad.members.len());
    lemma_start_pool_wf(Ability::Child, people);
    lemma_start_pool_wf(Ability::Teen, people);
    lemma_start_pool_wf(Ability::Adult, people);
    lemma_spec_days_index(n, 0, jobs, ch, te, ad, off, d as nat);
    let tc = total_tier(jobs, Ability::Child);
    let tt = total_tier(jobs, Ability::Teen);
    let ta = total_tier(jobs, Ability::Adult) + off;
    lemma_advanced_compose(ch, d as nat * tc, 0);
    lemma_advanced_compose(te, d as nat * tt, 0);
    lemma_advanced_compose(ad, d as nat * ta, 0);
    lemma_day_ability(
        day_label(d as nat),
        jobs,
        ch.advanced(d as nat * tc),
        te.advanced(d as nat * tt),
        ad.advanced(d as nat * ta),
        j,
        i,
    );
}

/// How many of the workers `ws` are the person `p`.
pub open spec fn count_in_workers(ws: Seq<PersonView>, p: PersonView) -> nat
    decreases ws.len(),
{
    if ws.len() == 0 {
        0
    } else {
        count_in_workers(ws.drop_last(), p) + if ws.last() == p {
            1nat
        } else {
            0nat
        }
    }
}

/// How many slots of one day's (job, workers) list `p` works.
pub open spec fn count_in_pairs(jobs: Seq<(JobView, Seq<PersonView>)>, p: PersonView) -> nat
    decreases jobs.len(),
{
    if jobs.len() == 0 {
        0
    } else {
        count_in_pairs(jobs.drop_last(), p) + count_in_workers(jobs.last().1, p)
    }
}

/// How many slots across a run of days `p` works.
pub open spec fn count_in_days(days: Seq<DayView>, p: PersonView) -> nat
    decreases days.len(),
{
    if days.len() == 0 {
        0
    } else {
        count_in_days(days.drop_last(), p) + count_in_pairs(days.last().jobs, p)
    }
}

/// No two entries of `s` are the same person.
pub open spec fn pairwise_distinct(s: Seq<PersonView>) -> bool {
    forall|x: int, y: int| 0 <= x < y < s.len() ==> s[x] != s[y]
}

/// How many of the `len` wrapped pool positions `c`, `c+1`, ..., `c+len-1`
/// land on member index `r` modulo the pool size `m`.
pub open spec fn count_hits(c: int, len: nat, m: int, r: int) -> nat
    decreases len,
{
    if len == 0 {
        0
    } else {
        count_hits(c, (len - 1) as nat, m, r) + if (c + len - 1) % m == r {
            1nat
        } else {
            0nat
        }
    }
}

/// Hits over adjacent position ranges add up.
proof fn lemma_count_hits_split(c: int, a: nat, b: nat, m: int, r: int)
    ensures
        count_hits(c, a + b, m, r) == count_hits(c, a, m, r) + count_hits(c + a, b, m, r),
    decreases b,
{
    if b > 0 {
        lemma_count_hits_split(c, a, (b - 1) as nat, m, r);
    }
}

/// Hit counts depend on the start position only modulo the pool size.
proof fn lemma_count_hits_shift(c: int, len: nat, m: int, r: int)
    requires
        0 < m,
    ensures
        count_hits(c % m, len, m, r) == count_hits(c, len, m, r),
    decreases len,
{
    if len > 0 {
        lemma_count_hits_shift(c, (len - 1) as nat, m, r);
        lemma_add_mod_noop(c, len - 1, m);
        lemma_add_mod_noop_right(c % m, len - 1, m);
    }
}

/// Within one wrap of the pool, member `r` is hit exactly once, at offset
/// `(r - c) % m`; a shorter range hits it exactly when it reaches that far.
proof fn lemma_count_hits_partial_cycle(c: int, len: nat, m: int, r: int)
    requires
        0 < m,
        0 <= r < m,
        len <= m,
    ensures
        count_hits(c, len, m, r) == if (r - c) % m < len {
            1nat
        } else {
            0nat
        },
    decreases len,
{
    if len > 0 {
        lemma_count_hits_partial_cycle(c, (len - 1) as nat, m, r);
        lemma_mod_division_less_than_divisor(r - c, m);
        if (c + len - 1) % m == r {
            lemma_sub_mod_noop(c + len - 1, c, m);
            lemma_sub_mod_noop_right((c + len - 1) % m, c, m);
            lemma_small_mod((len - 1) as nat, m as nat);
        } else {
            if (r - c) % m == len - 1 {
                lemma_add_mod_noop_right(c, r - c, m);
                lemma_small_mod(r as nat, m as nat);
            }
        }
    }
}

/// Over whole wraps of the pool, every member is hit once per wrap.
proof fn lemma_count_hits_cycles(c: int, q: nat, m: int, r: int)
    requires
        0 < m,
        0 <= r < m,
    ensures
        count_hits(c, q * (m as nat), m, r) == q,
    decreases q,
{
    if q == 0 {
        assert(q * (m as nat) == 0) by (nonlinear_arith)
            requires
                q == 0,
        ;
    } else {
        lemma_count_hits_cycles(c, (q - 1) as nat, m, r);
        assert(q * (m as nat) == (q - 1) as nat * (m as nat) + m as nat) by (nonlinear_arith)
            requires
                q >= 1,
        ;
        lemma_count_hits_split(c, (q - 1) as nat * (m as nat), m as nat, m, r);
        lemma_count_hits_partial_cycle(c + (q - 1) as nat * (m as nat), m as nat, m, r);
        lemma_mod_division_less_than_divisor(r - (c + (q - 1) as nat * (m as nat)), m);
    }
}

/// Counting a person in a one-longer worker prefix adds one exactly when
/// the new worker is that person.
proof fn lemma_count_workers_take_succ(ws: Seq<PersonView>, p: PersonView, i: int)
    requires
        0 <= i < ws.len(),
    ensures
        count_in_workers(ws.take(i + 1), p) == count_in_workers(ws.take(i), p) + if ws[i] == p {
            1nat
        } else {
            0nat
        },
{
    assert(ws.take(i + 1).drop_last() =~= ws.take(i));
    assert(ws.take(i + 1).last() == ws[i]);
}

/// Counting a person in a one-longer job prefix adds that job's workers.
proof fn lemma_count_pairs_take_succ(s: Seq<(JobView, Seq<PersonView>)>, p: PersonView, j: int)
    requires
        0 <= j < s.len(),
    ensures
        count_in_pairs(s.take(j + 1), p) == count_in_pairs(s.take(j), p) + count_in_workers(
            s[j].1,
            p,
        ),
{
    assert(s.take(j + 1).drop_last() =~= s.take(j));
    assert(s.take(j + 1).last() == s[j]);
}

/// Counting a person over concatenated runs of days adds up.
proof fn lemma_count_days_concat(s1: Seq<DayView>, s2: Seq<DayView>, p: PersonView)
    ensures
        count_in_days(s1 + s2, p) == count_in_days(s1, p) + count_in_days(s2, p),
    decreases s2.len(),
{
    if s2.len() == 0 {
        assert(s1 + s2 =~= s1);
    } else {
        assert((s1 + s2).drop_last() =~= s1 + s2.drop_last());
        assert((s1 + s2).last() == s2.last());
        lemma_count_days_concat(s1, s2.drop_last(), p);
    }
}

/// Within one job of one day, member `r` of tier `t`'s pool works exactly
/// the slots whose pool position lands on `r`: the first `i` slots of job
/// `j` contain the tier-`t` picks at offsets `slots_before_job(jobs, t, j)`
/// up to that plus the tier-`t` count of the slot prefix.
proof fn lemma_job_count(
    jobs: Seq<JobView>,
    ch: PoolView,
    te: PoolView,
    ad: PoolView,
    t: Ability,
    r: int,
    j: int,
    i: int,
)
    requires
        ch.wf(),
        te.wf(),
        ad.wf(),
        ch.tier == Ability::Child,
        te.tier == Ability::Teen,
        ad.tier == Ability::Adult,
        pairwise_distinct(pool_of(t, ch, te, ad).members),
        pool_of(t, ch, te, ad).members.len() > 0,
        0 <= r < pool_of(t, ch, te, ad).members.len(),
        0 <= j < jobs.len(),
        0 <= i <= jobs[j].slots.len(),
    ensures
        count_in_workers(
            day_workers(jobs, ch, te, ad, j).take(i),
            pool_of(t, ch, te, ad).members[r],
        ) == count_hits(
            pool_of(t, ch, te, ad).cursor as int + slots_before_job(jobs, t, j),
            count_tier(jobs[j].slots.take(i), t),
            pool_of(t, ch, te, ad).members.len() as int,
            r,
        ),
    decreases i,
{
    let pool = pool_of(t, ch, te, ad);
    let p = pool.members[r];
    let m = pool.members.len() as int;
    let w = day_workers(jobs, ch, te, ad, j);
    let cbase = pool.cursor + slots_before_job(jobs, t, j);
    if i == 0 {
        assert(w.take(0) =~= Seq::empty());
        assert(jobs[j].slots.take(0) =~= Seq::empty());
    } else {
        lemma_job_count(jobs, ch, te, ad, t, r, j, i - 1);
        lemma_count_workers_take_succ(w, p, i - 1);
        lemma_count_tier_take_succ(jobs[j].slots, t, i - 1);
        let t2 = jobs[j].slots[i - 1];
        let k2 = slots_before_job(jobs, t2, j) + count_tier(jobs[j].slots.take(i - 1), t2);
        assert(w[i - 1] == day_worker(jobs, ch, te, ad, j, i - 1));
        lemma_pick_ability(pool_of(t2, ch, te, ad), k2);
        if t2 == t {
            let ct = count_tier(jobs[j].slots.take(i - 1), t);
            lemma_mod_division_less_than_divisor((cbase + ct) as int, m);
            if (cbase + ct) as int % m == r {
                assert(w[i - 1] == p);
            } else {
                assert(pool.members[(cbase + ct) as int % m] != pool.members[r]);
                assert(w[i - 1] != p);
            }
        } else {
            assert(w[i - 1].ability == t2);
            assert(p.ability == t);
            assert(w[i - 1] != p);
        }
    }
}

/// Across one whole day, member `r` of tier `t`'s pool works exactly the
/// slots whose pool position lands on `r`: the first `j` jobs cover the
/// tier-`t` positions before job `j`.
proof fn lemma_day_count(
    name: Seq<char>,
    jobs: Seq<JobView>,
    ch: PoolView,
    te: PoolView,
    ad: PoolView,
    t: Ability,
    r: int,
    j: int,
)
    requires
        ch.wf(),
        te.wf(),
        ad.wf(),
        ch.tier == Ability::Child,
        te.tier == Ability::Teen,
        ad.tier == Ability::Adult,
        pairwise_distinct(pool_of(t, ch, te, ad).members),
        pool_of(t, ch, te, ad).members.len() > 0,
        0 <= r < pool_of(t, ch, te, ad).members.len(),
        0 <= j <= jobs.len(),
    ensures
        count_in_pairs(
            spec_day(name, jobs, ch, te, ad).jobs.take(j),
            pool_of(t, ch, te, ad).members[r],
        ) == count_hits(
            pool_of(t, ch, te, ad).cursor as int,
            slots_before_job(jobs, t, j),
            pool_of(t, ch, te, ad).members.len() as int,
            r,
        ),
    decreases j,
{
    let pool = pool_of(t, ch, te, ad);
    let p = pool.members[r];
    let m = pool.members.len() as int;
    let d = spec_day(name, jobs, ch, te, ad).jobs;
    if j == 0 {
        assert(d.take(0) =~= Seq::empty());
    } else {
        lemma_day_count(name, jobs, ch, te, ad, t, r, j - 1);
        lemma_count_pairs_take_succ(d, p, j - 1);
        assert(d[j - 1].1 == day_workers(jobs, ch, te, ad, j - 1));
        lemma_job_count(jobs, ch, te, ad, t, r, j - 1, jobs[j - 1].slots.len() as int);
        assert(day_workers(jobs, ch, te, ad, j - 1).take(
            jobs[j - 1].slots.len() as int,
        ) =~= day_workers(jobs, ch, te, ad, j - 1));
        lemma_count_tier_take_all(jobs[j - 1].slots, t);
        lemma_count_hits_split(
            pool.cursor as int,
            slots_before_job(jobs, t, j - 1),
            count_tier(jobs[j - 1].slots, t),
            m,
            r,
        );
    }
}

/// Across a run of days, member `r` of tier `t`'s pool works exactly the
/// slots whose pool position lands on `r`. The child and teen pools advance
/// by exactly their daily slot count, so their positions are the contiguous
/// range of length `n` times the daily count.
proof fn lemma_days_count(
    n: nat,
    d0: nat,
    jobs: Seq<JobView>,
    ch: PoolView,
    te: PoolView,
    ad: PoolView,
    off: nat,
    t: Ability,
    r: int,
)
    requires
        t != Ability::Adult,
        ch.wf(),
        te.wf(),
        ad.wf(),
        ch.tier == Ability::Child,
        te.tier == Ability::Teen,
        ad.tier == Ability::Adult,
        pairwise_distinct(pool_of(t, ch, te, ad).members),
        pool_of(t, ch, te, ad).members.len() > 0,
        0 <= r < pool_of(t, ch, te, ad).members.len(),
    ensures
        count_in_days(spec_days(n, d0, jobs, ch, te, ad, off), pool_of(t, ch, te, ad).members[r])
            == count_hits(
            pool_of(t, ch, te, ad).cursor as int,
            n * total_tier(jobs, t),
            pool_of(t, ch, te, ad).members.len() as int,
            r,
        ),
    decreases n,
{
    let pool = pool_of(t, ch, te, ad);
    let p = pool.members[r];
    let m = pool.members.len() as int;
    let tt = total_tier(jobs, t);
    let tc = total_tier(jobs, Ability::Child);
    let tn = total_tier(jobs, Ability::Teen);
    let ta = total_tier(jobs, Ability::Adult) + off;
    if n == 0 {
        assert(0 * tt == 0nat);
    } else {
        let first = spec_day(day_label(d0), jobs, ch, te, ad);
        let rest = spec_days(
            (n - 1) as nat,
            d0 + 1,
            jobs,
            ch.advanced(tc),
            te.advanced(tn),
            ad.advanced(ta),
            off,
        );
        assert(spec_days(n, d0, jobs, ch, te, ad, off) == seq![first] + rest);
        lemma_count_days_concat(seq![first], rest, p);
        assert(seq![first].drop_last() =~= Seq::<DayView>::empty());
        assert(seq![first].last() == first);
        assert(count_in_days(seq![first].drop_last(), p) == 0);
        assert(count_in_days(seq![first], p) == count_in_pairs(first.jobs, p));

        lemma_day_count(day_label(d0), jobs, ch, te, ad, t, r, jobs.len() as int);
        assert(first.jobs.take(jobs.len() as int) =~= first.jobs);

        lemma_advanced_compose(ch, tc, 0);
        lemma_advanced_compose(te, tn, 0);
        lemma_advanced_compose(ad, ta, 0);
        lemma_days_count(
            (n - 1) as nat,
            d0 + 1,
            jobs,
            ch.advanced(tc),
            te.advanced(tn),
            ad.advanced(ta),
            off,
            t,
            r,
        );
        assert(pool_of(t, ch.advanced(tc), te.advanced(tn), ad.advanced(ta)) == pool.advanced(tt));
        lemma_count_hits_shift(pool.cursor as int + tt, (n - 1) as nat * tt, m, r);
        lemma_count_hits_split(pool.cursor as int, tt, (n - 1) as nat * tt, m, r);
        assert(tt + (n - 1) as nat * tt == n * tt) by (nonlinear_arith)
            requires
                n >= 1,
        ;
    }
}

/// Round-robin fairness for the child and teen tiers: over a run of `n`
/// days whose total tier-`t` slot demand is a whole multiple of the tier's
/// pool size, every pool member works exactly the same number of slots,
/// namely that total divided by the pool size. (The adult pool's extra
/// day-boundary offset makes its positions non-contiguous, so this exact
/// statement does not hold for the adult tier.)
pub proof fn lemma_round_robin_fairness(
    n: nat,
    jobs: Seq<JobView>,
    people: Seq<PersonView>,
    t: Ability,
    r: int,
)
    requires
        t != Ability::Adult,
        pairwise_distinct(filter_tier(people, t)),
        filter_tier(people, t).len() > 0,
        0 <= r < filter_tier(people, t).len(),
        (n * total_tier(jobs, t)) as int % (filter_tier(people, t).len() as int) == 0,
    ensures
        count_in_days(spec_calculate(n, jobs, people), filter_tier(people, t)[r]) == (n
            * total_tier(jobs, t)) / filter_tier(people, t).len(),
{
    let ch = start_pool(Ability::Child, people);
    let te = start_pool(Ability::Teen, people);
    let ad = start_pool(Ability::Adult, people);
    let off = adult_offset(total_tier(jobs, Ability::Adult), ad.members.len());
    lemma_start_pool_wf(Ability::Child, people);
    lemma_start_pool_wf(Ability::Teen, people);
    lemma_start_pool_wf(Ability::Adult, people);
    let pool = pool_of(t, ch, te, ad);
    let m = pool.members.len() as int;
    let tt = total_tier(jobs, t);
    assert(pool.members == filter_tier(people, t));
    lemma_days_count(n, 0, jobs, ch, te, ad, off, t, r);
    let q = (n * tt) / (m as nat);
    lemma_fundamental_div_mod(n * tt as int, m);
    assert(n * tt == q * (m as nat)) by (nonlinear_arith)
        requires
            n * tt as int == m * ((n * tt as int) / m) + (n * tt as int) % m,
            (n * tt as int) % m == 0,
            q == (n * tt) / (m as nat),
            m > 0,
    ;
    lemma_count_hits_cycles(0, q, m, r);
}

/// Determinism: two scheduling runs over the same day count, the same job
/// list (in the same order) and the same roster (in the same order) produce
/// the same week.
pub proof fn lemma_deterministic(
    n: nat,
    jobs: Seq<JobView>,
    people: Seq<PersonView>,
    w1: Week,
    w2: Week,
)
    requires
        w1@ == spec_calculate(n, jobs, people),
        w2@ == spec_calculate(n, jobs, people),
    ensures
        w1@ == w2@,
{
}

} // verus!
