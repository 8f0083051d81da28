//! Rotation pools: a cyclic cursor over the people of one ability tier.
//!
//! On an empty pool the scheduler degrades gracefully: `next` hands out a
//! placeholder person (name "No <Tier> Here") of the pool's tier instead of
//! failing, so a week chart still renders with a visible gap. This is the
//! documented policy choice; the pool never signals an exhaustion error.

use vstd::arithmetic::div_mod::lemma_add_mod_noop;
use vstd::arithmetic::div_mod::lemma_add_mod_noop_right;
use vstd::arithmetic::div_mod::lemma_mod_division_less_than_divisor;
use vstd::arithmetic::div_mod::lemma_mod_self_0;
use vstd::arithmetic::div_mod::lemma_mod_sub_multiples_vanish;
use vstd::arithmetic::div_mod::lemma_small_mod;
use vstd::prelude::*;

use crate::data::person::people_view;
use crate::data::person::Ability;
use crate::data::person::Person;
use crate::data::person::PersonView;

verus! {

/// The name of the placeholder handed out when a tier's pool is empty.
pub open spec fn sentinel_name(t: Ability) -> Seq<char> {
    match t {
        Ability::Adult => "No Adult Here"@,
        Ability::Teen => "No Teen Here"@,
        Ability::Child => "No Child Here"@,
    }
}

/// The placeholder person substituted for a missing tier-`t` worker.
pub open spec fn sentinel_view(t: Ability) -> PersonView {
    PersonView { name: sentinel_name(t), ability: t }
}

fn sentinel_name_str(t: Ability) -> (s: &'static str)
    ensures
        s@ == sentinel_name(t),
{
    match t {
        Ability::Adult => "No Adult Here",
        Ability::Teen => "No Teen Here",
        Ability::Child => "No Child Here",
    }
}

/// The mathematical value of a `RotationPool`: its tier, its members in
/// roster order, and the wrapped cursor position.
pub ghost struct PoolView {
    pub tier: Ability,
    pub members: Seq<PersonView>,
    pub cursor: nat,
}

impl PoolView {
    /// Pool well-formedness: the cursor is a valid wrapped position and every
    /// member has the pool's tier.
    pub open spec fn wf(self) -> bool {
        &&& (self.members.len() == 0 ==> self.cursor == 0)
        &&& (self.members.len() > 0 ==> self.cursor < self.members.len())
        &&& forall|i: int|
            0 <= i < self.members.len() ==> (#[trigger] self.members[i]).ability == self.tier
    }

    /// The person the pool hands out `k` requests from now: the member `k`
    /// positions past the cursor, wrapping, or the tier's placeholder when
    /// the pool is empty.
    pub open spec fn pick(self, k: nat) -> PersonView {
        if self.members.len() == 0 {
            sentinel_view(self.tier)
        } else {
            self.members[(self.cursor + k) as int % self.members.len() as int]
        }
    }

    /// The pool after `n` requests: same tier and members, cursor advanced
    /// `n` positions with wrap-around.
    pub open spec fn advanced(self, n: nat) -> PoolView {
        PoolView {
            cursor: if self.members.len() == 0 {
                0
            } else {
                ((self.cursor + n) % self.members.len()) as nat
            },
            ..self
        }
    }
}

/// Advancing by nothing changes nothing.
pub proof fn lemma_advanced_zero(p: PoolView)
    requires
        p.wf(),
    ensures
        p.advanced(0) == p,
{
    if p.members.len() > 0 {
        lemma_small_mod(p.cursor, p.members.len());
    }
}

/// Advancing preserves well-formedness, and two advances compose by
/// addition.
pub proof fn lemma_advanced_compose(p: PoolView, a: nat, b: nat)
    requires
        p.wf(),
    ensures
        p.advanced(a).wf(),
        p.advanced(a).advanced(b) == p.advanced(a + b),
{
    if p.members.len() > 0 {
        let l = p.members.len() as int;
        let c = p.cursor as int;
        lemma_mod_division_less_than_divisor(c + a, l);
        lemma_add_mod_noop(c + a, b as int, l);
        lemma_add_mod_noop_right((c + a) % l, b as int, l);
    }
}

/// Picking after an advance is picking further ahead in the original pool.
pub proof fn lemma_pick_after_advanced(p: PoolView, a: nat, b: nat)
    requires
        p.wf(),
    ensures
        p.advanced(a).pick(b) == p.pick(a + b),
{
    if p.members.len() > 0 {
        let l = p.members.len() as int;
        let c = p.cursor as int;
        lemma_mod_division_less_than_divisor(c + a, l);
        lemma_add_mod_noop(c + a, b as int, l);
        lemma_add_mod_noop_right((c + a) % l, b as int, l);
    }
}

/// What a well-formed pool hands out always has the pool's tier: a real
/// member by the member invariant, the placeholder by construction.
pub proof fn lemma_pick_ability(p: PoolView, k: nat)
    requires
        p.wf(),
    ensures
        p.pick(k).ability == p.tier,
{
    if p.members.len() > 0 {
        lemma_mod_division_less_than_divisor((p.cursor + k) as int, p.members.len() as int);
    }
}

/// A per-tier cyclic cursor over the people with that tier. `next` hands out
/// the member at the cursor and advances one position, wrapping around
/// indefinitely; the cursor never resets within a run.
#[derive(Debug)]
pub struct RotationPool {
    tier: Ability,
    members: Vec<Person>,
    cursor: usize,
}

impl View for RotationPool {
    type V = PoolView;

    closed spec fn view(&self) -> PoolView {
        PoolView {
            tier: self.tier,
            members: people_view(self.members@),
            cursor: self.cursor as nat,
        }
    }
}

impl RotationPool {
    /// A fresh pool over `members`, cursor at the front. Every member must
    /// already have the pool's tier.
    pub fn new(tier: Ability, members: Vec<Person>) -> (pool: Self)
        requires
            forall|i: int| 0 <= i < members@.len() ==> (#[trigger] members@[i])@.ability == tier,
        ensures
            pool@ == (PoolView { tier, members: people_view(members@), cursor: 0 as nat }),
            pool@.wf(),
    {
        let pool = RotationPool { tier, members, cursor: 0 };
        proof {
            assert(forall|i: int|
                0 <= i < pool@.members.len() ==> (#[trigger] pool@.members[i]).ability == tier);
        }
        pool
    }

    /// Hand out the person at the cursor and advance one position, wrapping.
    /// On an empty pool this returns the tier's placeholder person.
    pub fn next(&mut self) -> (p: Person)
        requires
            old(self)@.wf(),
        ensures
            final(self)@.wf(),
            p@ == old(self)@.pick(0),
            final(self)@ == old(self)@.advanced(1),
    {
        if self.members.len() == 0 {
            Person::new(sentinel_name_str(self.tier), self.tier)
        } else {
            let p = self.members[self.cursor].clone();
            proof {
                let l = self.members@.len() as int;
                lemma_small_mod(self.cursor as nat, self.members@.len());
                if self.cursor + 1 == l {
                    lemma_mod_self_0(l);
                } else {
                    lemma_small_mod((self.cursor + 1) as nat, self.members@.len());
                }
            }
            self.cursor = self.cursor + 1;
            if self.cursor == self.members.len() {
                self.cursor = 0;
            }
            p
        }
    }

    /// Advance the cursor `n` extra positions without handing anyone out.
    /// The week scheduler uses this on the adult pool at each day boundary.
    pub fn advance_extra(&mut self, n: usize)
        requires
            old(self)@.wf(),
        ensures
            final(self)@.wf(),
            final(self)@ == old(self)@.advanced(n as nat),
    {
        let len = self.members.len();
        if len > 0 {
            let ghost l = len as int;
            let ghost c = self.cursor as int;
            let r = n % len;
            let rest = len - self.cursor;
            proof {
                lemma_mod_division_less_than_divisor(n as int, l);
                lemma_add_mod_noop_right(c, n as int, l);
                if n as int % l >= l - c {
                    lemma_mod_sub_multiples_vanish(c + n as int % l, l);
                    lemma_small_mod((c + n as int % l - l) as nat, len as nat);
                } else {
                    lemma_small_mod((c + n as int % l) as nat, len as nat);
                }
            }
            if r >= rest {
                self.cursor = r - rest;
            } else {
                self.cursor = self.cursor + r;
            }
        }
    }
}

} // verus!
