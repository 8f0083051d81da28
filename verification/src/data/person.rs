//! People and their ability tiers.

use vstd::prelude::*;

verus! {

/// A worker's skill tier. It classifies people and tags the slots of a job
/// with the kind of worker each slot needs.
#[derive(Copy, Debug, PartialEq, Eq, Hash, PartialOrd, Ord, Structural)]
pub enum Ability {
    Adult,
    Teen,
    Child,
}

impl Clone for Ability {
    fn clone(&self) -> (a: Self)
        ensures
            a == *self,
    {
        *self
    }
}

impl Ability {
    /// The display text of this tier.
    pub open spec fn spec_to_str(self) -> Seq<char> {
        match self {
            Ability::Adult => "Adult"@,
            Ability::Teen => "Teen"@,
            Ability::Child => "Child"@,
        }
    }

    /// All tiers, in declaration order.
    pub fn enumerate() -> (all: Vec<Ability>)
        ensures
            all@ == seq![Ability::Adult, Ability::Teen, Ability::Child],
    {
        let mut all: Vec<Ability> = Vec::new();
        all.push(Ability::Adult);
        all.push(Ability::Teen);
        all.push(Ability::Child);
        proof {
            assert(all@ =~= seq![Ability::Adult, Ability::Teen, Ability::Child]);
        }
        all
    }

    pub fn to_str(&self) -> (s: &'static str)
        ensures
            s@ == self.spec_to_str(),
    {
        match self {
            Ability::Adult => "Adult",
            Ability::Teen => "Teen",
            Ability::Child => "Child",
        }
    }

    /// The tier with the given discriminant (0 = Adult, 1 = Teen, 2 = Child).
    /// Values outside that range name no tier and are rejected up front.
    pub fn from_i32(prim: i32) -> (a: Self)
        requires
            0 <= prim <= 2,
        ensures
            a == (if prim == 0 {
                Ability::Adult
            } else if prim == 1 {
                Ability::Teen
            } else {
                Ability::Child
            }),
    {
        if prim == 0 {
            Ability::Adult
        } else if prim == 1 {
            Ability::Teen
        } else {
            Ability::Child
        }
    }

    /// The discriminant of this tier, inverse of `from_i32`.
    pub fn to_i32(&self) -> (prim: i32)
        ensures
            0 <= prim <= 2,
            *self == (if prim == 0 {
                Ability::Adult
            } else if prim == 1 {
                Ability::Teen
            } else {
                Ability::Child
            }),
    {
        match self {
            Ability::Adult => 0,
            Ability::Teen => 1,
            Ability::Child => 2,
        }
    }
}

impl Default for Ability {
    fn default() -> (a: Self)
        ensures
            a == Ability::Adult,
    {
        Ability::Adult
    }
}

/// The mathematical value of a `Person`: its name as a character sequence and
/// its ability tier.
pub ghost struct PersonView {
    pub name: Seq<char>,
    pub ability: Ability,
}

/// A named individual with one ability tier.
#[derive(Debug)]
pub struct Person {
    name: String,
    ability: Ability,
}

impl View for Person {
    type V = PersonView;

    closed spec fn view(&self) -> PersonView {
        PersonView { name: self.name@, ability: self.ability }
    }
}

impl Clone for Person {
    fn clone(&self) -> (p: Self)
        ensures
            p == *self,
    {
        Person { name: self.name.clone(), ability: self.ability }
    }
}

impl Person {
    pub fn new(name: &str, ability: Ability) -> (p: Self)
        ensures
            p@ == (PersonView { name: name@, ability }),
    {
        Person { name: name.to_owned(), ability }
    }

    pub fn name(&self) -> (s: &str)
        ensures
            s@ == self@.name,
    {
        self.name.as_str()
    }

    pub fn ability(&self) -> (a: Ability)
        ensures
            a == self@.ability,
    {
        self.ability
    }

    pub fn set_name(&mut self, name: String)
        ensures
            final(self)@ == (PersonView { name: name@, ability: old(self)@.ability }),
    {
        self.name = name;
    }

    pub fn set_ability(&mut self, ability: Ability)
        ensures
            final(self)@ == (PersonView { name: old(self)@.name, ability }),
    {
        self.ability = ability;
    }
}

/// The views of a roster of people.
pub open spec fn people_view(s: Seq<Person>) -> Seq<PersonView> {
    s.map_values(|p: Person| p@)
}

/// Viewing a roster commutes with appending to it.
pub proof fn lemma_people_view_push(s: Seq<Person>, p: Person)
    ensures
        people_view(s.push(p)) == people_view(s).push(p@),
{
    assert(people_view(s.push(p)) =~= people_view(s).push(p@));
}

/// The people of tier `t` in a roster, in roster order (a stable filter).
pub open spec fn filter_tier(s: Seq<PersonView>, t: Ability) -> Seq<PersonView>
    decreases s.len(),
{
    if s.len() == 0 {
        Seq::empty()
    } else {
        filter_tier(s.drop_last(), t) + if s.last().ability == t {
            seq![s.last()]
        } else {
            Seq::empty()
        }
    }
}

/// Everyone a stable tier filter keeps has that tier.
pub proof fn lemma_filter_tier_ability(s: Seq<PersonView>, t: Ability)
    ensures
        forall|i: int|
            0 <= i < filter_tier(s, t).len() ==> (#[trigger] filter_tier(s, t)[i]).ability == t,
    decreases s.len(),
{
    if s.len() > 0 {
        lemma_filter_tier_ability(s.drop_last(), t);
    }
}

/// A one-longer roster prefix filters to the same people, plus the new
/// person when that person has tier `t`.
pub proof fn lemma_filter_tier_take_succ(s: Seq<PersonView>, t: Ability, i: int)
    requires
        0 <= i < s.len(),
    ensures
        filter_tier(s.take(i + 1), t) == filter_tier(s.take(i), t) + if s[i].ability == t {
            seq![s[i]]
        } else {
            Seq::<PersonView>::empty()
        },
{
    assert(s.take(i + 1).drop_last() =~= s.take(i));
    assert(s.take(i + 1).last() == s[i]);
}

/// The whole roster is its own full prefix.
pub proof fn lemma_filter_tier_take_all(s: Seq<PersonView>, t: Ability)
    ensures
        filter_tier(s.take(s.len() as int), t) == filter_tier(s, t),
{
    assert(s.take(s.len() as int) =~= s);
}

} // verus!
