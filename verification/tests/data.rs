use kp_chart::data::Ability;
use kp_chart::data::Job;
use kp_chart::data::Person;
use kp_chart::data::RotationPool;

#[test]
fn ability_to_str_names_each_tier() {
    assert_eq!(Ability::Adult.to_str(), "Adult");
    assert_eq!(Ability::Teen.to_str(), "Teen");
    assert_eq!(Ability::Child.to_str(), "Child");
}

#[test]
fn ability_from_i32_inverts_to_i32() {
    assert_eq!(Ability::from_i32(0), Ability::Adult);
    assert_eq!(Ability::from_i32(1), Ability::Teen);
    assert_eq!(Ability::from_i32(2), Ability::Child);
    assert_eq!(Ability::Adult.to_i32(), 0);
    assert_eq!(Ability::Teen.to_i32(), 1);
    assert_eq!(Ability::Child.to_i32(), 2);
}

#[test]
fn ability_enumerate_lists_all_tiers_in_order() {
    let all = Ability::enumerate();
    assert_eq!(all, vec![Ability::Adult, Ability::Teen, Ability::Child]);
}

#[test]
fn ability_default_is_adult() {
    assert_eq!(Ability::default(), Ability::Adult);
}

#[test]
fn person_accessors_and_setters() {
    let mut p = Person::new("Anna", Ability::Teen);
    assert_eq!(p.name(), "Anna");
    assert_eq!(p.ability(), Ability::Teen);
    p.set_name(String::from("Luke"));
    assert_eq!(p.name(), "Luke");
    p.set_ability(Ability::Child);
    assert_eq!(p.ability(), Ability::Child);
}

#[test]
fn job_accessors() {
    let job = Job::new("Breakfast dishes", vec![Ability::Teen, Ability::Child]);
    assert_eq!(job.name(), "Breakfast dishes");
    assert_eq!(job.people(), &vec![Ability::Teen, Ability::Child]);
}

#[test]
fn rotation_pool_wraps_around() {
    let members = vec![
        Person::new("Anna", Ability::Teen),
        Person::new("Luke", Ability::Teen),
    ];
    let mut pool = RotationPool::new(Ability::Teen, members);
    assert_eq!(pool.next().name(), "Anna");
    assert_eq!(pool.next().name(), "Luke");
    assert_eq!(pool.next().name(), "Anna");
    assert_eq!(pool.next().name(), "Luke");
}

#[test]
fn rotation_pool_advance_extra_skips() {
    let members = vec![
        Person::new("Papa", Ability::Adult),
        Person::new("Chris", Ability::Adult),
        Person::new("Kim", Ability::Adult),
    ];
    let mut pool = RotationPool::new(Ability::Adult, members);
    assert_eq!(pool.next().name(), "Papa");
    pool.advance_extra(1);
    assert_eq!(pool.next().name(), "Kim");
    pool.advance_extra(4);
    assert_eq!(pool.next().name(), "Chris");
}

#[test]
fn rotation_pool_empty_hands_out_placeholder() {
    let mut adults = RotationPool::new(Ability::Adult, Vec::new());
    let p = adults.next();
    assert_eq!(p.name(), "No Adult Here");
    assert_eq!(p.ability(), Ability::Adult);
    let mut teens = RotationPool::new(Ability::Teen, Vec::new());
    assert_eq!(teens.next().name(), "No Teen Here");
    let mut children = RotationPool::new(Ability::Child, Vec::new());
    assert_eq!(children.next().name(), "No Child Here");
}
