use kp_chart::calculate;
use kp_chart::calculate_day_jobs;
use kp_chart::data::Ability;
use kp_chart::data::Day;
use kp_chart::data::Job;
use kp_chart::data::Person;
use kp_chart::default_jobs;
use kp_chart::default_people;

fn worker_names(day: &Day, job: usize) -> Vec<String> {
    day.get_job_people(job).iter().map(|p| String::from(p.name())).collect()
}

#[test]
fn default_jobs_catalog() {
    let jobs = default_jobs();
    assert_eq!(jobs.len(), 9);
    assert_eq!(jobs[0].name(), "Breakfast dishes");
    assert_eq!(jobs[0].people(), &vec![Ability::Teen, Ability::Child]);
    assert_eq!(jobs[3].name(), "Dinner Setting");
    assert_eq!(
        jobs[3].people(),
        &vec![Ability::Teen, Ability::Child, Ability::Child]
    );
    assert_eq!(jobs[8].name(), "Nag");
    assert_eq!(jobs[8].people(), &vec![Ability::Adult]);
}

#[test]
fn default_roster_cardinalities() {
    let people = default_people();
    assert_eq!(people.len(), 12);
    let adults = people.iter().filter(|p| p.ability() == Ability::Adult).count();
    let teens = people.iter().filter(|p| p.ability() == Ability::Teen).count();
    let children = people.iter().filter(|p| p.ability() == Ability::Child).count();
    assert_eq!(adults, 7);
    assert_eq!(teens, 3);
    assert_eq!(children, 2);
    assert_eq!(people[0].name(), "Papa");
    assert_eq!(people[11].name(), "Owen");
}

#[test]
fn calculate_day_jobs_gives_five_days_of_nine_jobs() {
    let week = calculate_day_jobs();
    assert_eq!(week.days().len(), 5);
    assert_eq!(week.num_jobs(), 9);
    let catalog = week.jobs();
    let names: Vec<&str> = catalog.iter().map(|j| j.name()).collect();
    assert_eq!(names.len(), 9);
    assert_eq!(names[0], "Breakfast dishes");
    assert_eq!(names[8], "Nag");
}

#[test]
fn default_schedule_day_zero_exactly() {
    let week = calculate_day_jobs();
    let day0 = &week.days()[0];
    assert_eq!(day0.name(), "day_0");
    assert_eq!(worker_names(day0, 0), vec!["Anna", "Catherine"]);
    assert_eq!(worker_names(day0, 1), vec!["Papa", "Chris"]);
    assert_eq!(worker_names(day0, 2), vec!["Kim", "Luke"]);
    assert_eq!(worker_names(day0, 3), vec!["Little Jake", "Owen", "Catherine"]);
    assert_eq!(worker_names(day0, 4), vec!["Becky", "Carl"]);
    assert_eq!(worker_names(day0, 5), vec!["Ben", "Anna"]);
    assert_eq!(worker_names(day0, 6), vec!["Luke"]);
    assert_eq!(worker_names(day0, 7), vec!["Big Jake"]);
    assert_eq!(worker_names(day0, 8), vec!["Papa"]);
    // Eight adult slots a day and seven adults: the day ends with the adult
    // cursor one past the start, and the boundary adds one extra step, so
    // day 1's first adult slot falls to the third adult.
    let day1 = &week.days()[1];
    assert_eq!(worker_names(day1, 1)[0], "Kim");
}

#[test]
fn week_length_matches_day_count() {
    let week = calculate(4, default_jobs(), default_people());
    assert_eq!(week.days().len(), 4);
}

#[test]
fn zero_days_yield_empty_week() {
    let week = calculate(0, default_jobs(), default_people());
    assert_eq!(week.days().len(), 0);
}

#[test]
fn day_labels_count_up_in_decimal() {
    let week = calculate(12, default_jobs(), default_people());
    assert_eq!(week.days()[0].name(), "day_0");
    assert_eq!(week.days()[1].name(), "day_1");
    assert_eq!(week.days()[9].name(), "day_9");
    assert_eq!(week.days()[10].name(), "day_10");
    assert_eq!(week.days()[11].name(), "day_11");
    let long = calculate(105, default_jobs(), default_people());
    assert_eq!(long.days()[99].name(), "day_99");
    assert_eq!(long.days()[100].name(), "day_100");
    assert_eq!(long.days()[104].name(), "day_104");
}

#[test]
fn every_worker_has_the_slot_ability() {
    let jobs = default_jobs();
    let week = calculate(5, default_jobs(), default_people());
    for day in week.days().iter() {
        assert_eq!(day.jobs().len(), jobs.len());
        for (j, (job, workers)) in day.jobs().iter().enumerate() {
            assert_eq!(job.name(), jobs[j].name());
            assert_eq!(workers.len(), job.people().len());
            for (i, slot) in job.people().iter().enumerate() {
                assert_eq!(workers[i].ability(), *slot);
            }
        }
    }
}

#[test]
fn identical_inputs_give_identical_weeks() {
    let w1 = calculate(5, default_jobs(), default_people());
    let w2 = calculate(5, default_jobs(), default_people());
    assert_eq!(w1.days().len(), w2.days().len());
    for (d1, d2) in w1.days().iter().zip(w2.days().iter()) {
        assert_eq!(d1.name(), d2.name());
        assert_eq!(d1.jobs().len(), d2.jobs().len());
        for j in 0..d1.jobs().len() {
            assert_eq!(d1.jobs()[j].0.name(), d2.jobs()[j].0.name());
            assert_eq!(worker_names(d1, j), worker_names(d2, j));
        }
    }
}

#[test]
fn teen_pool_rotates_fairly_over_whole_cycles() {
    // Two teen slots per day over two days is one whole wrap of a four-teen
    // pool: every teen must work exactly once.
    let jobs = vec![Job::new("Dishes", vec![Ability::Teen, Ability::Teen])];
    let people = vec![
        Person::new("Anna", Ability::Teen),
        Person::new("Luke", Ability::Teen),
        Person::new("Mia", Ability::Teen),
        Person::new("Noah", Ability::Teen),
    ];
    let week = calculate(2, jobs, people.clone());
    for person in people.iter() {
        let mut count = 0;
        for day in week.days().iter() {
            for worker in day.get_job_people(0).iter() {
                if worker.name() == person.name() {
                    count += 1;
                }
            }
        }
        assert_eq!(count, 1);
    }
}

#[test]
fn adult_offset_is_two_when_one_more_adult_than_slots() {
    // Five adult slots a day and a pool of six adults: 5 + 1 == 6, so the
    // pool advances two extra steps at each day boundary. Day 0 starts at
    // pool position 0 and consumes five adults; the boundary skips two, so
    // day 1 starts at position 1 and day 2 at position 2.
    let jobs = vec![
        Job::new("Lunch", vec![Ability::Adult, Ability::Adult]),
        Job::new("Dinner", vec![Ability::Adult, Ability::Adult]),
        Job::new("Cleanup", vec![Ability::Adult]),
    ];
    let people = vec![
        Person::new("A0", Ability::Adult),
        Person::new("A1", Ability::Adult),
        Person::new("A2", Ability::Adult),
        Person::new("A3", Ability::Adult),
        Person::new("A4", Ability::Adult),
        Person::new("A5", Ability::Adult),
    ];
    let week = calculate(3, jobs, people);
    assert_eq!(week.days()[0].get_job_people(0)[0].name(), "A0");
    assert_eq!(week.days()[1].get_job_people(0)[0].name(), "A1");
    assert_eq!(week.days()[2].get_job_people(0)[0].name(), "A2");
}

#[test]
fn adult_offset_is_one_otherwise() {
    // One adult slot a day and a pool of three adults: the boundary skips
    // one, so consecutive days start two positions apart.
    let jobs = vec![Job::new("Nag", vec![Ability::Adult])];
    let people = vec![
        Person::new("A0", Ability::Adult),
        Person::new("A1", Ability::Adult),
        Person::new("A2", Ability::Adult),
    ];
    let week = calculate(3, jobs, people);
    assert_eq!(week.days()[0].get_job_people(0)[0].name(), "A0");
    assert_eq!(week.days()[1].get_job_people(0)[0].name(), "A2");
    assert_eq!(week.days()[2].get_job_people(0)[0].name(), "A1");
}

#[test]
fn single_member_pools_repeat_every_day() {
    let jobs = vec![Job::new(
        "Breakfast dishes",
        vec![Ability::Teen, Ability::Child],
    )];
    let people = vec![
        Person::new("Anna", Ability::Teen),
        Person::new("Owen", Ability::Child),
    ];
    let week = calculate(3, jobs, people);
    assert_eq!(week.days().len(), 3);
    for day in week.days().iter() {
        let workers = day.get_job_people(0);
        assert_eq!(workers.len(), 2);
        assert_eq!(workers[0].name(), "Anna");
        assert_eq!(workers[0].ability(), Ability::Teen);
        assert_eq!(workers[1].name(), "Owen");
        assert_eq!(workers[1].ability(), Ability::Child);
    }
}

#[test]
fn empty_adult_pool_fills_slots_with_placeholder() {
    let jobs = vec![Job::new("Cabin cleanup", vec![Ability::Adult])];
    let people = vec![Person::new("Anna", Ability::Teen)];
    let week = calculate(2, jobs, people);
    for day in week.days().iter() {
        let workers = day.get_job_people(0);
        assert_eq!(workers.len(), 1);
        assert_eq!(workers[0].name(), "No Adult Here");
        assert_eq!(workers[0].ability(), Ability::Adult);
    }
}
