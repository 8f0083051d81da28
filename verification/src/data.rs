//! The scheduling data model: ability tiers, people, jobs, rotation pools,
//! single-day assignments and whole-week results.

pub mod day;
pub mod job;
pub mod person;
pub mod pool;
pub mod week;

pub use self::day::Day;
pub use self::day::DayView;
pub use self::job::Job;
pub use self::job::JobView;
pub use self::person::Ability;
pub use self::pool::PoolView;
pub use self::pool::RotationPool;
pub use self::week::Week;
pub use self::person::Person;
pub use self::person::PersonView;
