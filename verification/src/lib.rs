//! A small gamified to-do tracker: quests carry an experience reward and an
//! optional daily-recurrence flag, and a profile owns the quest collection
//! together with running totals of experience and completion events.
//!
//! The core model lives here: the completion rule that derives a quest's
//! open/closed status from its recorded completion date, the profile
//! operations that award experience at most once per eligible period, and
//! the stable ordering used to present open quests.

pub mod date;
pub mod display;
pub mod profile;
pub mod quest;

pub use date::Date;
pub use profile::Profile;
pub use quest::Quest;
