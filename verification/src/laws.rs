//! What the verbs are for: laws that relate what goes in to what comes out.
//!
//! Each law takes the outcome of a verb as its contract gives it, and says in terms of memberships,
//! versions and characters what must then hold.

pub mod history;
pub mod initiatives;
pub mod listings;
pub mod open_work;
pub mod recall;
pub mod rest;
pub mod texts;
pub mod verbs;
