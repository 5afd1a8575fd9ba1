//! A multi-tenant work-shift scheduling core.
//!
//! Organizations define recurring shifts at locations and assign staff to
//! them. The library covers the recurrence & assignment engine (expanding a
//! recurrence rule into concrete shift occurrences and assigning staff with
//! conflict detection) and the authentication & authorization guard (issuing
//! and validating bearer credentials, and enforcing admin-vs-self visibility
//! on every read).

pub mod auth;
pub mod calendar;
pub mod errors;
pub mod people;
pub mod recur;
pub mod roster;
pub mod shifts;
pub mod store;
pub mod users;
