//! What holds of the library as a whole.
pub mod deployments;
pub mod entries;
pub mod installs;
pub mod loads;
pub mod paths;
pub mod plans;
pub mod requests;
pub mod searches;
pub mod sessions;
pub mod statuses;
pub mod texts;
pub mod users;
pub mod views;
