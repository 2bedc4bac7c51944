//! The four roles a group member moves through.
pub mod candidate;
pub mod follower;
pub mod leader;
pub mod precandidate;
pub mod util;
