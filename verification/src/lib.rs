//! Files one tracking issue per static-analysis finding, without filing the
//! same title twice.
//!
//! The crate holds the decisions only. [`sarif`] flattens a findings document
//! into issue records, [`issues`] reconciles one candidate against the issues
//! a tracker already has, and [`upload`] walks a batch of files. Nothing here
//! touches a file or a socket: each machine names the next action to perform
//! and takes its outcome back as a value.
//!
//! [`tracker`] and [`session`] hold no code that runs. They model a tracker
//! that behaves and prove what then holds of a whole run: what is sent, in
//! which order, and that a second run files nothing.

pub mod issues;
pub mod sarif;
pub mod session;
pub mod text;
pub mod tracker;
pub mod upload;
