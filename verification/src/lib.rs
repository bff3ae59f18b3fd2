//! Island runs commands under Landlock profiles. This library holds what Island decides:
//! what is asked for next, in which order, with which paths and variables, and what is shown.
//! Reading, writing, analyzing binaries and enforcing rulesets is left to the caller.
//!
//! - [`run`] decides on a command and its sandbox; [`run_laws`] states what holds of every
//!   run, [`step_laws`] what follows on what.
//! - [`dependency`] finds the paths of the shared libraries that a command needs;
//!   [`dependency_laws`] states which.
//! - [`create`] decides on a new profile, with [`create_laws`]; [`commands`] on the rest.
//! - [`path`], [`path_set`], [`environment`], [`order`] and [`text`] are what these stand on,
//!   with [`path_laws`] and [`text_laws`]; [`view_laws`] states what the views hold.
pub mod commands;
pub mod create;
pub mod create_laws;
pub mod dependency;
pub mod dependency_laws;
pub mod environment;
pub mod error;
pub mod order;
pub mod path;
pub mod path_laws;
pub mod path_set;
pub mod run;
pub mod run_laws;
pub mod step_laws;
pub mod text;
pub mod text_laws;
pub mod view_laws;
