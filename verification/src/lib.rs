//! Checks the dependencies between the packages of one repository against a
//! layering policy: which layer may depend on which, no cycles, and what a
//! public package and what dev dependencies may hold.
//!
//! The library works on texts and values alone. Reading files, walking
//! directories and asking the registry are left to the program around it.

pub mod cli;
pub mod command;
pub mod config;
pub mod dependency;
pub mod error;
pub mod pattern;
pub mod policy;
pub mod pubdev;
pub mod pubspec;
pub mod text;
pub mod util;
pub mod validator;
pub mod yaml;
