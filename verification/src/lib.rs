//! What goes into the sysroot of a target, and what is done to bring it up to date.
//!
//! An `Xargo.toml` lists the crates of a sysroot. [`blueprint::Blueprint::from`] draws up from it
//! the stages in which they are compiled, [`hash::hash`] tells one sysroot from another,
//! [`plan::build`] lays down the steps of a build, and [`update::update`] decides what is to be
//! done at all. Nothing here touches the disk or runs a command: that is left to the caller, who is
//! asked and told.
pub mod blueprint;
pub mod document;
pub mod draft;
pub mod error;
pub mod hash;
pub mod listing;
pub mod meaning;
pub mod mode;
pub mod outcome;
pub mod plan;
pub mod text;
pub mod update;
