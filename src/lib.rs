//! Reconciles a declared set of packages and groups against what is installed.

pub mod packages;
pub mod compute_actions;
pub mod reader;
pub mod text;
pub mod pacman;
