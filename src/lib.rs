//! A small build-automation runner: a recipe names a build step, pre-build
//! hooks and custom tasks; the library decides which run, in what order, and
//! turns each command string into the argument vectors to launch.

pub mod command;
pub mod recipe;
pub mod session;
