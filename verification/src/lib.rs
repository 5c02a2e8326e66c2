//! The decision core of the sglaz client agent.
pub mod archive;
pub mod browse;
pub mod cli;
pub mod config;
pub mod deploy;
pub mod enroll;
pub mod envfile;
pub mod paths;
pub mod poll;
pub mod reconcile;
pub mod runs;
pub mod tasks;
pub mod text;
pub mod tray;
pub mod upgrade;
pub mod wire;
