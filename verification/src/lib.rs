//! Core logic of the Wenfox desktop shell: configuration-format selection,
//! the task (quest) registry, and the configuration and life cycle of the
//! embedded HTTP servers.

pub mod external;
pub mod text;
pub mod config;
pub mod quest;
pub mod builder;
pub mod server;
pub mod web;
pub mod cli;
pub mod host;
