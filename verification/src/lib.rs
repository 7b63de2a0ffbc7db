//! The logic of a server that shares broadcast tuners among HTTP clients: its configuration, the
//! command lines of its tuners, who uses which tuner, and what its requests are answered.

pub mod api;
pub mod clock;
pub mod command;
pub mod config;
pub mod effects;
pub mod laws;
pub mod pump;
pub mod shell;
pub mod state;
pub mod text;
pub mod tuner;
pub mod users;
pub mod vars;
