//! A reactor runtime and game-match orchestrator.
//!
//! Reactors are independently scheduled actors that communicate only through
//! links: per-peer policy objects with typed handler tables. On top of the
//! runtime, a game supervisor tracks match instances, a client manager binds
//! player tokens to controllers, and a step-lock advances game turns under a
//! per-turn timeout.

pub mod broker;
pub mod client_controller;
pub mod client_manager;
pub mod driver;
pub mod echo;
pub mod errors;
pub mod game_host;
pub mod graph;
pub mod game_manager;
pub mod handles;
pub mod ids;
pub mod link;
pub mod message;
pub mod net;
pub mod rng;
pub mod runtime;
pub mod step_lock;
pub mod types;
