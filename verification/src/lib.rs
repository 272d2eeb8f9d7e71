//! Plan-repository core: the data model, path layout, an in-memory store and
//! the domain operations over projects, roadmaps, phases, tasks, plans,
//! reviews and runs, with the `reviewed` guard, structural backlinks and
//! the backlog report.
pub mod text;
pub mod model;
pub mod error;
pub mod store;
pub mod paths;
pub mod link;
pub mod sorted;
pub mod graph;
pub mod config;
pub mod clock;
pub mod io;
pub mod ops;
pub mod repo;
pub mod problem;
pub mod root;
