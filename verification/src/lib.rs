pub mod binder;
pub mod config;
pub mod controller;
pub mod executor;
pub mod matcher;
pub mod registry;
pub mod session;
