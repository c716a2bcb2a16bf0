//! ConstellaDB: a small column-oriented database engine with a SQL front end,
//! a length-prefixed message protocol, and the routing and scheduling decisions
//! of its distributed services.

pub mod text;
pub mod types;
pub mod codec;
pub mod engine;
pub mod laws;
pub mod command;
pub mod executor;
pub mod sql;
pub mod parser;
pub mod tick_scheduler;
pub mod round_robin;
pub mod protocol;
pub mod protocol_module;
pub mod server;
pub mod gateway;
pub mod cluster;
pub mod db_service;
pub mod http_api;
pub mod query_service;
pub mod frontend;
pub mod job_service;
