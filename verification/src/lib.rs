//! Protocol-state core of a leaderless, DAG-based consensus engine, together
//! with the log levels shared by the engine's components.

pub mod ancestry;
pub mod contracts;
pub mod dag;
pub mod engine;
pub mod finality;
pub mod log_level;
pub mod protocol_state;
pub mod replay;
pub mod resolver;
pub mod validator;
pub mod vertex;
