//! A user registry: the records of a CRUD service for one "user" resource,
//! with the rules that create, update and delete obey, proved against a
//! mathematical model of the collection.

pub mod config;
pub mod models;
pub mod repositories;

pub use models::{User, UserError};
pub use config::LogConfig;
pub use repositories::in_memory_repository::InMemoryUserRepository;
