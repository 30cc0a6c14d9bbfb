//! What a client of the time-tracking service needs besides the connection
//! itself: its configuration, the shapes of the service's answers, its
//! errors, and the addresses of its resources.

pub mod config;
pub mod error;
pub mod json;
pub mod uri_builder;
