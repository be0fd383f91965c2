pub mod auth;
pub mod todo;
