pub mod auth;
pub mod master;
