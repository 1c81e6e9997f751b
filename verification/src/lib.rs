//! Session logic for a terminal companion of a locally running game client:
//! credential discovery from launch arguments, request building for the
//! client's local HTTPS API, contact search and the interactive invite loop.

pub mod auth;
pub mod chat;
pub mod client;
pub mod encoding;
pub mod error;
pub mod fold;
pub mod session;
pub mod text;

pub use client::Lcu;
pub use error::ApiError;
