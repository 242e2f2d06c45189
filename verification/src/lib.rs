//! Operations console.

pub mod cli;
pub mod cloud;
pub mod codec;
pub mod config;
pub mod error;
pub mod json;
pub mod laws;
pub mod notify;
pub mod ops;
pub mod real64;
pub mod serve;
pub mod sort;
pub mod text;
pub mod time;
