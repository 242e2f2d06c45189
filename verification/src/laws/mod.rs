//! What holds of the console as a whole, told in terms of what goes in and what comes out.

pub mod disk;
pub mod expiry;
pub mod form;
pub mod policies;
pub mod regions;
pub mod requests;
pub mod rotation;
pub mod settings;
pub mod views;
pub mod web;
pub mod words;
