//! The messaging channels.

pub mod laws;
pub mod telegram;
pub mod twilio;
