//! The room and session engine of a live classroom: rooms that teachers open
//! and students join, students' cup colors, and quiz questions whose recorded
//! answers follow their option's text when the options are edited.
pub mod error;
pub mod message;
pub mod question;
pub mod room;
pub mod session;
pub mod state;
pub mod configuration;
pub mod cups;
