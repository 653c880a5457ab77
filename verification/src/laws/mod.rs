//! What holds of the protocol as a whole.

pub mod addresses;
pub mod commands;
pub mod forms;
pub mod letters;
pub mod replies;
pub mod sessions;
pub mod states;
pub mod texts;
