//! What goes out to the chat: message texts, commands, delivery.

pub mod callbacks;
pub mod commands;
pub mod messages;
pub mod notifier;
