//! A chat-command responder: splits chat messages into a trigger and its
//! arguments, finds the command that the trigger names, checks the caller's
//! roles, and fills the command's reply template.
pub mod command;
pub mod config;
pub mod dispatch;
pub mod registry;
pub mod settings;
pub mod text;

pub use command::{Command, CommandConfig, Role, UserContext};
pub use config::Config;
pub use dispatch::{get_message_components, respond};
pub use registry::CommandRegistry;
pub use settings::Settings;
