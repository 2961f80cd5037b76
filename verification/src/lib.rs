//! The decisions of a Slack channel: who may talk to the bot, how senders
//! approve themselves with one-time codes, what is done with a message that
//! comes in, what is sent and in which form, and how the connection to Slack
//! is kept open.
//!
//! Nothing here waits or talks to the network. A host performs what the
//! functions of this library ask for and hands back what came of it.

pub mod access;
pub mod channel;
pub mod chunk;
pub mod clock;
pub mod config;
pub mod decimal;
pub mod error;
pub mod gating;
pub mod handlers;
pub mod json;
pub mod markdown;
pub mod otp;
pub mod outbound;
pub mod plugin;
pub mod socket;
pub mod state;
pub mod table;
pub mod text;

pub use config::SlackAccountConfig;
pub use plugin::SlackPlugin;
