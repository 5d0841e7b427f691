pub mod client;
pub mod command;
pub mod convert;
pub mod grammar;
pub mod message;
pub mod registry;
pub mod server;
