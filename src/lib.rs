pub mod command;
pub mod cursor;
pub mod input;
pub mod server;
