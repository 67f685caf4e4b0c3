pub mod agent;
pub mod config;
pub mod decimal;
pub mod frontend;
pub mod http;
pub mod json;
pub mod mix;
pub mod notation;
pub mod server;
pub mod text;
pub mod time;
