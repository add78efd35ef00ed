pub mod block;
pub mod command;
pub mod engine;
pub mod error;
pub mod laws;
pub mod matcher;
pub mod model;
pub mod output;
pub mod script;
pub mod text;
