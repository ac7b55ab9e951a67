pub mod blob;
pub mod engine;
pub mod error;
pub mod state;
pub mod registry;
pub mod polling;
pub mod settings;
pub mod repl;
pub mod session;
pub mod outbox;
