//! Looks one value up by key along a chain of sources: command-line arguments,
//! environment variables, a configuration, a plain file, a JSON file and a
//! final default. The first source that has an answer decides.
//!
//! A lookup does not read the outside itself. The chain says what has to be
//! read for a key ([`Handler::needs`]), and answers from a [`Snapshot`] that
//! holds what was read ([`Handler::handle_request`]). The answer is a function
//! of the chain, the key and the snapshot: `chain::resolve` says which.

pub mod arg_handler;
pub mod chain;
pub mod config_handler;
pub mod default_handler;
pub mod env_handler;
pub mod file_handler;
pub mod handler;
pub mod json;
pub mod json_file_handler;
pub mod snapshot;
pub mod tree;

pub use arg_handler::ArgHandler;
pub use config_handler::ConfigHandler;
pub use default_handler::DefaultHandler;
pub use env_handler::EnvHandler;
pub use file_handler::FileHandler;
pub use handler::Handler;
pub use json_file_handler::JSONFileHandler;
pub use snapshot::{Need, Snapshot};
pub use tree::Node;
