//! A multi-provider secret manager's core: secret values and the path
//! mappings that address them, the read-modify-write discipline of blob
//! backends, redaction, scanning, export, and the engine's decisions, each
//! stated in contracts and proved.

pub mod blob;
pub mod cli;
pub mod config;
pub mod dotenv;
pub mod engine;
pub mod error;
pub mod exec;
pub mod export;
pub mod external;
pub mod inmem;
pub mod options;
pub mod paths;
pub mod redact;
pub mod scan;
pub mod strmap;
pub mod text;
pub mod tree;
pub mod wizard;
