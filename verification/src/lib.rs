//! Resolution of npm packages for a JavaScript runtime: requests and
//! versions, the snapshot of what is resolved and its lockfile, where
//! packages stand on disk, which file a specifier leads to, and which names
//! a CommonJS module exports.

pub mod cjs;
pub mod copies;
pub mod decimal;
pub mod error;
pub mod exports;
pub mod flight;
pub mod layout;
pub mod lexer;
pub mod lookup;
pub mod module;
pub mod package;
pub mod path;
pub mod platform;
pub mod policy;
pub mod proxy;
pub mod registry;
pub mod req;
pub mod resolve;
pub mod resolver;
pub mod run;
pub mod snapshot;
pub mod specifier;
pub mod text;
pub mod version;
