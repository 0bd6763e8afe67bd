//! A declarative CLI front end for HTTP APIs and shell scripts.
//!
//! A command tree is described in layered YAML documents; the layers are
//! merged with override-wins semantics, augmented with default flags, and
//! then drive either an HTTP request or a shell script, with template
//! expansion applied to endpoints, headers, bodies and scripts.

pub mod augment;
pub mod body;
pub mod config;
pub mod dispatch;
pub mod context;
pub mod errors;
pub mod http;
pub mod json;
pub mod merge;
pub mod oauth;
pub mod request;
pub mod script;
pub mod shell;
pub mod template;
pub mod text;
pub mod yaml;

