//! A small static-site server core: a preloaded file cache, a request-line
//! parser and an ordered chain of plugins, the first matching one of which
//! answers each request.

pub mod request;
pub mod file_cache;
pub mod plugin;
pub mod server;

pub use file_cache::{cache_key, FileCache};
pub use plugin::{Plugin, PluginHelloWorld, PluginStaticFile, Response};
pub use request::Request;
pub use server::Server;
