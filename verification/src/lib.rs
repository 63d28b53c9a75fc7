//! Package-manager client core: repository cache and dependency resolution.

pub mod creator;
pub mod environment;
pub mod headers;
pub mod http;
pub mod installer;
pub mod interop;
pub mod manifest;
pub mod notation;
pub mod order;
pub mod parse;
pub mod range;
pub mod reading;
pub mod repo_holder;
pub mod resolution;
pub mod resolver;
pub mod repository;
pub mod text;
pub mod version;
