//! A small HTTP service core: a route table with nestable groups and
//! deterministic matching precedence, the request handlers, and the shared
//! state that carries the template engine.
pub mod path;
pub mod route;
pub mod table;
pub mod engine;
pub mod service;
pub mod routes;
pub mod template;
