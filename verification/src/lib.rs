//! A verified engine that turns an already-parsed OpenAPI/Swagger document
//! into a typed intermediate representation of every endpoint: per-operation
//! parameters, request body and per-status responses, each as a recursively
//! typed schema tree, together with a lazily populated cache of resolved
//! named schemas.

pub mod document;
pub mod logger;
pub mod parser;
