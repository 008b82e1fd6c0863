//! Request routing for an HTTP reverse proxy: a table of backend services,
//! prefix matching of request paths, path rewriting and header decisions.

pub mod error;
pub mod text;
pub mod routing;
pub mod rewrite;
pub mod proxy;
