//! The forwarding engine of a single-route-table HTTP reverse proxy: route
//! resolution by exact path, construction of the outbound request, header
//! rewriting, and filtering of the relayed response.
pub mod forward;
pub mod headers;
pub mod laws;
pub mod routes;
pub mod target;
