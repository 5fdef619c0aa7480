//! A service-registry bridge: clients register live network endpoints
//! (service name, address, port, metadata) with a TTL-based heartbeat,
//! and two read paths expose that state — a registration query filtered
//! by expiry, and a translation into locality-grouped, weighted endpoint
//! assignments for an endpoint-discovery (EDS) consumer.

pub mod clock;
pub mod handlers;
pub mod routes;
pub mod store;
pub mod text;
pub mod types;
pub mod v2xds;
