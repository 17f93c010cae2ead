//! Decision logic of a TCP traffic stealer: port subscriptions, connection
//! bookkeeping, best-effort HTTP detection and header-based request routing.
//!
//! Every function here works on plain values. Sockets, channels and the packet
//! filter are driven by the embedding program, which feeds events in and
//! carries the returned actions out.

pub mod api;
pub mod config;
pub mod filter;
pub mod http;
pub mod http_filter;
pub mod http_traffic;
pub mod index_allocator;
pub mod ip_tables;
pub mod layer;
pub mod pattern;
pub mod probe;
pub mod protocol;
pub mod protover;
pub mod response_queue;
pub mod reversible_stream;
pub mod seq_facts;
pub mod stealer;
pub mod stealer_laws;
pub mod stealer_model;
pub mod subscriptions;
pub mod traffic;
