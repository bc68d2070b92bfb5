//! Tunnel relay: a public relay server and the client that connects a local HTTP service to it.
//!
//! The relay accepts WebSocket registrations, hands each client a subdomain, and routes inbound
//! HTTP requests to the client that holds the subdomain. The client forwards each request to a
//! local server and streams the response back. This library holds every decision of both sides
//! as a verified function on plain values; sockets, timers and printing belong to its callers.

pub mod auth;
pub mod client;
pub mod config;
pub mod forward;
pub mod headers;
pub mod outside;
pub mod protocol;
pub mod relay;
pub mod requests;
pub mod string_map;
pub mod tables;
pub mod text;
