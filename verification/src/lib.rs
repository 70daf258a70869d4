//! Verified core of a two-role message relay.
//!
//! Connections are admitted under one of two roles, determined by the request
//! path: producers (path `/user`) and consumers (path `/client`). Live
//! connections are kept in a [`registry::Registry`], keyed by the
//! transport-assigned connection id. A message from a producer is fanned out
//! to every currently registered consumer; a message from a consumer is
//! accepted and goes nowhere. The transport itself (sockets, handshakes,
//! sends) stays outside this crate: the registry holds each connection's
//! outbound capability as an opaque value and the relay logic only decides
//! who receives what.

pub mod headers;
pub mod laws;
pub mod registry;
pub mod relay;
