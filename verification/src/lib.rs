//! Core of a two-hop tunnelling proxy: the fixed-size frame format of the
//! link between ingress and egress, and the rules that let many logical
//! connections share that link.

pub mod allocator;
pub mod bootstrap;
pub mod error;
pub mod link;
pub mod message;
pub mod mux;
pub mod relay;
pub mod routing;
