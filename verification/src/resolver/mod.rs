//! Connection targets and remote evaluation: name resolution for flagd
//! endpoints, including Envoy-style `envoy://host:port/service` targets,
//! and how gRPC failures are reported.

pub mod connect;
pub mod name;
pub mod rpc;
