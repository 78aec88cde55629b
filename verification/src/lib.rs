//! Gateway core: the decisions of an API gateway.
//!
//! The crate holds the logic of the gateway and none of its plumbing. Time,
//! what a socket delivered, what a script on a shared store answered and what
//! stood in a file come in as values; what is to be sent, stored or logged
//! goes out as values.
//!
//! - [`config`]: the parts of the configuration that the logic reads
//! - [`k8s_gateway`]: Gateway API and Ingress resources as configuration, and
//!   the reconciliation of a cluster's resources
//! - [`dataplane`]: the WebSocket bridge, the request firewall, version
//!   deprecation and the HTTP/3 connection pool
//! - [`events`]: the event bus, webhooks and the stream of access records
//! - [`extensions`]: rate limits, quotas, caches, secrets, nonces, licences,
//!   configuration convergence and analytics
//! - [`health`]: passive health checking of endpoints
//! - [`lifecycle`]: the developer portal, environment profiles and request
//!   journeys
//! - [`mcp`]: the administration tools for agents
//! - [`mesh`]: the sidecar and the identities of workloads
//! - [`observability`]: access records, request ids and sampling
//! - [`openapi`]: validation of responses against an OpenAPI document
//! - [`error`]: the aggregate over the errors of the domains
//!
//! Texts are specified as sequences of characters ([`text`]), JSON documents
//! as the values they stand for ([`json`], [`json_text`]), and dates by the
//! calendar ([`civil_time`]).

pub mod civil_time;
pub mod config;
pub mod dataplane;
pub mod error;
pub mod events;
pub mod extensions;
pub mod headers;
pub mod health;
pub mod json;
pub mod json_text;
pub mod k8s_gateway;
pub mod lifecycle;
pub mod lists;
pub mod mcp;
pub mod mesh;
pub mod observability;
pub mod openapi;
pub mod text;
pub mod text_map;
pub mod url;
