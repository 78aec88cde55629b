//! The rules of the data path: WebSocket policing, the web application
//! firewall, API versioning and the HTTP/3 upstream pool.

pub mod upstream_h3;
pub mod versioning;
pub mod waf;
pub mod websocket;
