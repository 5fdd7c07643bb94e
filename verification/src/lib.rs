//! A chainable TCP tunneling proxy library: a length-prefixed binary framing
//! protocol, chain resolution for source-routed connection establishment,
//! full-duplex forwarding engines, and a selective payload encryption layer.
pub mod conf;
pub mod convert;
pub mod crypt;
pub mod dispatch;
pub mod err;
pub mod forward;
pub mod json;
pub mod protocol;
pub mod request;
pub mod response;
pub mod server;
pub mod settings;
pub mod wire;
