//! Client core for a distributed message-queue cluster: the wire codec and
//! framing, the connection and pending-request bookkeeping, the name-server
//! route cache and the queue allocation strategies.
pub mod client;
pub mod consumer;
pub mod error;
pub mod fields;
pub mod message;
pub mod message_ext;
pub mod model;
pub mod namesrv;
pub mod producer;
pub mod protocol;
pub mod remoting;
pub mod request;
pub mod resolver;
pub mod response;
pub mod route;
pub mod selector;
pub mod signing;
pub mod strategy;
pub mod text;
pub mod wire;

