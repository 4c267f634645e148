//! A Kademlia distributed hash table node: identifiers and XOR distance,
//! the routing table of k-buckets, the wire codec of its messages, the
//! waiting list that pairs requests with replies, and the decisions that the
//! node's executors and handlers take on each message.
pub mod id;
pub mod text;
pub mod endpoint;
pub mod node;
pub mod neighbors;
pub mod routing;
pub mod message;
pub mod codec;
pub mod store;
pub mod wait;
pub mod callback;
pub mod network;
pub mod executor;
pub mod action;
