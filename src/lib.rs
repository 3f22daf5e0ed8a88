//! Client-side wire layer of a Waku light node: protobuf encodings of the
//! request/response schemas of four sub-protocols, their framings with size
//! caps, and the routing of requests and outcomes by protocol.
pub mod varint;
pub mod wire;
pub mod message;
pub mod node;
pub mod metadata;
pub mod peer_exchange;
pub mod filter;
pub mod framing;
pub mod light_push;
pub mod protocol;
