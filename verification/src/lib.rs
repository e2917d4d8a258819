//! Ouroboros network layer: wire formats, mini-protocol servers, multiplexing
//! and peer management.

pub mod address;
pub mod cbor;
pub mod hash;
pub mod mempool;
pub mod multiplexer;
pub mod mux;
pub mod n2c;
pub mod n2c_client;
pub mod n2c_server;
pub mod n2n_server;
pub mod order;
pub mod peer;
pub mod peer_manager;
pub mod point;
pub mod query_handler;
pub mod rank;
pub mod receive;
pub mod table;
pub mod text;
pub mod words;
