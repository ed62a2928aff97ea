//! Core of a Kademlia-style DHT for peer discovery: the binary wire format of
//! the control packets, the authenticated-encryption envelope around them, and
//! the XOR-metric routing-table primitives.

pub mod binary_io;
pub mod crypto_core;
pub mod dht;
pub mod kbucket;
