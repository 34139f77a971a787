//! Outbound reliability layer of a mix-network client: fragmentation of
//! payloads, bookkeeping of unacknowledged fragments with retransmission, and
//! backpressured batching towards the egress queue; plus the plain
//! descriptions of mix nodes and gateways that the network announces.
pub mod fragment;
pub mod message;
pub mod acknowledgement;
pub mod listener;
pub mod egress;
pub mod mixnode;
