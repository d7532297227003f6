//! A client engine for line-oriented AT command protocols: commands are
//! serialized and written to a serial device, replies and unsolicited result
//! codes (URCs) arrive through fixed-capacity single-producer/single-consumer
//! queues filled by an ingress manager.

pub mod client;
pub mod codec;
pub mod command;
pub mod error;
pub mod laws;
pub mod queues;
