//! Wire-protocol command model of a streaming message broker: the commands a
//! client sends, their binary framing, their validation rules and their
//! diagnostic text forms.
//!
//! Every multi-byte integer on the wire is little-endian. The contracts speak
//! of byte sequences (`Seq<u8>`) and of the ghost views of the records.

pub mod buffer;
pub mod endian;
pub mod error;
pub mod get_topics;
pub mod header;
pub mod identifier;
pub mod logout_user;
pub mod message;
pub mod partitioning;
pub mod send_messages;
pub mod text;
pub mod timestamp;
