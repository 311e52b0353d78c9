//! Blob storage pipeline for a content-addressed network.
//!
//! Data is self-encrypted into chunks ([`cipher`], cut as [`layout`] says)
//! and described by a data map ([`data_map`]). The root level of the data
//! map is packed into a blob ([`blob`], [`packer`]): a blob too large for
//! the network is itself self-encrypted, level upon level, until the
//! outermost blob fits. The address of that blob ([`address`], [`digest`])
//! is the address of the data. Reading peels the levels and reads a window
//! through the data map ([`reader`]).
//!
//! [`client`] is the facade, verified against an in-memory [`store`];
//! [`laws`] and [`levels`] state what holds of the pipeline as a whole.
//! Hashing and the cipher are the work of other crates, called through the
//! few functions whose contracts are taken on trust ([`digest`], [`cipher`]).

pub mod accounting;
pub mod address;
pub mod blob;
pub mod cipher;
pub mod client;
pub mod data_map;
pub mod digest;
pub mod error;
pub mod laws;
pub mod layout;
pub mod levels;
pub mod outside;
pub mod packer;
pub mod reader;
pub mod resp;
pub mod store;
pub mod wire;
