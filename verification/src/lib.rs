//! Codec library for the kdb+/q inter-process communication wire protocol.
//!
//! The crate models q's tagged value type `K`, serializes and deserializes it
//! to and from the `-8!`/`-9!` byte representation, implements the proprietary
//! `-18!`/`-19!` compression scheme, and offers a frame codec with
//! configurable compression and validation policies.  The byte format of every
//! value is pinned down by the specification function [`serialize::ser`]: the
//! serializer is proved to emit exactly `ser`, and the deserializer is proved
//! to return only values whose serialization is exactly the span of input it
//! consumed.

pub mod qtype;
pub mod qattribute;
pub mod qmsg_type;
pub mod qnull_base;
pub mod error;
pub mod endian;
pub mod types;
pub mod serialize;
pub mod deserialize;
pub mod compress;
pub mod codec;
pub mod index;
pub mod auth;
pub mod temporal;
pub mod connection;

pub use error::Error;
pub use types::{K, KValue, G, H, I, J, S, U};
pub use codec::{CompressionMode, KdbCodec, KdbCodecBuilder, KdbMessage, KdbResponse,
    MessageHeader, ValidationMode, io_error_to_kdb_error};
pub use compress::{compress_sync, decompress_sync};
pub use deserialize::{MAX_LIST_SIZE, MAX_RECURSION_DEPTH};
pub use connection::{ConnectionMethod, Query};
