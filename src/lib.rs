//! A DNS message codec (RFC 1035 wire format, with label compression on the
//! decoding side) and a sans-I/O resolver engine that sequences queries and
//! classifies responses without owning any socket.

pub mod error;
pub mod wire;
pub mod header;
pub mod name;
pub mod codes;
pub mod question;
pub mod record;
pub mod buffer;
pub mod message;
pub mod engine;
pub mod text;
pub mod view;

pub use error::{DecodeError, Invalid};
pub use header::{Flags, Header};
pub use name::{Name, NameError};
pub use codes::{Class, QClass, QType, Ttl, Type};
pub use question::Question;
pub use record::{RData, Record};
pub use message::{EncodeError, Query, QueryCodec, Response, ResponseCodec};
