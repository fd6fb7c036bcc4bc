//! A codec for RESP3-style frames: an in-memory value model, an exact byte
//! encoding, a completeness check for partially received buffers, and a decoder
//! that consumes a frame only once all of it is present.
//!
//! [`RespEncode::encode`] writes a value as the bytes that `model` defines.
//! [`RespDecode::expect_length`] answers how many bytes the frame at the front
//! of a buffer takes, and [`RespDecode::decode`] takes that frame out of a
//! `BytesMut`; both follow the definitions in `grammar`. The modules
//! `round_trip` and `completeness` prove what holds between them: a valid frame
//! reads back as itself, a buffer is never consumed in part, and every answer
//! of the length check but `NotComplete` is final.
//!
//! A double is carried as its decimal text, see `double`.
pub mod buffer;
pub mod completeness;
pub mod decode;
pub mod double;
pub mod encode;
pub mod error;
pub mod frame;
pub mod grammar;
pub mod length;
pub mod line;
pub mod model;
pub mod number;
pub mod round_trip;
pub mod text;

pub use decode::RespDecode;
pub use double::{notation, Notation, RespDouble};
pub use encode::RespEncode;
pub use error::{ErrorKind, RespError};
pub use frame::{
    BulkString, RespArray, RespFrame, RespMap, RespNull, RespNullArray, RespNullBulkString,
    RespSet, SimpleError, SimpleString,
};
pub use length::{calc_total_length, parse_length};
pub use line::{extract_simple_frame_data, find_crlf};
