//! The decoders provided by this crate.

pub mod byte_array;
pub mod byte_vec;
pub mod combinators;
pub mod integer;
pub mod u8_decoder;
pub mod utf8_string;

pub use byte_array::ByteArrayDecoder;
pub use byte_vec::ByteVecDecoder;
pub use byte_vec::ByteVecState;
pub use integer::IntDecoder;
pub use u8_decoder::U8Decoder;
pub use utf8_string::Error as Utf8StringError;
pub use utf8_string::Utf8StringDecoder;
