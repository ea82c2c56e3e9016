//! Text forms of a recording: what a line of input or output holds.

pub mod codecs;

pub use codecs::{create_codec, Codec, CodecError, CodecType};
