//! Decoding of JPEG XL images into flat pixel buffers held in a handle-based arena.
pub mod sample;
pub mod frame;
pub mod arena;
pub mod codec;
pub mod session;
pub mod host;

pub use arena::Arena;
pub use frame::{DecodeError, Frame, SourceFormat};
pub use host::{decode, decode_with_sample_size, frame_count, free, height_and_width, malloc};
pub use sample::SampleEncoding;
