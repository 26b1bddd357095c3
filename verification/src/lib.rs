//! A steganographic codec: hides an arbitrary byte payload inside a lossless
//! media carrier (16-bit RGBA PNG or 32-bit integer PCM WAV) by writing a
//! framed, deflate-compressed and optionally XOR-encrypted byte stream into
//! the low half of each cover sample, and recovers the payload from such a
//! carrier.

pub mod bytes;
pub mod errors;
pub mod header;
pub mod security;
pub mod compress;
pub mod compose;
pub mod image_io;
pub mod audio_io;
pub mod carrier;
pub mod pipeline;
pub mod plugins;
pub mod sequence;
