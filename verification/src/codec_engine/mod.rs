//! The FIX codec: wire primitives, the field map, framing, encoding and decoding.

pub mod body_fields;
pub mod body_parse;
pub mod buffer_pool;
pub mod bytes_buf;
pub mod error;
pub mod field_map;
pub mod fix_codec;
pub mod framing;
pub mod laws;
pub mod round_trip;
pub mod text;
pub mod wire;
pub mod wire_lemmas;
pub mod wire_safety;
