//! A content-addressed object store: objects are framed with a header,
//! named by the SHA-1 digest of the framed bytes and kept zlib-compressed.

pub mod decimal;
pub mod hex;
pub mod primitives;
pub mod codec;
pub mod store;
pub mod objects;
