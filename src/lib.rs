//! Byte-range serving for pushing a firmware image to a device over its
//! local-network update API: `Range` header parsing, span extraction and the
//! partial-content / `multipart/byteranges` response encoding, with the
//! checksum and the update requests that go with it.
pub mod decimal;
pub mod error;
pub mod file_range;
pub mod hasher;
pub mod range;
pub mod sonoff_api;
