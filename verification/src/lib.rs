//! A verified slotted-page storage format: fixed 8192-byte pages holding a
//! growable directory of two-byte offsets and a tuple area of variable-length
//! records, the two regions growing toward each other.
//!
//! `page` holds the byte-level layout: little-endian field codecs, the page
//! header, and the page invariant. `engine` holds the generic record engine:
//! the directory scanner, the space allocator, and the append/read protocol,
//! parameterized by a caller-supplied codec. `catalog` holds the two concrete
//! catalog codecs (table descriptors and column descriptors) layered on the
//! engine.

pub mod catalog;
pub mod engine;
pub mod page;
