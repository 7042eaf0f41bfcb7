//! Non-cryptographic integrity primitives: the xxHash32 and xxHash64 digest
//! algorithms and table-driven 16-, 32- and 64-bit cyclic-redundancy-code
//! engines.
//!
//! Each algorithm comes in two shapes: a one-shot function over a full byte
//! slice, and a streaming digester that accepts arbitrary fragments and
//! returns a digest bit-identical to the one-shot result on the
//! concatenation of all fragments.

pub mod bits32;
pub mod bits64;
pub mod crc16;
pub mod crc32;
pub mod crc64;
pub mod hints;
pub mod le_bytes;
pub mod reflect;

pub use bits32::{xxhash32_reference, XXHash32};
pub use bits64::{xxhash64_reference, XXHash64};
pub use crc16::{Crc16, Crc16Params, CRCTableConcrete};
pub use crc32::{Crc32, Crc32Params, Crc32Table};
pub use crc64::{Crc64, Crc64Params, Crc64Table};
pub use hints::{hint_likely, hint_unlikely, item_per_cache_line, prefetch_buffer};
pub use le_bytes::{read_u32_le, read_u64_le};
