//! A compact array of unsigned integers stored at the narrowest of four
//! fixed widths (4, 8, 16 or 32 bits) that holds every element, widening
//! itself when a larger value is written.

mod packed_enum;
mod packed_uints;
pub mod laws;

pub use packed_enum::{fit_mask, PackedEnum, U16_MASK, U32_MASK, U4_MASK, U8_MASK};
pub use packed_uints::{seq_max, PackedUints};
