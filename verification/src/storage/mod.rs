pub mod bmp;
pub mod card;

pub use bmp::{decode_bmp, read_progress, BmpDecoder, BmpError, ReadProgress};
pub use card::{FixedTimeSource, SpiFullDuplex, Timestamp};
