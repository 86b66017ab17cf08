pub mod drawing;
pub mod framebuffer;

pub use drawing::{Font, ScreenElement, TextAlign};
pub use framebuffer::{BinaryColor, EpdFramebuffer, Pixel};
