//! A compact image-placeholder codec: a pixel buffer becomes a short base-83
//! string that holds a low-frequency cosine approximation of the image, and
//! such a string becomes a small RGB bitmap again.
//!
//! The integer side of the format (base-83 numerals, the hash layout, input
//! validation, buffer reshaping) is verified here; the floating-point
//! transform is done by `fast_blurhash`.

pub mod base83;
pub mod codec;
pub mod error;
pub mod layout;
pub mod pixels;
pub mod render;
pub mod text;
