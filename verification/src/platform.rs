//! The pure halves of the platform layer: byte layouts, buffer decoding and
//! counter-name parsing that the system calls hand over as plain values.
pub mod windows;
