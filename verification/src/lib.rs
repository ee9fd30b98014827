//! A write-only encoder for the Minidump crash-dump container: a header, a
//! directory of typed stream descriptors, and the stream payloads that the
//! directory locates by absolute file offset.

pub mod codec;
pub mod format;
pub mod minidump;
pub mod streams;
pub mod utf16;
pub mod window;
