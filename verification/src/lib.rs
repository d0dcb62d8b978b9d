//! Inspection and stripping of the vendor trailer that a camera's panorama
//! mode appends after the end of its JPEG files: decoding the trailer's
//! binary layout, validating its magic tags, version and entries, resolving
//! the byte offset where the genuine JPEG payload ends, and producing the
//! truncated, re-terminated output.

pub mod bytes;
pub mod strip;
pub mod trailer;
