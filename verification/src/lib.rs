//! Verified core of a forensic timeline generator.
//!
//! The library walks a read-only disk image, decodes fixed-layout file-table
//! records into timestamped facts, and aggregates them into a single sorted
//! event timeline.

use vstd::prelude::*;

pub mod disk_image;
pub mod mft_parser;
pub mod report_assets;
pub mod time_codec;
pub mod timeline;

verus! {

/// Errors raised while decoding structures out of a disk image.
#[derive(Clone, Copy, Debug, PartialEq, Eq, Structural)]
pub enum ScanError {
    /// A requested read exceeds the image extent.
    BoundsError,
    /// An entry does not start with the expected magic bytes.
    SignatureMismatch,
    /// A fixed-width field or declared content region does not fit in the
    /// available bytes.
    TruncatedStructure,
    /// A native timestamp does not map to a representable calendar time.
    ConversionError,
}

} // verus!
