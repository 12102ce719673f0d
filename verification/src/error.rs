//! The decode failure taxonomy.
//!
//! A failure is fatal for the file being decoded and says which stage gave
//! up: an unreadable stream, an unrecognized version prefix, a structurally
//! malformed header line, a recognized but unsupported feature, or a payload
//! whose size disagrees with the declared geometry.  No partial volume is
//! ever returned alongside an error.

use vstd::prelude::*;

verus! {

/// The header line (or token within a line) that a malformed-format failure
/// points at.
#[derive(Clone, Copy, Debug, PartialEq, Eq, Structural)]
pub enum HeaderField {
    /// The line that must read `ASCII` or `BINARY`.
    Encoding,
    /// The `DATASET` line carried an unrecognized dataset keyword.
    Dataset,
    /// The `DIMENSIONS nx ny nz` line.
    Dimensions,
    /// The `ORIGIN ox oy oz` line.
    Origin,
    /// The `SPACING sx sy sz` (or `ASPECT_RATIO`) line.
    Spacing,
    /// The `POINT_DATA n` line.
    PointData,
    /// The `SCALARS name type [numcomp]` line as a whole.
    Scalars,
    /// The mandatory scalar-field name on the `SCALARS` line.
    ScalarName,
    /// The mandatory scalar-type token on the `SCALARS` line.
    ScalarType,
    /// The optional component-count token on the `SCALARS` line.
    ScalarComponents,
    /// The `LOOKUP_TABLE` line.
    LookupTable,
}

/// A feature the format allows but this decoder deliberately does not
/// handle; reported apart from malformed input so a caller can say
/// "unsupported" rather than "corrupt".
#[derive(Clone, Copy, Debug, PartialEq, Eq, Structural)]
pub enum Unsupported {
    /// A declared scalar type other than `unsigned_char`.
    ScalarKind,
    /// A payload in `ASCII` encoding.
    AsciiPayload,
}

/// Why a decode failed.
#[derive(Clone, Copy, Debug, PartialEq, Eq, Structural)]
pub enum VTKparseError {
    /// The byte stream could not be read at all.  The decoder itself works
    /// on in-memory bytes and never produces this; it stands for callers
    /// that read from a file and map their read failure into this taxonomy.
    IoFailure,
    /// The first line does not start with the fixed version prefix.
    UnrecognizedFormat,
    /// A version component after the prefix is not a non-negative integer
    /// in range.
    IntegerParseFailure,
    /// A structurally required line is missing, starts with the wrong
    /// keyword, or holds an un-parseable numeric field.
    MalformedFormat(HeaderField),
    /// Recognized but unsupported input.
    NotImplemented(Unsupported),
    /// The declared point count does not equal the number of payload bytes.
    InconsistentPayloadLength { expected: usize, actual: usize },
    /// The declared point count does not equal the product of the declared
    /// dimensions.  The format leaves this cross-check open; this decoder
    /// enforces it so that a decoded volume always carries a consistent
    /// geometry.
    InconsistentDimensions { declared: usize, nx: u32, ny: u32, nz: u32 },
}

impl VTKparseError {
    /// A short human-readable description of the failure kind.
    pub fn message(&self) -> (r: &'static str)
        ensures
            r == self.spec_message(),
    {
        match self {
            VTKparseError::IoFailure => "stream could not be read",
            VTKparseError::UnrecognizedFormat => "version prefix is not recognized",
            VTKparseError::IntegerParseFailure => "version component is not an integer",
            VTKparseError::MalformedFormat(f) => match f {
                HeaderField::Encoding => "encoding line is not ASCII or BINARY",
                HeaderField::Dataset => "unknown dataset type",
                HeaderField::Dimensions => "does not contain dimensions",
                HeaderField::Origin => "does not contain origin",
                HeaderField::Spacing => "does not contain spacing",
                HeaderField::PointData => "does not contain length",
                HeaderField::Scalars => "does not contain scalar declaration",
                HeaderField::ScalarName => "could not find dataname",
                HeaderField::ScalarType => "could not find datatype",
                HeaderField::ScalarComponents => "component count is not an integer",
                HeaderField::LookupTable => "no lookup table",
            },
            VTKparseError::NotImplemented(u) => match u {
                Unsupported::ScalarKind => "scalar type is not implemented",
                Unsupported::AsciiPayload => "ASCII extraction is not implemented",
            },
            VTKparseError::InconsistentPayloadLength { .. } => {
                "number of elements in binary payload is not correct"
            },
            VTKparseError::InconsistentDimensions { .. } => {
                "point count does not match the dimensions"
            },
        }
    }

    /// What [`Self::message`] returns for each failure kind.
    pub open spec fn spec_message(&self) -> &'static str {
        match self {
            VTKparseError::IoFailure => "stream could not be read",
            VTKparseError::UnrecognizedFormat => "version prefix is not recognized",
            VTKparseError::IntegerParseFailure => "version component is not an integer",
            VTKparseError::MalformedFormat(f) => match f {
                HeaderField::Encoding => "encoding line is not ASCII or BINARY",
                HeaderField::Dataset => "unknown dataset type",
                HeaderField::Dimensions => "does not contain dimensions",
                HeaderField::Origin => "does not contain origin",
                HeaderField::Spacing => "does not contain spacing",
                HeaderField::PointData => "does not contain length",
                HeaderField::Scalars => "does not contain scalar declaration",
                HeaderField::ScalarName => "could not find dataname",
                HeaderField::ScalarType => "could not find datatype",
                HeaderField::ScalarComponents => "component count is not an integer",
                HeaderField::LookupTable => "no lookup table",
            },
            VTKparseError::NotImplemented(u) => match u {
                Unsupported::ScalarKind => "scalar type is not implemented",
                Unsupported::AsciiPayload => "ASCII extraction is not implemented",
            },
            VTKparseError::InconsistentPayloadLength { .. } => {
                "number of elements in binary payload is not correct"
            },
            VTKparseError::InconsistentDimensions { .. } => {
                "point count does not match the dimensions"
            },
        }
    }
}

} // verus!
