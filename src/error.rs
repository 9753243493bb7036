use vstd::prelude::*;

verus! {

/// Why an input could not be decoded.
#[derive(Clone, Copy, Debug, PartialEq, Eq, Structural)]
pub enum ErrorKind {
    /// A varint kept its continuation bit past the fifth byte.
    MalformedVarint,
    /// The input ended inside a field.
    UnexpectedEndOfInput,
    /// A string's bytes are not UTF-8.
    InvalidUtf8,
    /// The leading tag byte names no action.
    UnknownVariant(u8),
    /// A declared string length or element count is over the configured maximum.
    LengthExceeded,
}

/// A decode failure: what went wrong, and the offset in the input of the
/// field that could not be read (the first byte of its varint, string,
/// identifier, optional marker, count or tag).
#[derive(Clone, Copy, Debug, PartialEq, Eq, Structural)]
pub struct DecodeError {
    pub kind: ErrorKind,
    pub offset: usize,
}

/// The failure of kind `kind` for the field at `at`.
pub open spec fn failure(kind: ErrorKind, at: int) -> DecodeError {
    DecodeError { kind, offset: at as usize }
}

impl DecodeError {
    /// The failure of kind `kind` for the field at `offset`.
    pub fn new(kind: ErrorKind, offset: usize) -> (r: DecodeError)
        ensures
            r == failure(kind, offset as int),
    {
        DecodeError { kind, offset }
    }
}

/// Bounds that the transport sets on untrusted lengths before anything is
/// allocated for them.
#[derive(Clone, Copy, Debug, PartialEq, Eq, Structural)]
pub struct DecodeLimits {
    /// Largest accepted byte length of a string.
    pub max_string_len: u32,
    /// Largest accepted element count of a sequence.
    pub max_sequence_len: u32,
}

impl DecodeLimits {
    /// Limits that accept every length the wire format can express.
    pub open spec fn spec_widest() -> DecodeLimits {
        DecodeLimits { max_string_len: u32::MAX, max_sequence_len: u32::MAX }
    }

    /// Limits that accept every length the wire format can express.
    pub fn widest() -> (r: DecodeLimits)
        ensures
            r == DecodeLimits::spec_widest(),
    {
        DecodeLimits { max_string_len: u32::MAX, max_sequence_len: u32::MAX }
    }
}

/// The result of an executable reader agrees with the result of a parser over
/// the views: the same value and end position, or the same error.
pub open spec fn agrees<T: View>(
    r: Result<(T, usize), DecodeError>,
    m: Result<(T::V, int), DecodeError>,
) -> bool {
    match r {
        Ok((v, p)) => m == Ok::<(T::V, int), DecodeError>((v@, p as int)),
        Err(e) => m == Err::<(T::V, int), DecodeError>(e),
    }
}

} // verus!
