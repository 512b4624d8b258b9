use vstd::prelude::*;

verus! {

/// What went wrong while reading or writing a stream.
#[derive(Debug, Clone, Copy, PartialEq, Eq, Structural)]
pub enum Error {
    /// A specific byte was required at `at`, and `found` stood there.
    Expected { expected: u8, found: u8, at: usize },
    /// The byte at `at` starts no value.
    UnexpectedTag { byte: u8, at: usize },
    /// A read at `at` would have gone past the end of the input.
    Truncated { at: usize },
    /// A composite opened at `at` declared `declared` items but held `actual`.
    CountMismatch { declared: u64, actual: u64, at: usize },
    /// The tag at `at` is known, but its payload is not handled by this codec.
    UnsupportedPayload { tag: u8, at: usize },
    /// A buffer of `len` bytes does not fit the 32-bit length field.
    SizeLimit { len: usize },
    /// The text read at `at` is not valid UTF-8.
    InvalidUtf8 { at: usize },
}

/// `at` moved on by `k`, held at the largest offset.
pub open spec fn offset_after(at: usize, k: usize) -> usize {
    if at + k <= usize::MAX {
        (at + k) as usize
    } else {
        usize::MAX
    }
}

impl Error {
    /// The same error with its offset moved on by `k` bytes.
    pub open spec fn shifted(self, k: usize) -> Error {
        match self {
            Error::Expected { expected, found, at } => Error::Expected {
                expected,
                found,
                at: offset_after(at, k),
            },
            Error::UnexpectedTag { byte, at } => Error::UnexpectedTag {
                byte,
                at: offset_after(at, k),
            },
            Error::Truncated { at } => Error::Truncated { at: offset_after(at, k) },
            Error::CountMismatch { declared, actual, at } => Error::CountMismatch {
                declared,
                actual,
                at: offset_after(at, k),
            },
            Error::UnsupportedPayload { tag, at } => Error::UnsupportedPayload {
                tag,
                at: offset_after(at, k),
            },
            Error::SizeLimit { len } => Error::SizeLimit { len },
            Error::InvalidUtf8 { at } => Error::InvalidUtf8 { at: offset_after(at, k) },
        }
    }

    /// Moves the error's offset on by `k` bytes: an offset counted from a
    /// point `k` bytes into the input becomes one counted from its start.
    pub fn shift(self, k: usize) -> (r: Error)
        ensures
            r == self.shifted(k),
    {
        match self {
            Error::Expected { expected, found, at } => Error::Expected {
                expected,
                found,
                at: at.saturating_add(k),
            },
            Error::UnexpectedTag { byte, at } => Error::UnexpectedTag {
                byte,
                at: at.saturating_add(k),
            },
            Error::Truncated { at } => Error::Truncated { at: at.saturating_add(k) },
            Error::CountMismatch { declared, actual, at } => Error::CountMismatch {
                declared,
                actual,
                at: at.saturating_add(k),
            },
            Error::UnsupportedPayload { tag, at } => Error::UnsupportedPayload {
                tag,
                at: at.saturating_add(k),
            },
            Error::SizeLimit { len } => Error::SizeLimit { len },
            Error::InvalidUtf8 { at } => Error::InvalidUtf8 { at: at.saturating_add(k) },
        }
    }
}

} // verus!
