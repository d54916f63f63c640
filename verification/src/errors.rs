use vstd::prelude::*;

verus! {

/// Link-level error kinds reported by the codec layer.
#[derive(Clone, Copy, Debug, PartialEq, Eq, Structural)]
pub enum SkylinkError {
    Encoding,
    Decoding,
    CrcMismatch,
    FrameTooLarge,
    InvalidFrame,
}

impl SkylinkError {
    /// The human-readable description that `describe` returns.
    pub open spec fn describe_spec(self) -> Seq<char> {
        match self {
            SkylinkError::Encoding => "encoding failed"@,
            SkylinkError::Decoding => "decoding failed"@,
            SkylinkError::CrcMismatch => "integrity checksum mismatch"@,
            SkylinkError::FrameTooLarge => "frame too large"@,
            SkylinkError::InvalidFrame => "invalid frame"@,
        }
    }

    /// A short human-readable description of the error.
    pub fn describe(&self) -> (r: &'static str)
        ensures
            r@ == self.describe_spec(),
    {
        match self {
            SkylinkError::Encoding => "encoding failed",
            SkylinkError::Decoding => "decoding failed",
            SkylinkError::CrcMismatch => "integrity checksum mismatch",
            SkylinkError::FrameTooLarge => "frame too large",
            SkylinkError::InvalidFrame => "invalid frame",
        }
    }
}

} // verus!
