use vstd::prelude::*;

verus! {

/// A fatal decode failure.  "Not enough bytes yet" is never an error: the
/// decoders report it as `Ok(None)` and leave the buffer untouched so the
/// caller can retry once more bytes arrive.
#[derive(Clone, Copy, Debug, PartialEq, Eq, Structural)]
pub enum FrameError {
    /// A field could not be interpreted: a frame length too small to hold the
    /// routing token, a handshake body too small to hold the packed
    /// version/flags field, or an identifier built from the wrong byte count.
    /// The stream framing cannot be trusted beyond this point.
    MalformedField,
    /// The fingerprint computed over a frame's body disagrees with the
    /// checksum the frame declared.  The stream is treated as corrupt; no
    /// resynchronization is attempted.
    ChecksumMismatch,
}

impl FrameError {
    /// A short human-readable description, for the caller's diagnostics.
    pub fn describe(&self) -> (r: &'static str)
        ensures
            self is MalformedField ==> r@ == "malformed field"@,
            self is ChecksumMismatch ==> r@ == "checksum mismatch"@,
    {
        match self {
            FrameError::MalformedField => "malformed field",
            FrameError::ChecksumMismatch => "checksum mismatch",
        }
    }
}

} // verus!
