use vstd::prelude::*;

use crate::err::FrameError;

verus! {

/// Number of bytes in a routing identifier.
pub const UID_SIZE: usize = 16;

/// A fixed-width 128-bit opaque routing token.
///
/// The value is never interpreted here; external routing logic uses it as a
/// lookup key.  Construction fails unless exactly 16 bytes are supplied, and
/// the value is immutable once built.
#[derive(Debug)]
pub struct UID {
    bytes: Vec<u8>,
}

impl View for UID {
    type V = Seq<u8>;

    closed spec fn view(&self) -> Seq<u8> {
        self.bytes@
    }
}

impl UID {
    /// A well-formed identifier holds exactly 16 bytes.
    pub open spec fn wf(&self) -> bool {
        self@.len() == UID_SIZE
    }

    /// Builds an identifier from raw bytes; fails when the byte count is
    /// wrong.
    pub fn new(bytes: Vec<u8>) -> (r: Result<UID, FrameError>)
        ensures
            r is Ok <==> bytes@.len() == UID_SIZE,
            r matches Ok(u) ==> u@ == bytes@ && u.wf(),
            r matches Err(e) ==> e == FrameError::MalformedField,
    {
        if bytes.len() == UID_SIZE {
            Ok(UID { bytes })
        } else {
            Err(FrameError::MalformedField)
        }
    }

    /// The identifier's bytes.
    pub fn as_bytes(&self) -> (r: &Vec<u8>)
        ensures
            r@ == self@,
    {
        &self.bytes
    }
}

} // verus!
