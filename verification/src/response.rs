//! The response a command earns: a success flag and a message, and its
//! place on the wire.

use vstd::prelude::*;
use vstd::string::StrSliceExecFns;
use crate::codec;

verus! {

/// One command response. Exactly one is written back to the requesting
/// client per received command; responses are never broadcast.
#[derive(Debug, Clone)]
pub struct Response {
    pub success: bool,
    pub message: String,
}

impl Response {
    /// A successful response carrying `message`.
    pub fn success(message: String) -> (r: Response)
        ensures
            r.success,
            r.message@ == message@,
    {
        Response { success: true, message }
    }

    /// A failed response carrying `message`.
    pub fn fail(message: String) -> (r: Response)
        ensures
            !r.success,
            r.message@ == message@,
    {
        Response { success: false, message }
    }

    /// The frame this response occupies on the wire:
    /// `<total-length>:<status>:<message>` and a final newline, the length
    /// counting the bytes of `<status>:<message>`.
    pub fn encode(&self) -> (r: Vec<u8>)
        requires
            vstd::utf8::encode_utf8(self.message@).len() + 4 <= usize::MAX,
        ensures
            r@ == codec::response_frame(self.success, vstd::utf8::encode_utf8(self.message@)),
    {
        let bytes = self.message.as_str().as_bytes_vec();
        codec::encode_response(self.success, bytes.as_slice())
    }
}

} // verus!
