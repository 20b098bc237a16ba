//! The unit of outbound traffic, and the local echo of one.

use vstd::prelude::*;

verus! {

/// Whether a frame carries a line of text or a chunk of raw bytes.
#[derive(Clone, Copy, Debug, PartialEq, Eq, Structural)]
pub enum FrameKind {
    Text,
    Binary,
}

/// Which activity produced a frame; used only to format local echo output.
#[derive(Clone, Copy, Debug, PartialEq, Eq, Structural)]
pub enum FrameOrigin {
    UserInput,
    PreSuppliedMessage,
    PingFrame,
}

/// One unit of outbound payload waiting to be written to the connection.
/// A frame is immutable once constructed and is consumed exactly once by
/// the dispatcher.
#[derive(Clone, Debug, PartialEq, Eq)]
pub struct FrameData {
    pub payload: Vec<u8>,
    pub kind: FrameKind,
    pub origin: Option<FrameOrigin>,
}

impl FrameData {
    /// A binary frame never has an empty payload: an empty read means
    /// end of input, not a frame.
    pub open spec fn wf(self) -> bool {
        self.kind == FrameKind::Binary ==> self.payload@.len() > 0
    }

    pub fn text(payload: Vec<u8>, origin: FrameOrigin) -> (f: FrameData)
        ensures
            f.kind == FrameKind::Text,
            f.payload@ == payload@,
            f.origin == Some(origin),
            f.wf(),
    {
        FrameData { payload, kind: FrameKind::Text, origin: Some(origin) }
    }

    pub fn binary(payload: Vec<u8>, origin: FrameOrigin) -> (f: FrameData)
        requires
            payload@.len() > 0,
        ensures
            f.kind == FrameKind::Binary,
            f.payload@ == payload@,
            f.origin == Some(origin),
            f.wf(),
    {
        FrameData { payload, kind: FrameKind::Binary, origin: Some(origin) }
    }
}

/// The local echo of an outbound payload: the payload behind a `"> "`
/// prefix (bytes 0x3e, 0x20), one echo line per frame.
pub open spec fn spec_echo_line(payload: Seq<u8>) -> Seq<u8> {
    seq![62u8, 32u8] + payload
}

/// Render the echo line for one outbound payload.
pub fn echo_line(payload: &Vec<u8>) -> (r: Vec<u8>)
    ensures
        r@ == spec_echo_line(payload@),
{
    let mut r: Vec<u8> = Vec::new();
    r.push(62);
    r.push(32);
    let mut i: usize = 0;
    while i < payload.len()
        invariant
            i <= payload.len(),
            r@ == spec_echo_line(payload@.take(i as int)),
        decreases payload.len() - i,
    {
        proof {
            assert(payload@.take(i + 1) =~= payload@.take(i as int).push(payload@[i as int]));
        }
        r.push(payload[i]);
        i += 1;
    }
    proof {
        assert(payload@.take(payload.len() as int) =~= payload@);
    }
    r
}

} // verus!
