//! The frame of a wire message on a WebSocket: one version byte, then the
//! MessagePack body of the message.

use vstd::prelude::*;
use vstd::string::StringExecFns;
use crate::wire::TransportError;

verus! {

/// A frame: the version byte followed by the body.
pub fn frame_message(version: u8, body: &[u8]) -> (r: Vec<u8>)
    ensures
        r@ == seq![version] + body@,
{
    let mut buf: Vec<u8> = Vec::new();
    buf.push(version);
    let mut i: usize = 0;
    while i < body.len()
        invariant
            i <= body@.len(),
            buf@ == seq![version] + body@.take(i as int),
        decreases body.len() - i,
    {
        buf.push(body[i]);
        proof {
            assert(seq![version] + body@.take(i + 1) =~= (seq![version] + body@.take(i as int)).push(body@[i as int]));
        }
        i = i + 1;
    }
    proof {
        assert(body@.take(body@.len() as int) =~= body@);
    }
    buf
}

/// The body of a frame: everything after the version byte; an empty frame is
/// refused as an empty message.
pub fn frame_body(data: &[u8]) -> (r: Result<Vec<u8>, TransportError>)
    ensures
        data@.len() == 0 ==> (r matches Err(TransportError::Receive(m)) && m@ == "empty message"@),
        data@.len() > 0 ==> (r matches Ok(b) && b@ == data@.skip(1)),
{
    if data.len() == 0 {
        return Err(TransportError::Receive(String::from_str("empty message")));
    }
    let mut body: Vec<u8> = Vec::new();
    let mut i: usize = 1;
    while i < data.len()
        invariant
            1 <= i <= data@.len(),
            body@ == data@.subrange(1, i as int),
        decreases data.len() - i,
    {
        body.push(data[i]);
        proof {
            assert(data@.subrange(1, i + 1) =~= data@.subrange(1, i as int).push(data@[i as int]));
        }
        i = i + 1;
    }
    proof {
        assert(data@.subrange(1, data@.len() as int) =~= data@.skip(1));
    }
    Ok(body)
}

/// Taking the body of a frame gives back what was framed.
pub proof fn lemma_frame_roundtrip(version: u8, body: Seq<u8>)
    ensures
        (seq![version] + body).len() > 0,
        (seq![version] + body).skip(1) == body,
{
    assert((seq![version] + body).skip(1) =~= body);
}

} // verus!
