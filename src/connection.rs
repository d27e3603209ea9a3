//! The decisions of a connection's read side, on its buffered bytes: whether
//! a whole frame can be taken, and what a close of the stream means.

use crate::frame::{frame_at, FrameError, RequestFrame};
use vstd::prelude::*;

verus! {

/// Tries to take one frame from the start of `buffer`: the frame and the
/// number of bytes it spans, or `None` while it is incomplete. The frame is
/// only copied out once it is known to be whole.
pub fn parse_frame(buffer: &[u8]) -> (r: Option<(RequestFrame, usize)>)
    ensures
        match frame_at(buffer@, 0) {
            Some((frame, end)) => r matches Some((f, n)) && f@ == frame && n == end,
            None => r is None,
        },
{
    let mut pos: usize = 0;
    match RequestFrame::check(buffer, &mut pos) {
        Ok(()) => {
            let len = pos;
            let mut start: usize = 0;
            match RequestFrame::parse(buffer, &mut start) {
                Ok(frame) => Some((frame, len)),
                Err(_) => None,
            }
        },
        Err(_) => None,
    }
}

/// What the peer closing the stream means: a clean close if nothing is
/// buffered, else a reset in the middle of a frame.
pub fn end_of_stream(buffered: &[u8]) -> (r: Result<(), FrameError>)
    ensures
        buffered@.len() == 0 ==> r is Ok,
        buffered@.len() != 0 ==> r == Err::<(), FrameError>(FrameError::ConnectionReset),
{
    if buffered.len() == 0 {
        Ok(())
    } else {
        Err(FrameError::ConnectionReset)
    }
}

} // verus!
