//! What the capture loop does with each thing the frame source hands it.
use vstd::prelude::*;
use crate::frame::{payload_lines, process_frame, FrameError, FRAME_PREFIX_LEN};
use crate::message::error_offset;
use crate::render::view_lines;

verus! {

/// What the frame source produced.
pub enum CaptureEvent {
    /// A captured link-layer frame.
    Frame(Vec<u8>),
    /// No frame arrived within the poll interval.
    Timeout,
    /// The frame source failed for good.
    Failed,
}

/// What the loop does next.
#[derive(Debug)]
pub enum Action {
    /// Print these lines to standard output, then read on.
    Print(Vec<String>),
    /// Report this error on the diagnostic stream, drop the frame, then read on.
    Report(FrameError),
    /// Read on.
    Continue,
    /// Stop with a failure.
    Stop,
}

/// The lines that a frame gives, or `None` where it is short or does not decode.
pub open spec fn frame_lines(f: Seq<u8>) -> Option<Seq<Seq<char>>> {
    if f.len() < FRAME_PREFIX_LEN {
        None
    } else {
        payload_lines(f.subrange(FRAME_PREFIX_LEN as int, f.len() as int))
    }
}

/// Decides the loop's next step: a frame is decoded and rendered, or reported where
/// it fails; a timeout is no error; any other capture failure stops the loop.
pub fn next_action(event: &CaptureEvent) -> (r: Action)
    ensures
        match event {
            CaptureEvent::Frame(f) => match frame_lines(f@) {
                Some(ls) => r matches Action::Print(v) && view_lines(v@) == ls,
                None => r matches Action::Report(e) && if f@.len() < FRAME_PREFIX_LEN {
                    e == FrameError::Short
                } else {
                    e matches FrameError::Decode(d) && d.offset as int == error_offset(
                        f@.subrange(FRAME_PREFIX_LEN as int, f@.len() as int),
                    )
                },
            },
            CaptureEvent::Timeout => r is Continue,
            CaptureEvent::Failed => r is Stop,
        },
{
    match event {
        CaptureEvent::Frame(f) => match process_frame(f.as_slice()) {
            Ok(lines) => Action::Print(lines),
            Err(e) => Action::Report(e),
        },
        CaptureEvent::Timeout => Action::Continue,
        CaptureEvent::Failed => Action::Stop,
    }
}

} // verus!
