//! The display resource protocol.
//!
//! A `DisplayScheme` owns the display and serves the five operations of the
//! protocol. `open`, `dup`, `fsync` and `close` always succeed with the
//! fixed handle value and touch no pixel; `write` applies every drawing
//! event the terminal emulation emitted for the written bytes, in order,
//! and always consumes the whole buffer.
//!
//! The terminal emulation itself (ransid) runs at the driver boundary, not
//! here: its scroll arithmetic can overflow on an escape sequence that asks
//! to scroll by more rows than the scroll region holds, so a call into it
//! may abort the process, which no function of this library is allowed to
//! do. The boundary feeds the bytes to the terminal and hands the resulting
//! event list to `write`, whose effect on the screen is then exact for
//! every possible list.

use vstd::prelude::*;

use crate::display::Display;
use crate::event::{apply_events, events_op, screen_of, DrawEvent};

verus! {

/// The state behind the display resource: the double-buffered display the
/// terminal emulation draws on.
pub struct DisplayScheme {
    pub display: Display,
}

impl DisplayScheme {
    /// A scheme serving `display`.
    pub fn new(display: Display) -> (s: DisplayScheme)
        ensures
            s.display == display,
    {
        DisplayScheme { display }
    }

    /// Open the single anonymous resource: always succeeds with handle 0.
    pub fn open(&self, _path: &[u8], _flags: usize) -> (r: usize)
        ensures
            r == 0,
    {
        0
    }

    /// Duplicate a handle: no per-handle state exists, so this always
    /// succeeds with the same fixed handle value.
    pub fn dup(&self, _id: usize) -> (r: usize)
        ensures
            r == 0,
    {
        0
    }

    /// Flush: every `write` already reached the onscreen buffer, so this is
    /// a no-op success.
    pub fn fsync(&self, _id: usize) -> (r: usize)
        ensures
            r == 0,
    {
        0
    }

    /// Close a handle: nothing to release, always succeeds.
    pub fn close(&self, _id: usize) -> (r: usize)
        ensures
            r == 0,
    {
        0
    }

    /// Serve a write of `buf`: apply `events`, the drawing events the
    /// terminal emulation emitted while consuming `buf`, in emission order.
    /// The screen becomes exactly the in-order application of the events,
    /// and the returned count is the whole buffer's length.
    pub fn write(&mut self, _id: usize, buf: &[u8], events: &Vec<DrawEvent>) -> (r: usize)
        requires
            old(self).display.wf(),
        ensures
            r == buf@.len(),
            final(self).display.wf(),
            final(self).display.width == old(self).display.width,
            final(self).display.height == old(self).display.height,
            screen_of(final(self).display) == events_op(
                screen_of(old(self).display),
                old(self).display.width as int,
                old(self).display.height as int,
                events@,
            ),
    {
        apply_events(&mut self.display, events);
        buf.len()
    }
}

} // verus!
