//! The session observer of a GBM device, and the cursor restore policy it
//! applies on resume.
use vstd::prelude::*;

use crate::device::{paused, restores, resumed, GbmDevice, SurfaceRestore};

verus! {

/// The cursor calls a resume may issue for one output.
#[derive(Clone, Copy, Debug, PartialEq, Eq, Structural)]
pub enum CursorCall {
    /// Set the cursor together with its hot spot.
    WithHotspot,
    /// Set the cursor alone, for drivers without hot spot support.
    Legacy,
}

/// The call to try after `call` reported `succeeded`, if any: any failure of
/// the hot spot call falls back to the legacy call, once.
pub open spec fn cursor_fallback(call: CursorCall, succeeded: bool) -> Option<CursorCall> {
    if !succeeded && call == CursorCall::WithHotspot {
        Some(CursorCall::Legacy)
    } else {
        None
    }
}

/// The calls made, starting with `call`, when they report `results` in turn.
pub open spec fn cursor_calls(call: CursorCall, results: Seq<bool>) -> Seq<CursorCall>
    decreases results.len(),
{
    if results.len() == 0 {
        seq![call]
    } else {
        match cursor_fallback(call, results[0]) {
            Some(next) => seq![call] + cursor_calls(next, results.drop_first()),
            None => seq![call],
        }
    }
}

/// The first cursor call of a restore.
pub fn first_cursor_call() -> (r: CursorCall)
    ensures
        r == CursorCall::WithHotspot,
{
    CursorCall::WithHotspot
}

/// The cursor call to make after `call` reported `succeeded`; `None` when
/// the restore is over, whether the cursor was set or not.
pub fn next_cursor_call(call: CursorCall, succeeded: bool) -> (r: Option<CursorCall>)
    ensures
        r == cursor_fallback(call, succeeded),
{
    match call {
        CursorCall::WithHotspot => if succeeded {
            None
        } else {
            Some(CursorCall::Legacy)
        },
        CursorCall::Legacy => None,
    }
}

/// A restore starting with the hot spot call makes that call alone when it
/// succeeds, and otherwise exactly one legacy call after it, whatever that
/// one reports.
pub proof fn lemma_cursor_fallback(results: Seq<bool>)
    requires
        results.len() >= 2,
    ensures
        cursor_calls(CursorCall::WithHotspot, results) == (if results[0] {
            seq![CursorCall::WithHotspot]
        } else {
            seq![CursorCall::WithHotspot, CursorCall::Legacy]
        }),
{
    reveal_with_fuel(cursor_calls, 3);
    if !results[0] {
        let rest = results.drop_first();
        assert(cursor_calls(CursorCall::Legacy, rest) == seq![CursorCall::Legacy]);
        assert(seq![CursorCall::WithHotspot] + seq![CursorCall::Legacy] =~= seq![
            CursorCall::WithHotspot,
            CursorCall::Legacy,
        ]);
    }
}

/// Session observer of a GBM device. The device layer's own observer is
/// notified first by the caller; this one then brings the outputs back. It
/// acts on the device it was made from only.
pub struct GbmDeviceObserver {
    device: u64,
}

impl GbmDevice {
    pub fn observer(&self) -> (r: GbmDeviceObserver)
        ensures
            r.device() == self@.native,
    {
        GbmDeviceObserver { device: self.native() }
    }
}

impl GbmDeviceObserver {
    /// Raw pointer of the device the observer was made from.
    pub closed spec fn device(&self) -> u64 {
        self.device
    }

    /// The session lost the device.
    pub fn pause(&mut self, device: &mut GbmDevice)
        requires
            old(device)@.wf(),
            old(device)@.native == self.device(),
        ensures
            final(device)@ == paused(old(device)@),
            final(device)@.wf(),
    {
        device.pause();
    }

    /// The session has the device again: stale entries are purged and, per
    /// live output, the flip and cursor to replay are returned. The result
    /// does not depend on how any replay turns out.
    pub fn activate(&mut self, device: &mut GbmDevice) -> (r: Vec<SurfaceRestore>)
        requires
            old(device)@.wf(),
            old(device)@.native == self.device(),
        ensures
            final(device)@ == resumed(old(device)@),
            final(device)@.wf(),
            r@ == restores(old(device)@),
    {
        device.activate()
    }
}

} // verus!
