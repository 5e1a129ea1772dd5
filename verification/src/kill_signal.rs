//! The abort signal sent to every task of the edge node.
use vstd::prelude::*;

verus! {

/// Sent to every subscriber when the panic button is pressed or the user
/// signals an abort. All active audio and stream tasks listen for this.
#[derive(Debug, Clone, Copy)]
pub struct KillSignal;

/// Capacity of the kill-signal channel: at most three concurrent tasks
/// (audio stream, TTS playback, LED driver) listen, one spare.
pub const KILL_CHANNEL_CAPACITY: usize = 4;

} // verus!
