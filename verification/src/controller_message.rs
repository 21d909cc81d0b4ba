//! Messages from an interactive front-end to the simulation.

use crate::vec2::V2;
use vstd::prelude::*;

verus! {

/// One inbound controller message.
#[derive(Clone, Copy, PartialEq, Eq, Structural, Debug)]
pub enum ControllerMessage {
    /// Pause if running, resume if paused.
    TogglePause,
    /// While paused, advance exactly one rendered frame.
    FrameForward,
    /// Install or update a marionette for a particle at an anchor.
    ControlParticle(usize, V2),
    /// Remove the marionette for a particle.
    UncontrolParticle(usize),
}

} // verus!
