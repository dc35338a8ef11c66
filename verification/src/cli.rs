//! Operating modes that can be requested at startup or over the control
//! channel.

use vstd::prelude::*;

verus! {

/// A requested operating mode: follow the natural schedule, or pin the
/// display to a fixed phase.
#[derive(Copy, Clone, Debug, PartialEq, Eq, Structural)]
pub enum ModeArg {
    Auto,
    Day,
    Night,
    Sunset,
}

} // verus!
