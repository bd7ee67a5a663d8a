//! The vocabulary of the uploader's health indicator: the colours it can
//! show and the messages the processing pipeline sends to the indicator
//! loop. The indicator itself lives outside the library.

use vstd::prelude::*;

verus! {

/// A colour of the health indicator.
#[derive(Clone, Copy, Debug, PartialEq, Eq, Structural)]
pub enum IconCollor {
    Green,
    Yellow,
    Red,
    Grey,
    Purple,
}

/// One message to the indicator loop.
#[derive(Clone, Copy, Debug, PartialEq, Eq, Structural)]
pub enum Message {
    /// Stop at the user's request.
    Quit,
    /// Stop because the pipeline cannot continue.
    FatalError,
    /// Show this colour.
    SetIcon(IconCollor),
}

} // verus!
