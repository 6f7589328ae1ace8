//! A verified session bridge between a WebSocket terminal client and an SSH
//! pseudo-terminal: the wire-frame codec, the control-message grammar, the
//! transport capability interface, and the session state machine.

pub mod codec;
pub mod control;
pub mod transport;
pub mod session;
pub mod laws;

use vstd::prelude::*;

verus! {

/// Width and height of a pseudo-terminal, in character cells.
#[derive(Clone, Copy, Debug, PartialEq, Eq, Structural)]
pub struct PtySize {
    pub cols: u16,
    pub rows: u16,
}

}
