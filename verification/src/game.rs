//! The discrete commands a driver can hand to the session: the automatic
//! advance tick, the four piece commands, and the request to quit, which only
//! the driver itself acts on.
use vstd::prelude::*;

verus! {

#[derive(Debug, PartialEq, Eq, Structural, Clone, Copy)]
pub enum Msg {
    Proceed,
    ShiftRgt,
    ShiftLft,
    Clockwise,
    Counterclockwise,
    Exit,
}

} // verus!
