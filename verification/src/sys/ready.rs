use vstd::prelude::*;
use crate::event_imp::Ready;

verus! {

pub const ERROR: usize = 0b00_0100;
pub const HUP: usize = 0b00_1000;
pub const AIO: usize = 0b00_0000;
pub const LIO: usize = 0b10_1000;
pub const PRI: usize = 0b100_1000;

/// The platform readiness kinds beyond readable and writable.
pub const READY_ALL: usize = ERROR | HUP | AIO | LIO | PRI;

/// A readiness set seen with the platform's extra kinds.
#[derive(Clone, Copy, Debug, PartialEq, Eq, Structural)]
pub struct UnixReady(pub Ready);

} // verus!
