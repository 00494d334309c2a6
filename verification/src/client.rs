//! The mirroring side: the copy of the world that a client keeps from the
//! frames it receives.

pub mod game;
pub mod packet;
pub mod session;
