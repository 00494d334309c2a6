//! The authoritative side: the simulation and the rules of a session.

pub mod game;
pub mod lemmas;
pub mod packet;
pub mod session;
