//! A multiplayer snake game on an 80 x 60 torus: the authoritative
//! simulation, the binary protocol that carries it, and the rules by which
//! server and client act on what they receive.
//!
//! - [`util`]: points, directions and the geometry of the board.
//! - [`packet`]: length-prefixed, typed frames as raw bytes.
//! - [`frame`]: the seven frames as values, with encoder and decoder;
//!   [`frame_lemmas`] shows that each undoes the other.
//! - [`server`]: the world and its tick, and what a server does on each
//!   event of a session.
//! - [`client`]: the copy of the world that a client keeps, and what it does
//!   with each frame; [`sync`] shows that the copy follows the world.
//! - [`game`]: the game for one player.
//! - [`scene`]: what is to be drawn.
//! - [`random`]: the generator behind the placement of snakes and food.
//!
//! Nothing here reads a socket, a clock or a keyboard: callers hand in bytes
//! and seeds and get bytes and decisions back.

pub mod client;
pub mod frame;
pub mod frame_lemmas;
pub mod game;
pub mod packet;
pub mod random;
pub mod scene;
pub mod server;
pub mod sync;
pub mod util;
