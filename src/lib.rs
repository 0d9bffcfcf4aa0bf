//! Authoritative state for a small multiplayer game server: the fixed-size
//! wire record, the session bookkeeping of the connection manager and the
//! simulation rules (pursuit, boss cadence, collision and melee damage).

use vstd::prelude::*;

pub mod packet;
pub mod net;
pub mod geometry;
pub mod world;
pub mod roster;
pub mod sim;
pub mod config;
pub mod scene;

pub use packet::{FromBytes, PacketCharInfo, PacketLifelessInfo, ToBytes};

verus! {

pub const ACTION_IDLE: i16 = 0;
pub const ACTION_WALK: i16 = 1;
pub const ACTION_RUN: i16 = 2;
pub const ACTION_ATTACK: i16 = 3;

pub const DIRECTION_LEFT: i16 = 1;
pub const DIRECTION_RIGHT: i16 = 2;
pub const DIRECTION_UP: i16 = 4;
pub const DIRECTION_DOWN: i16 = 8;
pub const DIRECTION_LEFTUP: i16 = 5;
pub const DIRECTION_LEFTDOWN: i16 = 9;
pub const DIRECTION_RIGHTUP: i16 = 6;
pub const DIRECTION_RIGHTDOWN: i16 = 10;
pub const DIRECTIONS: usize = 4;
pub const CHARS: usize = 30;
pub const LIFELESS: usize = 20;
pub const MAXCHARLIFELESS: usize = 5;

} // verus!
