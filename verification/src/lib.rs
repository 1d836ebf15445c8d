//! Tracks for a LiveSplit timer in ClassiCube: sending and receiving them
//! over chat, and the timer's line protocol.

pub mod command;
pub mod decode;
pub mod encode;
pub mod fixture;
pub mod geometry;
pub mod protocol;
pub mod text;
