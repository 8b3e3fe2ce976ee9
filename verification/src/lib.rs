//! Background-music playlists for a video: rotation rules, random track
//! selection, duration accounting and the subtitle track that names each
//! scheduled piece of music.
//!
//! All times are whole microseconds. A track duration or a target length is a
//! `u64`; a position on the growing timeline is a `u128`, so that adding one
//! more track to a timeline that is still short of its target never overflows.

pub mod names;
pub mod number;
pub mod probe;
pub mod remux;
pub mod rule;
pub mod scheduler;
pub mod script;
pub mod subtitle;
pub mod text;
pub mod time;
