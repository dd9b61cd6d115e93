//! A Twitch stream relay daemon's core library.
//!
//! The library holds the daemon's verified logic: the M3U8 playlist and
//! stream-index parsers, the MPEG-TS metadata extractor, quality selection,
//! the segment continuation rule, the chunking and fan-out machinery, and the
//! deduplicating registries (index cache and player pool). Network I/O and the
//! async runtime live outside, in the application shell, which drives these
//! functions with plain values.

pub mod text;
pub mod types;
pub mod select;
pub mod m3u8;
pub mod mpeg_ts;
pub mod stream_ext;
pub mod player;
pub mod options;
pub mod index_cache;
pub mod api;
pub mod player_pool;
pub mod gui;
