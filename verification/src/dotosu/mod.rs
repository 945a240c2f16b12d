//! The `.osu` beatmap text format.
pub mod helpers;
pub mod metadata;
pub mod general;
pub mod difficulty;
pub mod timing;
pub mod objects;
pub mod colours;
pub mod events;
pub mod osu_file;
pub mod roundtrip;
pub mod objects_roundtrip;
pub mod events_roundtrip;
pub mod events_layout;
pub mod file_roundtrip;
