//! An osu! beatmap editor's core: the `.osu` text format (reading and writing
//! each section), beatmapset file naming and asset lookup, the mouse-hitbox
//! state machine of the editor's interface, and small decisions of the renderer
//! and the audio clock.
pub mod text;
pub mod float_syntax;
pub mod dotosu;
pub mod files;
pub mod archive;
pub mod exports;
pub mod msaa;
pub mod gui;
pub mod dialogue;
pub mod editor;
pub mod audio;
pub mod audio_cache;
pub mod planar;
pub mod variant_cache;
pub mod geometry;
