use osu_editor::variant_cache::VariantCache;
use osu_editor::planar::{deinterleave_to_planar, interleave_planar};
use osu_editor::audio::{
    buffer_frames_for, choose_stream_range, clamp_nanos, frames_since_origin,
    interpolate_played_frames, music_block, now_ns, voice_block, queue_frames, AudioEngineConfig,
    ConfigRange, OutputFormat,
};
use osu_editor::editor::{
    editor_bookmark_texts, load_sampleset, osu_text_has_version, SamplesetIdx, StateRename,
};
use osu_editor::gui::{Action, HitboxCall, MouseButton, MouseHandler};
use osu_editor::msaa::{normalize_msaa_samples, select_supported_msaa_samples};

#[test]
fn msaa_counts_are_rounded_up_to_known_ones() {
    assert_eq!(normalize_msaa_samples(0), 1);
    assert_eq!(normalize_msaa_samples(1), 1);
    assert_eq!(normalize_msaa_samples(2), 2);
    assert_eq!(normalize_msaa_samples(3), 4);
    assert_eq!(normalize_msaa_samples(4), 4);
    assert_eq!(normalize_msaa_samples(5), 8);
    assert_eq!(normalize_msaa_samples(16), 8);
    assert_eq!(normalize_msaa_samples(u32::MAX), 8);
}

#[test]
fn msaa_normalizing_twice_is_normalizing_once() {
    for n in 0..20u32 {
        let once = normalize_msaa_samples(n);
        assert_eq!(normalize_msaa_samples(once), once);
    }
}

#[test]
fn msaa_selection_falls_back_to_supported_counts() {
    assert_eq!(select_supported_msaa_samples(8, true, true, true), 8);
    assert_eq!(select_supported_msaa_samples(8, true, true, false), 4);
    assert_eq!(select_supported_msaa_samples(8, true, false, false), 2);
    assert_eq!(select_supported_msaa_samples(8, false, false, false), 1);
    assert_eq!(select_supported_msaa_samples(3, true, false, true), 2);
    assert_eq!(select_supported_msaa_samples(1, true, true, true), 1);
    assert_eq!(select_supported_msaa_samples(0, true, true, true), 1);
    assert_eq!(select_supported_msaa_samples(4, false, true, false), 4);
}

fn handler_with(n: usize) -> MouseHandler {
    let mut h = MouseHandler::new();
    for i in 0..n {
        assert_eq!(h.add_hitbox(), i);
    }
    h.handle_focused_change(true);
    h
}

#[test]
fn hover_goes_to_the_topmost_hitbox() {
    let mut h = handler_with(3);
    let calls = h.handle_cursor_move(&vec![true, false, true]);
    assert_eq!(calls, vec![HitboxCall::Hover(2)]);
    assert_eq!(h.current_action(), Action::Hovering { hitbox: 2 });
    let calls = h.handle_cursor_move(&vec![true, false, false]);
    assert_eq!(calls, vec![HitboxCall::StopHover(2), HitboxCall::Hover(0)]);
    let calls = h.handle_cursor_move(&vec![true, false, false]);
    assert_eq!(calls, vec![HitboxCall::Hover(0)]);
    let calls = h.handle_cursor_move(&vec![false, false, false]);
    assert_eq!(calls, vec![HitboxCall::StopHover(0)]);
    assert_eq!(h.current_action(), Action::Idle);
    let calls = h.handle_cursor_move(&vec![false, false, false]);
    assert!(calls.is_empty());
}

#[test]
fn a_drag_holds_its_hitbox_until_its_button_is_released() {
    let mut h = handler_with(2);
    h.handle_cursor_move(&vec![true, false]);
    let calls = h.handle_mouse_input(true, MouseButton::Left, &vec![true, false]);
    assert_eq!(calls, vec![HitboxCall::Drag { hitbox: 0, left: true }]);
    // Moving over another hitbox keeps dragging the first one.
    let calls = h.handle_cursor_move(&vec![false, true]);
    assert_eq!(calls, vec![HitboxCall::Drag { hitbox: 0, left: true }]);
    // The other button does not end the drag.
    let calls = h.handle_mouse_input(false, MouseButton::Right, &vec![false, true]);
    assert!(calls.is_empty());
    assert_eq!(h.current_action(), Action::Dragging { left: true, hitbox: 0 });
    // Releasing the left button ends it and hovers what is under the pointer.
    let calls = h.handle_mouse_input(false, MouseButton::Left, &vec![false, true]);
    assert_eq!(
        calls,
        vec![HitboxCall::StopDrag(0), HitboxCall::StopHover(0), HitboxCall::Hover(1)]
    );
    assert_eq!(h.current_action(), Action::Hovering { hitbox: 1 });
}

#[test]
fn buttons_are_ignored_without_focus_or_hover() {
    let mut h = handler_with(1);
    h.handle_focused_change(false);
    h.handle_cursor_move(&vec![true]);
    assert!(h.handle_mouse_input(true, MouseButton::Left, &vec![true]).is_empty());
    assert_eq!(h.current_action(), Action::Hovering { hitbox: 0 });
    h.handle_focused_change(true);
    assert!(h.handle_mouse_input(true, MouseButton::Other, &vec![true]).is_empty());
    let mut idle = handler_with(1);
    assert!(idle.handle_mouse_input(true, MouseButton::Left, &vec![true]).is_empty());
    assert_eq!(idle.current_action(), Action::Idle);
}

#[test]
fn rename_box_takes_printable_text_up_to_the_limit() {
    let mut r = StateRename::new();
    r.append_current_state_rename_text("ignored");
    assert_eq!(r.current_state_name_input(), "");
    r.begin_current_state_rename();
    assert!(r.is_current_state_rename_active());
    r.append_current_state_rename_text("ab\u{7}c\n");
    assert_eq!(r.current_state_name_input(), "abc");
    r.backspace_current_state_rename();
    assert_eq!(r.current_state_name_input(), "ab");
    r.append_current_state_rename_text(&"x".repeat(60));
    assert_eq!(r.current_state_name_input().len(), 40);
    r.append_current_state_rename_text("y");
    assert_eq!(r.current_state_name_input().len(), 40);
    assert_eq!(r.commit_current_state_rename(), Some(format!("ab{}", "x".repeat(38))));
    assert!(!r.is_current_state_rename_active());
    assert_eq!(r.commit_current_state_rename(), None);
}

#[test]
fn rename_box_may_pass_the_limit_by_one_character() {
    let mut r = StateRename::new();
    r.begin_current_state_rename();
    r.append_current_state_rename_text(&"a".repeat(39));
    r.append_current_state_rename_text("\u{1F600}\u{1F600}");
    let text = r.current_state_name_input();
    assert_eq!(text.len(), 43);
    assert!(text.ends_with('\u{1F600}'));
    r.cancel_current_state_rename();
    assert_eq!(r.current_state_name_input(), "");
    assert!(!r.is_current_state_rename_active());
}

fn sounds(names: &[&str]) -> Vec<(String, usize)> {
    names.iter().enumerate().map(|(i, n)| (n.to_string(), i)).collect()
}

#[test]
fn samplesets_prefer_wav_then_ogg_then_mp3() {
    let loaded = sounds(&[
        "soft-hitclap.mp3",
        "soft-hitclap.ogg",
        "soft-hitfinish.wav",
        "soft-hitnormal.mp3",
        "soft-hitwhistle.ogg",
        "soft-hitwhistle.wav",
    ]);
    let s = load_sampleset("soft", &loaded).unwrap();
    assert_eq!(s, SamplesetIdx { hitclap: 1, hitfinish: 2, hitnormal: 3, hitwhistle: 5 });
    let idx = s.to_hitsound_sampleset_indices();
    assert_eq!((idx.hitclap, idx.hitfinish, idx.hitnormal, idx.hitwhistle), (1, 2, 3, 5));
    assert_eq!(load_sampleset("drum", &loaded), None);
    let partial = sounds(&["normal-hitclap.wav", "normal-hitfinish.wav", "normal-hitnormal.wav"]);
    assert_eq!(load_sampleset("normal", &partial), None);
}

#[test]
fn bookmarks_are_read_from_the_editor_section() {
    let text = "[General]\nMode: 0\n[Editor]\nBookmarks: 100, 2500 ,,x, 300\nDistanceSpacing: 1\n[Metadata]\nVersion: Hard \n";
    assert_eq!(editor_bookmark_texts(text), vec!["100", "2500", "x", "300"]);
    assert!(editor_bookmark_texts("[Editor]\nDistanceSpacing: 1\n").is_empty());
    assert!(editor_bookmark_texts("[Editor]\nBookmarks\n").is_empty());
    assert!(editor_bookmark_texts("no sections").is_empty());
    assert!(osu_text_has_version(text, "Hard"));
    assert!(!osu_text_has_version(text, "Hard "));
    assert!(!osu_text_has_version(text, "Easy"));
    assert!(!osu_text_has_version("[Metadata]\nTitle: x\n", "Hard"));
}

#[test]
fn audio_config_defaults() {
    let c = AudioEngineConfig::default();
    assert_eq!(c.queue_ms, 60);
    assert_eq!(c.preferred_buffer_frames, 128);
    assert!(!c.fix_pitch);
}

#[test]
fn queue_depth_is_at_least_256_frames() {
    assert_eq!(queue_frames(48000, 60), 2880);
    assert_eq!(queue_frames(44100, 60), 2646);
    assert_eq!(queue_frames(48000, 1), 256);
    assert_eq!(queue_frames(u32::MAX, u32::MAX), (u32::MAX as u64) * (u32::MAX as u64) / 1000);
}

#[test]
fn played_frames_move_on_between_callbacks() {
    // 1 ms after a callback that had played 1000 frames, at 48 kHz.
    assert_eq!(interpolate_played_frames(900, true, 1000, 5_000_000, 6_000_000, 48000), 1048);
    // The reported count wins where it is ahead.
    assert_eq!(interpolate_played_frames(2000, true, 1000, 5_000_000, 6_000_000, 48000), 2000);
    // A clock that went back, or a stopped engine, keeps the reported count.
    assert_eq!(interpolate_played_frames(900, true, 1000, 6_000_000, 5_000_000, 48000), 900);
    assert_eq!(interpolate_played_frames(900, false, 1000, 5_000_000, 6_000_000, 48000), 900);
    // Saturation instead of overflow.
    assert_eq!(interpolate_played_frames(0, true, u64::MAX - 1, 0, u64::MAX, 48000), u64::MAX);
    assert_eq!(frames_since_origin(1048, 48), 1000);
    assert_eq!(frames_since_origin(10, 48), 0);
}

#[test]
fn nanosecond_counts_clamp_to_u64() {
    assert_eq!(clamp_nanos(5), 5);
    assert_eq!(clamp_nanos(u64::MAX as u128), u64::MAX);
    assert_eq!(clamp_nanos(u64::MAX as u128 + 1), u64::MAX);
    let start = std::time::Instant::now();
    let a = now_ns(&start);
    let b = now_ns(&start);
    assert!(b >= a);
}

#[test]
fn music_blocks_fill_the_queue_in_steps_of_1024() {
    assert_eq!(music_block(0, 4096, 0, 0, 100_000), Some((0, 1024)));
    assert_eq!(music_block(1024, 1500, 100, 50, 100_000), Some((1074, 476)));
    assert_eq!(music_block(0, 4096, 99_500, 0, 100_000), Some((99_500, 500)));
    assert_eq!(music_block(0, 4096, 100_000, 0, 100_000), None);
    assert_eq!(music_block(4096, 4096, 0, 0, 100_000), None);
    // Before the origin the song starts at its first frame.
    assert_eq!(music_block(0, 10, 5, 100, 100_000), Some((0, 10)));
}

#[test]
fn planar_buffers_interleave_frame_by_frame() {
    let planar = vec![vec![0.1f32, 0.2, 0.3], vec![-1.0f32, -2.0, -3.0]];
    let inter = interleave_planar(&planar, 2).unwrap();
    assert_eq!(inter, vec![0.1f32, -1.0, 0.2, -2.0, 0.3, -3.0]);
    assert_eq!(deinterleave_to_planar(&inter, 2).unwrap(), planar);
    assert!(interleave_planar::<f32>(&vec![], 0).is_none());
    assert!(interleave_planar(&planar, 3).is_none());
    assert!(interleave_planar(&vec![vec![1u8, 2], vec![3u8]], 2).is_none());
}

#[test]
fn interleaved_buffers_split_per_channel() {
    let inter = vec![1i32, 2, 3, 4, 5, 6];
    assert_eq!(deinterleave_to_planar(&inter, 3).unwrap(), vec![vec![1, 4], vec![2, 5], vec![3, 6]]);
    assert_eq!(deinterleave_to_planar(&inter, 1).unwrap(), vec![inter.clone()]);
    assert!(deinterleave_to_planar(&inter, 0).is_none());
    assert!(deinterleave_to_planar(&inter, 4).is_none());
    let again = interleave_planar(&deinterleave_to_planar(&inter, 2).unwrap(), 2).unwrap();
    assert_eq!(again, inter);
    assert_eq!(deinterleave_to_planar::<i32>(&vec![], 2).unwrap(), vec![Vec::<i32>::new(), Vec::new()]);
}

#[test]
fn rendered_variants_are_kept_per_speed_and_pitch_mode() {
    let mut cache: VariantCache<Vec<u32>> = VariantCache::new();
    assert!(cache.get(1.0f64.to_bits(), false).is_none());
    cache.insert(1.0f64.to_bits(), false, Some(vec![1, 2]));
    cache.insert(1.0f64.to_bits(), true, None);
    assert_eq!(cache.get(1.0f64.to_bits(), false), Some(&Some(vec![1, 2])));
    assert_eq!(cache.get(1.0f64.to_bits(), true), Some(&None));
    assert!(cache.get(1.5f64.to_bits(), false).is_none());
    cache.insert(1.0f64.to_bits(), false, Some(vec![3]));
    assert_eq!(cache.get(1.0f64.to_bits(), false), Some(&Some(vec![3])));
    cache.clear();
    assert!(cache.get(1.0f64.to_bits(), false).is_none());
    assert!(cache.get(1.0f64.to_bits(), true).is_none());
}

#[test]
fn hitsound_voices_play_into_the_blocks_they_reach() {
    // Starts inside the block: from its own first frame, at the block's frame 20.
    assert_eq!(voice_block(100, 50, 120, 0, 1000), (0, Some((20, 30))));
    // Behind: catches up to where the block starts, and plays what is left.
    assert_eq!(voice_block(200, 64, 100, 50, 120), (100, Some((0, 20))));
    // Starts after the block: nothing yet.
    assert_eq!(voice_block(0, 10, 10, 0, 5), (0, None));
    // Played out: nothing more.
    assert_eq!(voice_block(500, 32, 400, 100, 100), (100, None));
}

fn range(min: u32, max: u32, channels: u16, format: OutputFormat) -> ConfigRange {
    ConfigRange {
        min_sample_rate: min,
        max_sample_rate: max,
        channels,
        format,
        buffer_frames: Some((64, 1024)),
    }
}

#[test]
fn stream_range_prefers_rate_then_stereo_then_format() {
    assert_eq!(choose_stream_range(&vec![], 44100), None);
    let ranges = vec![
        range(48000, 48000, 2, OutputFormat::F32),
        range(44100, 48000, 6, OutputFormat::I16),
        range(8000, 96000, 2, OutputFormat::I16),
        range(8000, 96000, 2, OutputFormat::F32),
        range(8000, 96000, 2, OutputFormat::F32),
    ];
    assert_eq!(choose_stream_range(&ranges, 44100), Some((3, 44100)));
    assert_eq!(choose_stream_range(&ranges[0..3].to_vec(), 44100), Some((2, 44100)));
    let no_rate = vec![range(48000, 96000, 1, OutputFormat::U16), range(48000, 48000, 2, OutputFormat::Other)];
    assert_eq!(choose_stream_range(&no_rate, 44100), Some((1, 48000)));
}

#[test]
fn buffer_frames_are_clamped_into_the_range() {
    let r = range(44100, 44100, 2, OutputFormat::F32);
    assert_eq!(buffer_frames_for(&r, 32), Some(64));
    assert_eq!(buffer_frames_for(&r, 256), Some(256));
    assert_eq!(buffer_frames_for(&r, 4096), Some(1024));
    let unknown = ConfigRange { buffer_frames: None, ..r };
    assert_eq!(buffer_frames_for(&unknown, 256), None);
}
