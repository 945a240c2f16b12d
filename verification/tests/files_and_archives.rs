use osu_editor::archive::{create_zip, extract_zip};
use osu_editor::audio_cache::{decode_cached_audio, encode_cached_audio, variant_cache_file_name, CachedAudio};
use osu_editor::dialogue::selection_from_text;
use osu_editor::exports::{export_file_name, export_files, utf8_bytes};
use osu_editor::files::{path_file_name, sanitize_name, AssetsFolder};

#[test]
fn names_are_made_safe_for_windows() {
    assert_eq!(sanitize_name("a<b>c:d\"e/f\\g|h?i*j"), "a_b_c_d_e_f_g_h_i_j");
    assert_eq!(sanitize_name("tab\there"), "tab_here");
    assert_eq!(sanitize_name("  name. . "), "name");
    assert_eq!(sanitize_name("..."), "unnamed");
    assert_eq!(sanitize_name("a.\u{3000}"), "a");
    assert_eq!(sanitize_name("x. \u{3000}.\u{2003}"), "x");
    assert_eq!(sanitize_name(""), "unnamed");
    assert_eq!(sanitize_name("Hard (123).osu"), "Hard (123).osu");
    assert_eq!(sanitize_name("\u{3000}x"), "x");
}

#[test]
fn sanitized_names_are_never_empty_nor_forbidden() {
    for input in ["", " ", "a:b", "\u{1}\u{2}", "x.", "<>", "ok"] {
        let out = sanitize_name(input);
        assert!(!out.is_empty());
        assert!(!out.chars().any(|c| "<>:\"/\\|?*".contains(c) || (c as u32) < 0x20));
    }
}

#[test]
fn path_file_names() {
    let f = |s: &str| path_file_name(&s.chars().collect()).map(|v| v.into_iter().collect::<String>());
    assert_eq!(f("a/b/c.png"), Some("c.png".to_string()));
    assert_eq!(f("c.png"), Some("c.png".to_string()));
    assert_eq!(f("a/b/"), Some("b".to_string()));
    assert_eq!(f("a/./"), Some("a".to_string()));
    assert_eq!(f("a/.."), None);
    assert_eq!(f(""), None);
    assert_eq!(f("/"), None);
}

fn folder() -> AssetsFolder {
    let mut a = AssetsFolder::new();
    a.insert("bg.jpg".to_string(), vec![1]);
    a.insert("sb/Star.PNG".to_string(), vec![2]);
    a.insert("audio.mp3".to_string(), vec![3]);
    a
}

#[test]
fn assets_are_found_exactly_or_loosely() {
    let a = folder();
    assert_eq!(a.get("bg.jpg"), Some(&vec![1]));
    assert_eq!(a.get("  \"bg.jpg\" "), Some(&vec![1]));
    assert_eq!(a.get("./bg.jpg"), Some(&vec![1]));
    assert_eq!(a.get("sb\\Star.PNG"), Some(&vec![2]));
    assert_eq!(a.get("SB/star.png"), Some(&vec![2]));
    assert_eq!(a.get("other/star.png"), Some(&vec![2]));
    assert_eq!(a.get("star.png"), Some(&vec![2]));
    assert_eq!(a.get("missing.png"), None);
}

#[test]
fn inserting_replaces_only_its_own_name() {
    let mut a = folder();
    a.insert("bg.jpg".to_string(), vec![9, 9]);
    assert_eq!(a.get("bg.jpg"), Some(&vec![9, 9]));
    assert_eq!(a.get("audio.mp3"), Some(&vec![3]));
    let all = a.clone_map();
    assert_eq!(all.len(), 3);
    assert!(all.contains(&("bg.jpg".to_string(), vec![9, 9])));
    let copy = a.clone();
    assert_eq!(copy.clone_map(), all);
}

#[test]
fn difficulty_file_names() {
    assert_eq!(export_file_name("Hard", 123), "Hard (123).osu");
    assert_eq!(export_file_name("A/B: insane?", -5), "A_B_ insane_ (-5).osu");
    assert_eq!(utf8_bytes("aé"), vec![b'a', 0xc3, 0xa9]);
}

#[test]
fn exports_hold_the_assets_and_the_difficulties() {
    let a = folder();
    let none = export_files(&a, &vec![]);
    assert_eq!(none.clone_map(), a.clone_map());
}

#[test]
fn zip_archives_hold_what_was_packed() {
    let files = vec![
        ("a.txt".to_string(), b"hello".to_vec()),
        ("dir/b.bin".to_string(), vec![0u8, 1, 2, 255]),
        ("empty".to_string(), vec![]),
    ];
    let bytes = create_zip(files.clone()).unwrap();
    assert_eq!(&bytes[0..2], b"PK");
    let back = extract_zip(bytes).unwrap();
    assert_eq!(back, files);
    assert!(extract_zip(b"not a zip".to_vec()).is_none());
    // The same name twice is refused by the zip writer.
    assert!(create_zip(vec![("x".to_string(), vec![]), ("x".to_string(), vec![])]).is_none());
    assert_eq!(extract_zip(create_zip(vec![]).unwrap()).unwrap(), vec![]);
}

#[test]
fn cached_audio_reads_back() {
    let audio = CachedAudio {
        sample_rate: 48000,
        channels: 2,
        samples: vec![0.5f32.to_bits(), (-1.0f32).to_bits(), 0],
    };
    let bytes = encode_cached_audio(&audio);
    assert_eq!(bytes.len(), 24 + 12);
    assert_eq!(&bytes[0..4], b"OEAU");
    assert_eq!(&bytes[4..8], &1u32.to_le_bytes());
    assert_eq!(&bytes[8..12], &48000u32.to_le_bytes());
    assert_eq!(&bytes[12..16], &2u32.to_le_bytes());
    assert_eq!(&bytes[16..24], &3u64.to_le_bytes());
    assert_eq!(&bytes[24..28], &0.5f32.to_le_bytes());
    let back = decode_cached_audio(&bytes).unwrap();
    assert_eq!(back.sample_rate, 48000);
    assert_eq!(back.channels, 2);
    assert_eq!(back.samples, audio.samples);
}

#[test]
fn cached_audio_is_checked() {
    let audio = CachedAudio { sample_rate: 44100, channels: 1, samples: vec![7, 8] };
    let good = encode_cached_audio(&audio);
    assert!(decode_cached_audio(&good[..23].to_vec()).is_none());
    let mut bad_magic = good.clone();
    bad_magic[0] = b'X';
    assert!(decode_cached_audio(&bad_magic).is_none());
    let mut bad_version = good.clone();
    bad_version[4] = 2;
    assert!(decode_cached_audio(&bad_version).is_none());
    let mut no_channels = good.clone();
    no_channels[12] = 0;
    assert!(decode_cached_audio(&no_channels).is_none());
    let short = good[..good.len() - 1].to_vec();
    assert!(decode_cached_audio(&short).is_none());
    // Bytes after the samples are ignored.
    let mut longer = good.clone();
    longer.push(0);
    assert_eq!(decode_cached_audio(&longer).unwrap().samples, vec![7, 8]);
    let mut huge = good.clone();
    huge[16..24].copy_from_slice(&u64::MAX.to_le_bytes());
    assert!(decode_cached_audio(&huge).is_none());
}

#[test]
fn dialogue_entries_are_chosen_by_number_or_name() {
    let entries = vec!["Easy".to_string(), "Normal".to_string(), "Hard Insane".to_string()];
    assert_eq!(selection_from_text(" 1 ", &entries), Some(1));
    assert_eq!(selection_from_text("+2", &entries), Some(2));
    assert_eq!(selection_from_text("3", &entries), None);
    assert_eq!(selection_from_text("insane", &entries), Some(2));
    assert_eq!(selection_from_text("A", &entries), Some(0));
    assert_eq!(selection_from_text("expert", &entries), None);
    assert_eq!(selection_from_text("   ", &entries), None);
    assert_eq!(selection_from_text("-1", &entries), None);
}

#[test]
fn rendered_variants_are_cached_under_their_speed_bits() {
    let bits = 1.5f64.to_bits();
    assert_eq!(variant_cache_file_name(bits, true), format!("music_speed{}_fix1.bin", bits));
    assert_eq!(variant_cache_file_name(0, false), "music_speed0_fix0.bin");
    assert_eq!(variant_cache_file_name(u64::MAX, false), "music_speed18446744073709551615_fix0.bin");
}

#[test]
fn packed_directory_names_are_left_out_when_unpacked() {
    let files = vec![
        ("maps/".to_string(), vec![]),
        ("song.osu".to_string(), b"osu".to_vec()),
        ("x\\".to_string(), vec![1u8]),
    ];
    let bytes = create_zip(files).unwrap();
    assert_eq!(extract_zip(bytes).unwrap(), vec![("song.osu".to_string(), b"osu".to_vec())]);
}
