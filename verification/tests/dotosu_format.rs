use osu_editor::dotosu::colours::{parse_colour, parse_colours_section, Colour, ColoursSection};
use osu_editor::dotosu::difficulty::{parse_difficulty_section, DifficultySection};
use osu_editor::dotosu::events::{parse_events_section, Command, Event, Parameter};
use osu_editor::dotosu::general::{parse_general_section, GeneralSection};
use osu_editor::dotosu::helpers::{get_key_value_pairs, get_section};
use osu_editor::dotosu::metadata::{
    parse_metadata_fields, parse_prompt_answer, prompt_message, IdField, MetadataSection,
};
use osu_editor::dotosu::objects::{
    parse_hit_sample, parse_objects_section, ComboInfo, HitObject, HitSample, Hitsound, Type,
};
use osu_editor::dotosu::osu_file::{find_osu_sections, parse_osu_body};
use osu_editor::exports::{export_files, utf8_bytes};
use osu_editor::files::AssetsFolder;
use osu_editor::dotosu::timing::{
    parse_timing_section, GreenLine, RedLine, TimingPoint, TimingPointEffect, TimingSection,
};

const SAMPLE: &str = "osu file format v14

[General]
AudioFilename: audio.mp3
AudioLeadIn: 0
PreviewTime: 43210
Countdown: 0
SampleSet: Soft
StackLeniency: 0.7
Mode: 0
LetterboxInBreaks: 1
WidescreenStoryboard: 1

[Editor]
Bookmarks: 1000,2000

[Metadata]
Title:Song
TitleUnicode:Song
Artist:Someone
ArtistUnicode:Someone
Creator:Mapper
Version:Hard
Source:
Tags:tag1 tag2
BeatmapID:123
BeatmapSetID:-1

[Difficulty]
HPDrainRate:5
CircleSize:4
OverallDifficulty:8
ApproachRate:9
SliderMultiplier:1.4
SliderTickRate:1

[Events]
//Background and Video events
0,0,\"bg.jpg\",0,0
//Break Periods
2,10000,15000
Sprite,Foreground,Centre,\"sb/star.png\",320,240
 F,0,1000,2000,0,1
 L,3000,2
  M,0,0,500,100,100,200,200

[TimingPoints]
500,333.33,4,2,1,60,1,0
1500,-50,4,2,0,70,0,1

[Colours]
Combo1 : 255,128,0
Combo2 : 0,0,255

[HitObjects]
256,192,500,5,0,0:0:0:0:
100,100,1000,2,2,B|200:200|300:100,2,140,2|0|8,1:2|0:0|0:0,0:0:0:0:
256,192,3000,12,0,4000,0:0:0:0:
";

#[test]
fn sections_are_found_by_header() {
    assert_eq!(get_section("[A]\n x \n[B]\ny", "A"), Some("x"));
    assert_eq!(get_section("[A]\n x \n[B]\ny", "B"), Some("y"));
    assert_eq!(get_section("[A]\nx", "C"), None);
    assert_eq!(get_section("[A]", "A"), Some(""));
}

#[test]
fn key_value_pairs_are_trimmed_and_checked() {
    let p = get_key_value_pairs("A: 1\nB :two:three\n").unwrap();
    assert_eq!(p.len(), 2);
    assert_eq!(p.get("A"), Some("1".to_string()));
    assert_eq!(p.get("B"), Some("two:three".to_string()));
    assert_eq!(p.get("C"), None);
    // A line without `:` and a repeated key are refused.
    assert!(get_key_value_pairs("A: 1\nnot a pair\n").is_none());
    assert!(get_key_value_pairs("A: 1\nA: 2\n").is_none());
    assert!(get_key_value_pairs("A: 1\n\n").is_none());
    assert_eq!(get_key_value_pairs("").unwrap().len(), 0);
}

#[test]
fn metadata_fields_and_missing_ids() {
    let body = get_section(SAMPLE, "Metadata").unwrap();
    let m = parse_metadata_fields(body).unwrap();
    assert_eq!(m.title, "Song");
    assert_eq!(m.version, "Hard");
    assert_eq!(m.source, "");
    assert_eq!(m.tags, "tag1 tag2");
    assert_eq!(m.beatmap_id, IdField::Given(123));
    assert_eq!(m.beatmapset_id, IdField::Given(-1));
    let missing = parse_metadata_fields(
        "Title:a\nTitleUnicode:a\nArtist:b\nArtistUnicode:b\nCreator:c\nVersion:v\nBeatmapID:x1",
    )
    .unwrap();
    assert_eq!(missing.beatmap_id, IdField::Malformed);
    assert_eq!(missing.beatmapset_id, IdField::Missing);
    assert_eq!(missing.tags, "");
    assert!(parse_metadata_fields("Title:a\nTitleUnicode:a\nArtist:b\nArtistUnicode:b\nCreator:c")
        .is_none());
}

#[test]
fn prompts_for_missing_ids() {
    assert_eq!(
        prompt_message("map.osu", "beatmapID"),
        "beatmap file map.osu is missing beatmapID, type it manually"
    );
    assert_eq!(parse_prompt_answer(" 42 \n"), Some(42));
    assert_eq!(parse_prompt_answer("-7"), Some(-7));
    assert_eq!(parse_prompt_answer("+7"), Some(7));
    assert_eq!(parse_prompt_answer("4 2"), None);
    assert_eq!(parse_prompt_answer(""), None);
    assert_eq!(parse_prompt_answer("9223372036854775808"), None);
    assert_eq!(parse_prompt_answer("-9223372036854775808"), Some(i64::MIN));
}

fn sample_metadata() -> MetadataSection {
    MetadataSection {
        title: "Song".to_string(),
        title_unicode: "Song".to_string(),
        artist: "Someone".to_string(),
        artist_unicode: "Someone".to_string(),
        creator: "Mapper".to_string(),
        version: "Hard".to_string(),
        source: "".to_string(),
        tags: "tag1 tag2".to_string(),
        beatmap_id: 123,
        beatmapset_id: -1,
    }
}

#[test]
fn metadata_is_written_as_key_value_lines() {
    assert_eq!(
        sample_metadata().to_osu_text(),
        "Title:Song\nTitleUnicode:Song\nArtist:Someone\nArtistUnicode:Someone\nCreator:Mapper\nVersion:Hard\nSource:\nTags:tag1 tag2\nBeatmapID:123\nBeatmapSetID:-1\n"
    );
}

#[test]
fn metadata_reads_back_what_it_writes() {
    let m = sample_metadata();
    let f = parse_metadata_fields(&m.to_osu_text()).unwrap();
    assert_eq!(f.title, m.title);
    assert_eq!(f.artist_unicode, m.artist_unicode);
    assert_eq!(f.source, m.source);
    assert_eq!(f.tags, m.tags);
    assert_eq!(f.beatmap_id, IdField::Given(m.beatmap_id));
    assert_eq!(f.beatmapset_id, IdField::Given(m.beatmapset_id));
}

#[test]
fn general_section_is_read_and_written() {
    let body = get_section(SAMPLE, "General").unwrap();
    let g = parse_general_section(body).unwrap();
    assert_eq!(g.audio_filename, "audio.mp3");
    assert_eq!(g.preview_time, 43210);
    assert!(!g.countdown);
    assert_eq!(g.stack_leniency, "0.7");
    assert_eq!(g.mode, 0);
    assert!(g.letterbox_in_breaks);
    assert!(!g.epilepsy_warning);
    assert!(g.widescreen_storyboard);
    assert_eq!(
        g.to_osu_text(),
        "AudioFilename:audio.mp3\nAudioLeadIn:0\nPreviewTime:43210\nCountdown:0\nSampleSet:Soft\nStackLeniency:0.7\nMode:0\nLetterboxInBreaks:1\nEpilepsyWarning:0\nWidescreenStoryboard:1\n"
    );
    let back = parse_general_section(&g.to_osu_text()).unwrap();
    assert_eq!(back, g);
    // Required keys and numbers are checked.
    assert!(parse_general_section("AudioFilename: a\nAudioLeadIn: 0\nPreviewTime: x\nCountdown: 0\nSampleSet: S\nStackLeniency: 1\nMode: 0").is_none());
    assert!(parse_general_section("AudioFilename: a\nAudioLeadIn: 0\nPreviewTime: 1\nCountdown: 300\nSampleSet: S\nStackLeniency: 1\nMode: 0").is_none());
    assert!(parse_general_section("AudioFilename: a\nAudioLeadIn: 0\nPreviewTime: 1\nCountdown: 0\nSampleSet: S\nStackLeniency: 1").is_none());
    assert!(parse_general_section("AudioFilename: a\nAudioLeadIn: 0\nPreviewTime: 1\nCountdown: 0\nSampleSet: S\nStackLeniency: 1\nMode: 0\nEpilepsyWarning: no").is_none());
    let minimal = GeneralSection {
        audio_filename: "a".to_string(),
        audio_lead_in: "0".to_string(),
        preview_time: -1,
        countdown: true,
        sample_set: "S".to_string(),
        stack_leniency: "1".to_string(),
        mode: 3,
        letterbox_in_breaks: false,
        epilepsy_warning: true,
        widescreen_storyboard: false,
    };
    assert_eq!(parse_general_section(&minimal.to_osu_text()).unwrap(), minimal);
}

#[test]
fn difficulty_section_is_read_and_written() {
    let body = get_section(SAMPLE, "Difficulty").unwrap();
    let d = parse_difficulty_section(body).unwrap();
    assert_eq!(
        d,
        DifficultySection {
            hp: "5".to_string(),
            cs: "4".to_string(),
            od: "8".to_string(),
            ar: "9".to_string(),
            slider_multiplier: "1.4".to_string(),
            slider_tick_rate: "1".to_string(),
        }
    );
    assert_eq!(
        d.to_osu_text(),
        "HPDrainRate:5\nCircleSize:4\nOverallDifficulty:8\nApproachRate:9\nSliderMultiplier:1.4\nSliderTickRate:1\n"
    );
    assert_eq!(parse_difficulty_section(&d.to_osu_text()).unwrap(), d);
    assert!(parse_difficulty_section("HPDrainRate:5\nCircleSize:4").is_none());
}

#[test]
fn timing_points_are_red_or_green_lines() {
    let body = get_section(SAMPLE, "TimingPoints").unwrap();
    let t = parse_timing_section(body).unwrap();
    assert_eq!(t.timing_points.len(), 2);
    assert_eq!(
        t.timing_points[0],
        TimingPoint::RedLine(RedLine {
            time: "500".to_string(),
            beat_length: "333.33".to_string(),
            meter: 4,
            sample_set: 2,
            sample_index: 1,
            volume: 60,
            effects: TimingPointEffect { kiai_mode: false, omit_first_barline: false },
        })
    );
    assert_eq!(
        t.timing_points[1],
        TimingPoint::GreenLine(GreenLine {
            time: "1500".to_string(),
            beat_length: "-50".to_string(),
            sample_set: 2,
            sample_index: 0,
            volume: 70,
            effects: TimingPointEffect { kiai_mode: true, omit_first_barline: false },
        })
    );
    assert_eq!(t.to_osu_text(), "500,333.33,4,2,1,60,1,0\n1500,-50,4,2,0,70,0,1\n");
    assert_eq!(parse_timing_section(&t.to_osu_text()).unwrap(), t);
    // Too few fields, a volume out of `i8`, a bad effect.
    assert!(parse_timing_section("500,333,4,2,1,60,1").is_none());
    assert!(parse_timing_section("500,333,4,2,1,200,1,0").is_none());
    assert!(parse_timing_section("500,333,4,2,1,60,1,x").is_none());
    assert_eq!(parse_timing_section("\n  \n").unwrap(), TimingSection { timing_points: vec![] });
}

#[test]
fn timing_effect_bits() {
    let e = TimingPointEffect::from_int(9);
    assert!(e.kiai_mode && e.omit_first_barline);
    assert_eq!(e.to_int(), 9);
    let e = TimingPointEffect::from_int(8 + 2);
    assert!(!e.kiai_mode && e.omit_first_barline);
    assert_eq!(e.to_int(), 8);
    assert_eq!(TimingPointEffect::from_int(0).to_int(), 0);
    assert_eq!(TimingPointEffect::from_int(1).to_int(), 1);
}

#[test]
fn hit_object_type_and_hitsound_bits() {
    let t = Type::from_bits(5).unwrap();
    assert!(t.circle && !t.slider && !t.spinner && !t.mania_hold);
    assert!(t.combo_info.new_combo);
    assert_eq!(t.combo_info.color_skip, 0);
    assert_eq!(t.to_bits(), 5);
    let t = Type::from_bits(2 + 4 + 0b0110000).unwrap();
    assert!(t.slider && t.combo_info.new_combo);
    assert_eq!(t.combo_info.color_skip, 3);
    assert_eq!(t.to_bits(), 0b0110110);
    assert_eq!(Type::from_bits(12).unwrap().to_bits(), 12);
    assert!(Type::from_bits(128).unwrap().mania_hold);
    // No kind bit, or two of them, is refused.
    assert!(Type::from_bits(0).is_none());
    assert!(Type::from_bits(3).is_none());
    let h = Hitsound::from_bits(2 | 8);
    assert!(!h.normal && h.whistle && !h.finish && h.clap);
    assert_eq!(h.to_bits(), 10);
    assert_eq!(Hitsound::from_bits(0xff).to_bits(), 15);
    let _ = ComboInfo { new_combo: false, color_skip: 0 };
}

#[test]
fn hit_samples_are_read_and_written() {
    let hs = parse_hit_sample("1:2:3:40:hit.wav").unwrap();
    assert_eq!(
        hs,
        HitSample { normal_set: 1, addition_set: 2, index: 3, volume: 40, filename: "hit.wav".to_string() }
    );
    assert_eq!(hs.to_osu_text(), "1:2:3:40:hit.wav");
    let hs = parse_hit_sample(" 0 : 0 : 0 : 0 ").unwrap();
    assert_eq!(hs.filename, "");
    assert_eq!(hs.to_osu_text(), "0:0:0:0:");
    assert_eq!(parse_hit_sample(&hs.to_osu_text()).unwrap(), hs);
    assert!(parse_hit_sample("1:2:3").is_none());
    assert!(parse_hit_sample("1:2:x:4").is_none());
}

#[test]
fn hit_objects_are_read_and_written() {
    let body = get_section(SAMPLE, "HitObjects").unwrap();
    let o = parse_objects_section(body).unwrap();
    assert_eq!(o.objects.len(), 3);
    match &o.objects[0] {
        HitObject::Circle(c) => {
            assert_eq!((c.pos.x.as_str(), c.pos.y.as_str(), c.time.as_str()), ("256", "192", "500"));
            assert!(c.combo_info.new_combo);
            assert_eq!(c.hitsample.filename, "");
        }
        _ => panic!("expected a circle"),
    }
    match &o.objects[1] {
        HitObject::Slider(s) => {
            assert_eq!(s.curve_type, "B");
            assert_eq!(s.curve_points.len(), 2);
            assert_eq!(s.curve_points[1].x, "300");
            assert_eq!(s.slides, 2);
            assert_eq!(s.length_pixels, "140");
            assert_eq!(s.edge_sounds.len(), 3);
            assert!(s.edge_sounds[0].whistle && s.edge_sounds[2].clap);
            assert_eq!(s.edge_sets.len(), 3);
            assert_eq!((s.edge_sets[0].normal_set, s.edge_sets[0].addition_set), (1, 2));
            assert!(s.hitsound.whistle);
        }
        _ => panic!("expected a slider"),
    }
    match &o.objects[2] {
        HitObject::Spinner(s) => {
            assert_eq!(s.end_time, "4000");
            assert!(s.combo_info.new_combo);
        }
        _ => panic!("expected a spinner"),
    }
    let text = o.to_osu_text();
    assert_eq!(parse_objects_section(&text).unwrap(), o);
    assert!(parse_objects_section("256,192,500").is_none());
    assert!(parse_objects_section("256,192,500,0,0").is_none());
}

#[test]
fn colours_are_the_run_of_combo_keys() {
    let body = get_section(SAMPLE, "Colours").unwrap();
    let c = parse_colours_section(body).unwrap();
    assert_eq!(
        c,
        ColoursSection {
            colors: vec![
                Colour { r: "255".to_string(), g: "128".to_string(), b: "0".to_string() },
                Colour { r: "0".to_string(), g: "0".to_string(), b: "255".to_string() },
            ]
        }
    );
    assert_eq!(c.to_osu_text(), "Combo1 : 255,128,0\nCombo2 : 0,0,255\n");
    assert_eq!(parse_colours_section(&c.to_osu_text()).unwrap(), c);
    // The run stops at the first missing number.
    let gap = parse_colours_section("Combo1: 1,2,3\nCombo3: 4,5,6").unwrap();
    assert_eq!(gap.colors.len(), 1);
    assert!(parse_colours_section("Combo1: 1,2").is_none());
    assert_eq!(parse_colours_section("").unwrap().colors.len(), 0);
    assert_eq!(parse_colour("1, 2 ,3,4").unwrap().g, "2");
    assert!(parse_colour("1,2").is_none());
}

#[test]
fn events_nest_commands_under_sprites() {
    let body = get_section(SAMPLE, "Events").unwrap();
    let e = parse_events_section(body).unwrap();
    assert_eq!(e.events.len(), 3);
    match &e.events[0] {
        Event::Background(b) => {
            assert_eq!(b.file_path, "\"bg.jpg\"");
            assert_eq!((b.start_time.as_str(), b.x.as_str(), b.y.as_str()), ("0", "0", "0"));
        }
        _ => panic!("expected a background"),
    }
    match &e.events[1] {
        Event::Break(b) => assert_eq!((b.start_time.as_str(), b.end_time.as_str()), ("10000", "15000")),
        _ => panic!("expected a break"),
    }
    match &e.events[2] {
        Event::Sprite(s) => {
            assert_eq!(s.layer, "Foreground");
            assert_eq!(s.commands.len(), 2);
            match &s.commands[1] {
                Command::LoopCommand(l) => {
                    assert_eq!(l.loop_count, 2);
                    assert_eq!(l.inner_commands.len(), 1);
                    match &l.inner_commands[0] {
                        Command::MoveCommand(m) => assert_eq!(m.end_y, "200"),
                        _ => panic!("expected a move"),
                    }
                }
                _ => panic!("expected a loop"),
            }
            assert_eq!(
                s.commands[0].to_string(1),
                "_F,0,1000,2000,0,1\n"
            );
        }
        _ => panic!("expected a sprite"),
    }
    assert_eq!(
        e.to_osu_text(),
        "Background,0,\"bg.jpg\",0,0\nBreak,10000,15000\nSprite,Foreground,Centre,\"sb/star.png\",320,240\n_F,0,1000,2000,0,1\n_L,3000,2\n__M,0,0,500,100,100,200,200\n"
    );
}

#[test]
fn events_without_backgrounds_read_back() {
    let text = "Video,-200,\"intro.mp4\",0,0\nSprite,Background,Centre,\"sb/a.png\",320,240\n\
_L,1000,3\n__F,0,0,500,0,1\n__T,HitSoundClap,0,400\n___C,0,0,100,255,128,0,255,128,0\n_P,0,0,0,A\n\
Break,5000,9000\nAnimation,Foreground,TopLeft,\"sb/b.png\",0,0,4,80,LoopOnce\n_MX,1,0,200,10,20\n";
    let first = parse_events_section(text).unwrap();
    assert_eq!(first.events.len(), 4);
    let written = first.to_osu_text();
    assert_eq!(written, text);
    let again = parse_events_section(&written).unwrap();
    assert_eq!(again, first);
}

#[test]
fn event_lines_are_checked() {
    assert!(parse_events_section("0,0").is_none());
    assert!(parse_events_section("3,100,200").is_none());
    // Commands before the first event belong to no event and are dropped.
    assert!(parse_events_section(" F,0,0,1,0,1").unwrap().events.is_empty());
    let e = parse_events_section("Sprite,Background,TopLeft,\"a.png\",0,0\n P,0,0,1,H // flip").unwrap();
    match &e.events[0] {
        Event::Sprite(s) => match &s.commands[0] {
            Command::ParameterCommand(p) => assert_eq!(p.parameter, Parameter::FlipH),
            _ => panic!("expected a parameter command"),
        },
        _ => panic!("expected a sprite"),
    }
}

#[test]
fn a_whole_file_is_read_and_written() {
    let sections = find_osu_sections(SAMPLE.as_bytes()).unwrap();
    assert_eq!(sections.difficulty.lines().count(), 6);
    let m = sample_metadata();
    let f = parse_osu_body(&sections, m).unwrap();
    assert_eq!(f.metadata.version, "Hard");
    assert_eq!(f.general.audio_filename, "audio.mp3");
    assert_eq!(f.objects.objects.len(), 3);
    let text = f.to_osu_text();
    assert!(text.starts_with("osu file format v14\n\n[General]\nAudioFilename:audio.mp3\n"));
    let again = find_osu_sections(text.as_bytes()).unwrap();
    assert_eq!(parse_difficulty_section(&again.difficulty).unwrap(), f.difficulty);
    assert_eq!(parse_general_section(&again.general).unwrap(), f.general);
    assert_eq!(parse_timing_section(&again.timing).unwrap(), f.timing);
    assert_eq!(parse_colours_section(&again.colours).unwrap(), f.colours);
    assert_eq!(parse_objects_section(&again.objects).unwrap(), f.objects);
    let meta = parse_metadata_fields(&again.metadata).unwrap();
    assert_eq!(meta.beatmap_id, IdField::Given(123));
    // A background is written as `Background,...`, a name the reader does not
    // take (it reads backgrounds from type `0`), so the written events do not
    // read back.
    assert!(again.events.starts_with("Background,0,\"bg.jpg\",0,0"));
    assert!(parse_events_section(&again.events).is_none());
    assert!(parse_osu_body(&again, sample_metadata()).is_none());
    // Not UTF-8, or a section missing.
    assert!(find_osu_sections(&[0xff, 0xfe]).is_none());
    assert!(find_osu_sections(b"[General]\nA:1\n").is_none());
}

#[test]
fn a_file_without_backgrounds_reads_back_as_written() {
    let without_background = SAMPLE.replace("0,0,\"bg.jpg\",0,0\n", "1,-100,\"intro.mp4\",0,0\n");
    let sections = find_osu_sections(without_background.as_bytes()).unwrap();
    let f = parse_osu_body(&sections, sample_metadata()).unwrap();
    assert_eq!(f.events.events.len(), 3);
    let text = f.to_osu_text();
    let again = find_osu_sections(text.as_bytes()).unwrap();
    let meta = parse_metadata_fields(&again.metadata).unwrap();
    assert_eq!(meta.beatmap_id, IdField::Given(123));
    let read_back = parse_osu_body(&again, sample_metadata()).unwrap();
    assert_eq!(read_back, f);
    assert_eq!(read_back.to_osu_text(), text);
}

#[test]
fn an_export_holds_each_difficulty_under_its_name() {
    let sections = find_osu_sections(SAMPLE.as_bytes()).unwrap();
    let f = parse_osu_body(&sections, sample_metadata()).unwrap();
    let text = f.to_osu_text();
    let mut assets = AssetsFolder::new();
    assets.insert("bg.jpg".to_string(), vec![1, 2, 3]);
    assets.insert("Hard (123).osu".to_string(), vec![0]);
    let export = export_files(&assets, &vec![f]);
    assert_eq!(export.get("bg.jpg"), Some(&vec![1, 2, 3]));
    assert_eq!(export.get("Hard (123).osu"), Some(&utf8_bytes(&text)));
    assert_eq!(export.get("Hard (123).osu").unwrap(), &text.into_bytes());
    assert_eq!(export.clone_map().len(), 2);
}
