use osu_editor::dotosu::colours::parse_colour;
use osu_editor::dotosu::difficulty::parse_difficulty_section;
use osu_editor::dotosu::events::parse_events_section;
use osu_editor::dotosu::general::parse_general_section;
use osu_editor::dotosu::objects::parse_objects_section;
use osu_editor::dotosu::timing::parse_timing_section;
use osu_editor::float_syntax::is_float_text;

fn accepted(s: &str) -> bool {
    is_float_text(&s.chars().collect())
}

#[test]
fn number_text_agrees_with_std() {
    let cases = [
        "0", "1", "-1", "+1", "0.7", "-0.5", ".5", "5.", "1e5", "1E5", "1e+5", "1e-5", "-1.5e10",
        "1.e3", ".5e-2", "inf", "-inf", "+inf", "INF", "Infinity", "-infinity", "NaN", "nan",
        "+NaN", "", " ", "1 ", " 1", ".", "-", "+", "e5", "1e", "1e+", "1.2.3", "1e5e5", "abc",
        "1,5", "0x10", "1_000", "--1", "+-1", "infin", "nana", "in", "1e5.0", "٣", "1.5f",
        "00012", "1e0000000000000000000000009", "123456789012345678901234567890",
    ];
    for c in cases.iter() {
        assert_eq!(accepted(c), c.parse::<f64>().is_ok(), "case {:?}", c);
    }
}

#[test]
fn timing_line_with_a_word_for_a_number_is_refused() {
    assert!(parse_timing_section("0,500,4,2,0,100,1,0").is_some());
    assert!(parse_timing_section("abc,500,4,2,0,100,1,0").is_none());
    assert!(parse_timing_section("0,fast,4,2,0,100,1,0").is_none());
}

#[test]
fn event_line_with_a_word_for_a_number_is_refused() {
    assert!(parse_events_section("Sprite,Foreground,Centre,\"a.png\",320,240\n F,0,0,1000,0,1").is_some());
    assert!(parse_events_section("Sprite,Foreground,Centre,\"a.png\",left,240").is_none());
    assert!(parse_events_section("Sprite,Foreground,Centre,\"a.png\",320,240\n F,0,soon,1000,0,1").is_none());
    assert!(parse_events_section("Sprite,Foreground,Centre,\"a.png\",320,240\n F,0,0,1000,0,x").is_none());
    assert!(parse_events_section("2,100,later").is_none());
    assert!(parse_events_section("0,0,\"bg.jpg\",0,0").is_some());
    assert!(parse_events_section("0,zero,\"bg.jpg\",0,0").is_none());
}

#[test]
fn hit_object_with_a_word_for_a_number_is_refused() {
    assert!(parse_objects_section("256,192,1000,1,0,0:0:0:0:").is_some());
    assert!(parse_objects_section("mid,192,1000,1,0,0:0:0:0:").is_none());
    assert!(parse_objects_section("256,192,1000,2,0,B|300:x,1,100").is_none());
    assert!(parse_objects_section("256,192,1000,2,0,B|300:200,1,long").is_none());
    assert!(parse_objects_section("256,192,1000,2,0,B|300:200,1,100").is_some());
    assert!(parse_objects_section("256,192,1000,12,0,end").is_none());
}

#[test]
fn difficulty_colour_and_general_numbers_are_checked() {
    let d = "HPDrainRate:5\nCircleSize:4\nOverallDifficulty:8\nApproachRate:9\nSliderMultiplier:1.4\nSliderTickRate:1";
    assert!(parse_difficulty_section(d).is_some());
    assert!(parse_difficulty_section(&d.replace("CircleSize:4", "CircleSize:four")).is_none());
    assert!(parse_colour("255,128,0").is_some());
    assert!(parse_colour("255,orange,0").is_none());
    let g = "AudioFilename: a\nAudioLeadIn: 0\nPreviewTime: 1\nCountdown: 0\nSampleSet: S\nStackLeniency: 0.7\nMode: 0";
    assert!(parse_general_section(g).is_some());
    assert!(parse_general_section(&g.replace("StackLeniency: 0.7", "StackLeniency: high")).is_none());
    assert!(parse_general_section(&g.replace("AudioLeadIn: 0", "AudioLeadIn: none")).is_none());
}
