use bar_status::parser::{parse_sinks, SinkParser};
use bar_status::sink::{Sink, VolumeIcon, GLYPH_MUTED, GLYPH_VOLUME_DOWN, GLYPH_VOLUME_OFF, GLYPH_VOLUME_UP};
use bar_status::status::{
    default_sink_name, is_sink_event, percent_string, select_sink, sink_status, status_line,
};

fn sink(number: i32, name: &str, is_muted: bool, volume_percent: i32) -> Sink {
    Sink {
        number,
        name: name.to_string(),
        description: String::new(),
        is_muted,
        volume_percent,
    }
}

fn two_sink_listing() -> String {
    let mut s = String::new();
    s.push_str("Sink #0\n");
    s.push_str("\tState: SUSPENDED\n");
    s.push_str("\tName: alsa_output.0\n");
    s.push_str("\tDescription: Built-in Audio\n");
    s.push_str("\tMute: no\n");
    s.push_str("\tVolume: front-left: 29491 /  45% / -20.81 dB,   front-right: 29491 /  45% / -20.81 dB\n");
    s.push_str("\n");
    s.push_str("Sink #1\n");
    s.push_str("\tName: alsa_output.1\n");
    s.push_str("\tDescription: USB Headset\n");
    s.push_str("\tMute: yes\n");
    s.push_str("\tVolume: front-left: 52429 /  80% / -5.81 dB\n");
    s
}

#[test]
fn parses_two_blocks_in_order() {
    let sinks = parse_sinks(&two_sink_listing());
    assert_eq!(sinks.len(), 2);
    assert_eq!(sinks[0].number, 0);
    assert_eq!(sinks[0].name, "alsa_output.0");
    assert_eq!(sinks[0].description, "Built-in Audio");
    assert!(!sinks[0].is_muted);
    assert_eq!(sinks[0].volume_percent, 45);
    assert_eq!(sinks[1].number, 1);
    assert_eq!(sinks[1].name, "alsa_output.1");
    assert_eq!(sinks[1].description, "USB Headset");
    assert!(sinks[1].is_muted);
    assert_eq!(sinks[1].volume_percent, 80);
}

#[test]
fn n_valid_blocks_give_n_records() {
    let mut s = String::new();
    for n in 0..5 {
        s.push_str(&format!("Sink #{}\n\tName: sink{}\n\tVolume: {}%\n", n * 3, n, n * 10));
    }
    let sinks = parse_sinks(&s);
    assert_eq!(sinks.len(), 5);
    for n in 0..5 {
        assert_eq!(sinks[n].number, (n * 3) as i32);
        assert_eq!(sinks[n].name, format!("sink{}", n));
        assert_eq!(sinks[n].volume_percent, (n * 10) as i32);
    }
}

#[test]
fn nameless_block_is_dropped() {
    let text = "Sink #0\n\tName: a\n\tVolume: 10%\nSink #1\n\tVolume: 20%\n\tMute: no\nSink #2\n\tName: c\n\tVolume: 30%\n";
    let sinks = parse_sinks(text);
    assert_eq!(sinks.len(), 2);
    assert_eq!(sinks[0].name, "a");
    assert_eq!(sinks[0].volume_percent, 10);
    assert_eq!(sinks[1].number, 2);
    assert_eq!(sinks[1].name, "c");
    assert_eq!(sinks[1].volume_percent, 30);
}

#[test]
fn header_number_too_large_drops_block() {
    let text = "Sink #99999999999\n\tName: big\nSink #4\n\tName: ok\n";
    let sinks = parse_sinks(text);
    assert_eq!(sinks.len(), 1);
    assert_eq!(sinks[0].number, 4);
    assert_eq!(sinks[0].name, "ok");
}

#[test]
fn header_needs_a_digit() {
    let text = "Sink #x\n\tName: a\n";
    assert_eq!(parse_sinks(text).len(), 0);
}

#[test]
fn lines_before_first_header_are_ignored() {
    let text = "\tName: stray\n\tVolume: 70%\nSink #3\n\tName: real\n";
    let sinks = parse_sinks(text);
    assert_eq!(sinks.len(), 1);
    assert_eq!(sinks[0].name, "real");
    assert_eq!(sinks[0].volume_percent, 0);
    assert!(sinks[0].is_muted);
}

#[test]
fn volume_takes_first_percent_match() {
    let text = "Sink #0\n\tName: a\n\tVolume: front-left: 12a 7 / 063% / 99%\n";
    let sinks = parse_sinks(text);
    assert_eq!(sinks[0].volume_percent, 63);
}

#[test]
fn volume_without_percent_keeps_prior_value() {
    let text = "Sink #0\n\tName: a\n\tVolume: 40%\n\tVolume: none here\n";
    let sinks = parse_sinks(text);
    assert_eq!(sinks[0].volume_percent, 40);
}

#[test]
fn volume_run_of_digits_before_percent() {
    let text = "Sink #0\n\tName: a\n\tVolume: x% 1x2% tail\n";
    let sinks = parse_sinks(text);
    assert_eq!(sinks[0].volume_percent, 2);
}

#[test]
fn name_keeps_trailing_spaces_and_crlf_is_stripped() {
    let text = "Sink #7\r\n\tName: spaced  \r\n\tMute: yes\r\n";
    let sinks = parse_sinks(text);
    assert_eq!(sinks.len(), 1);
    assert_eq!(sinks[0].number, 7);
    assert_eq!(sinks[0].name, "spaced  ");
    assert!(sinks[0].is_muted);
}

#[test]
fn mute_is_case_sensitive() {
    let text = "Sink #0\n\tName: a\n\tMute: YES\n";
    assert!(!parse_sinks(text)[0].is_muted);
}

#[test]
fn empty_listing_gives_no_records() {
    assert_eq!(parse_sinks("").len(), 0);
}

#[test]
fn streaming_parser_matches_whole_parse() {
    let mut p = SinkParser::new();
    for line in ["Sink #0", "\tName: a", "\tVolume: 33%", "Sink #1", "\tName: b"] {
        p.feed_line(&line.chars().collect());
    }
    let sinks = p.finish();
    assert_eq!(sinks.len(), 2);
    assert_eq!(sinks[0].volume_percent, 33);
    assert_eq!(sinks[1].name, "b");
}

#[test]
fn icon_bands() {
    assert_eq!(sink(0, "a", true, 80).icon_kind(), VolumeIcon::Muted);
    assert_eq!(sink(0, "a", true, 0).icon_kind(), VolumeIcon::Muted);
    assert_eq!(sink(0, "a", false, 0).icon_kind(), VolumeIcon::Off);
    assert_eq!(sink(0, "a", false, 10).icon_kind(), VolumeIcon::Off);
    assert_eq!(sink(0, "a", false, 11).icon_kind(), VolumeIcon::Down);
    assert_eq!(sink(0, "a", false, 50).icon_kind(), VolumeIcon::Down);
    assert_eq!(sink(0, "a", false, 51).icon_kind(), VolumeIcon::Up);
    assert_eq!(sink(0, "a", false, 150).icon_kind(), VolumeIcon::Up);
    assert_eq!(sink(0, "a", false, -5).icon_kind(), VolumeIcon::Up);
    assert_eq!(sink(0, "a", true, 5).icon(), GLYPH_MUTED);
    assert_eq!(sink(0, "a", false, 5).icon(), GLYPH_VOLUME_OFF);
    assert_eq!(sink(0, "a", false, 30).icon(), GLYPH_VOLUME_DOWN);
    assert_eq!(sink(0, "a", false, 90).icon(), GLYPH_VOLUME_UP);
}

#[test]
fn validity_and_default() {
    let d = Sink::default();
    assert_eq!(d.number, -1);
    assert!(d.is_muted);
    assert!(!d.is_valid());
    assert!(sink(0, "a", false, 0).is_valid());
    assert!(!sink(0, "", false, 0).is_valid());
    assert!(!sink(-1, "a", false, 0).is_valid());
}

#[test]
fn resolver_keeps_trailing_whitespace() {
    let info = "Server Name: pulseaudio\nDefault Sink: alsa_output.1 \t\nDefault Source: mic\n";
    assert_eq!(default_sink_name(info), Some("alsa_output.1 \t".to_string()));
}

#[test]
fn resolver_takes_first_marker_line() {
    let info = "Default Sink: first\nDefault Sink: second\n";
    assert_eq!(default_sink_name(info), Some("first".to_string()));
}

#[test]
fn resolver_absent() {
    assert_eq!(default_sink_name("Server Name: x\n Default Sink: indented\n"), None);
    assert_eq!(default_sink_name(""), None);
}

#[test]
fn selection_prefers_default_name() {
    let sinks = vec![sink(0, "A", false, 1), sink(1, "B", false, 2), sink(2, "C", false, 3)];
    assert_eq!(select_sink(&sinks, &Some("B".to_string())), Some(1));
    let reordered = vec![sink(2, "C", false, 3), sink(0, "A", false, 1), sink(1, "B", false, 2)];
    assert_eq!(select_sink(&reordered, &Some("B".to_string())), Some(2));
}

#[test]
fn selection_falls_back_to_first() {
    let sinks = vec![sink(0, "A", false, 1), sink(1, "B", false, 2)];
    assert_eq!(select_sink(&sinks, &Some("Z".to_string())), Some(0));
    assert_eq!(select_sink(&sinks, &None), Some(0));
    assert_eq!(select_sink(&Vec::new(), &Some("A".to_string())), None);
    assert_eq!(select_sink(&Vec::new(), &None), None);
}

#[test]
fn status_line_end_to_end() {
    let info = "Default Sink: alsa_output.1\n";
    let line = status_line(&two_sink_listing(), info);
    assert_eq!(line, format!("{}  80%", GLYPH_MUTED));
}

#[test]
fn status_line_default_unknown_uses_first() {
    let line = status_line(&two_sink_listing(), "Default Sink: nothing\n");
    assert_eq!(line, format!("{}  45%", GLYPH_VOLUME_DOWN));
}

#[test]
fn status_line_without_sinks_is_error() {
    assert_eq!(status_line("", "Default Sink: a\n"), "ERR");
    assert_eq!(status_line("Sink #0\n", ""), "ERR");
}

#[test]
fn sink_status_formats_icon_and_volume() {
    assert_eq!(sink_status(&sink(0, "a", false, 5)), format!("{}   5%", GLYPH_VOLUME_OFF));
    assert_eq!(sink_status(&sink(0, "a", false, 100)), format!("{} 100%", GLYPH_VOLUME_UP));
}

#[test]
fn percent_string_right_justifies() {
    assert_eq!(percent_string(0), "  0%");
    assert_eq!(percent_string(7), "  7%");
    assert_eq!(percent_string(42), " 42%");
    assert_eq!(percent_string(100), "100%");
    assert_eq!(percent_string(1234), "1234%");
    assert_eq!(percent_string(-3), " -3%");
    assert_eq!(percent_string(i64::MIN), "-9223372036854775808%");
}

#[test]
fn sink_events_trigger_refresh() {
    assert!(is_sink_event("Event 'change' on sink #1"));
    assert!(is_sink_event("Event 'new' on sink #12"));
    assert!(is_sink_event("Event '' on sink-input #3"));
    assert!(!is_sink_event("Event 'change' on client #3"));
    assert!(!is_sink_event("Event 'change' on source #1"));
    assert!(!is_sink_event(" Event 'change' on sink #1"));
    assert!(!is_sink_event("Event 'change"));
    assert!(!is_sink_event(""));
}

#[test]
fn event_stream_triggers_one_refresh_per_sink_line() {
    let stream = ["Event 'change' on sink #1", "Event 'change' on client #3"];
    let refreshes = stream.iter().filter(|l| is_sink_event(l)).count();
    assert_eq!(refreshes, 1);
}
