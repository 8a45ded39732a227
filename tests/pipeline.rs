use subtitle_merge::{
    apply_sub_changes, base_file_stem, file_extension, find_matching_subtitle_files, load_sub,
    merge, offset_fits, output_file_name, resolve_pairs, to_srt_text, Cue, DirListing, SubError,
    SubFile, SubPosition, TimeFields, Timestamp, Track,
};

fn cue(sequence: u32, start: i64, end: i64, text: &str) -> Cue {
    Cue {
        sequence,
        start: Timestamp { millis: start },
        end: Timestamp { millis: end },
        text: text.to_string(),
    }
}

fn listing(dir: &str, files: &[&str]) -> DirListing {
    DirListing {
        dir: dir.to_string(),
        files: files.iter().map(|f| f.to_string()).collect(),
    }
}

#[test]
fn base_file_stem_drops_every_segment() {
    assert_eq!(base_file_stem("movie.en.hi.srt"), Some("movie".to_string()));
    assert_eq!(base_file_stem("movie.ja.srt"), Some("movie".to_string()));
    assert_eq!(base_file_stem("..hidden.srt"), Some("hidden".to_string()));
    assert_eq!(base_file_stem("plain"), Some("plain".to_string()));
    assert_eq!(base_file_stem("..."), None);
    assert_eq!(base_file_stem(""), None);
}

#[test]
fn file_extension_follows_the_last_dot() {
    assert_eq!(file_extension("a.en.SRT"), Some("SRT".to_string()));
    assert_eq!(file_extension("a."), Some("".to_string()));
    assert_eq!(file_extension(".srt"), None);
    assert_eq!(file_extension("noext"), None);
    assert_eq!(file_extension(".."), None);
}

#[test]
fn output_name_takes_the_extension() {
    assert_eq!(output_file_name("a", "srt"), "a.srt");
    assert_eq!(output_file_name("a", "merged.srt"), "a.merged.srt");
    assert_eq!(output_file_name("a", ""), "a");
}

#[test]
fn position_markers_run_bottom_left_to_top_right() {
    let all = [
        SubPosition::BottomLeft,
        SubPosition::BottomCenter,
        SubPosition::BottomRight,
        SubPosition::MiddleLeft,
        SubPosition::MiddleCenter,
        SubPosition::MiddleRight,
        SubPosition::TopLeft,
        SubPosition::TopCenter,
        SubPosition::TopRight,
    ];
    for (i, p) in all.iter().enumerate() {
        assert_eq!(p.marker(), format!("{{\\an{}}}", i + 1));
    }
    assert_eq!(SubPosition::default(), SubPosition::BottomCenter);
}

#[test]
fn timestamp_fields_round_trip() {
    let f = TimeFields { hours: 1, minutes: 2, seconds: 3, millis: 4 };
    let t = Timestamp::from_fields(f);
    assert_eq!(t.millis, 3_723_004);
    assert_eq!(t.fields(), f);
    let big = TimeFields { hours: 30, minutes: 59, seconds: 59, millis: 999 };
    assert_eq!(Timestamp::from_fields(big).fields(), big);
    let zero = TimeFields { hours: 0, minutes: 0, seconds: 0, millis: 0 };
    assert_eq!(Timestamp::from_fields(zero).millis, 0);
}

#[test]
fn negative_timestamp_reads_its_magnitude() {
    let t = Timestamp { millis: -1_500 };
    assert_eq!(t.fields(), TimeFields { hours: 0, minutes: 0, seconds: 1, millis: 500 });
    let low = Timestamp { millis: i64::MIN };
    assert_eq!(low.fields().millis, 808);
}

#[test]
fn transform_strips_top_marker_and_adds_position_and_colour() {
    let mut t = Track { cues: vec![cue(7, 1_000, 2_000, "{\\an8}Hi"), cue(9, 0, 10, "Plain")] };
    apply_sub_changes(&mut t, Some("#fbf1c7".to_string()), SubPosition::BottomLeft, 250);
    assert_eq!(t.cues[0].text, "{\\an1} <font color=\"#fbf1c7\">Hi</font>");
    assert_eq!(t.cues[1].text, "{\\an1} <font color=\"#fbf1c7\">Plain</font>");
    assert_eq!(t.cues[0].start.millis, 1_250);
    assert_eq!(t.cues[0].end.millis, 2_250);
    assert_eq!(t.cues[0].sequence, 7);
    assert_eq!(t.cues[1].sequence, 9);
}

#[test]
fn every_cue_begins_with_its_marker_once() {
    let mut t = Track { cues: vec![cue(1, 0, 1, "a"), cue(2, 0, 1, "{\\an8}b"), cue(3, 0, 1, "")] };
    apply_sub_changes(&mut t, None, SubPosition::TopRight, 0);
    for c in &t.cues {
        assert!(c.text.starts_with("{\\an9} "));
        assert!(!c.text["{\\an9} ".len()..].starts_with("{\\an"));
    }
    assert_eq!(t.cues[2].text, "{\\an9} ");
}

#[test]
fn offset_there_and_back() {
    let mut t = Track { cues: vec![cue(1, 1_000, 2_000, "a"), cue(2, 5, 7, "b")] };
    apply_sub_changes(&mut t, None, SubPosition::BottomCenter, 0);
    assert_eq!((t.cues[0].start.millis, t.cues[0].end.millis), (1_000, 2_000));
    apply_sub_changes(&mut t, None, SubPosition::BottomCenter, -1_500);
    assert_eq!((t.cues[1].start.millis, t.cues[1].end.millis), (-1_495, -1_493));
    apply_sub_changes(&mut t, None, SubPosition::BottomCenter, 1_500);
    assert_eq!((t.cues[0].start.millis, t.cues[0].end.millis), (1_000, 2_000));
    assert_eq!((t.cues[1].start.millis, t.cues[1].end.millis), (5, 7));
}

#[test]
fn offset_fits_checks_the_range() {
    let t = Track { cues: vec![cue(1, i64::MAX - 10, i64::MAX - 5, "a")] };
    assert!(offset_fits(&t, 5));
    assert!(!offset_fits(&t, 6));
    assert!(offset_fits(&Track { cues: vec![] }, i64::MIN));
}

#[test]
fn merge_concatenates_and_renumbers() {
    let a = Track { cues: vec![cue(5, 10, 20, "a1"), cue(5, 0, 5, "a2")] };
    let b = Track { cues: vec![cue(1, 3, 4, "b1"), cue(99, 1, 2, "b2"), cue(0, 7, 8, "b3")] };
    let m = merge(a, b);
    let seqs: Vec<u32> = m.cues.iter().map(|c| c.sequence).collect();
    assert_eq!(seqs, vec![1, 2, 3, 4, 5]);
    let texts: Vec<&str> = m.cues.iter().map(|c| c.text.as_str()).collect();
    assert_eq!(texts, vec!["a1", "a2", "b1", "b2", "b3"]);
    assert_eq!(m.cues[1].start.millis, 0);
    assert_eq!(m.cues[4].end.millis, 8);
    let empty = merge(Track { cues: vec![] }, Track { cues: vec![] });
    assert!(empty.cues.is_empty());
}

#[test]
fn load_reads_srt_in_any_case_of_extension() {
    let content = "1\r\n00:00:01,000 --> 00:00:02,000\r\nHello\r\n\r\n2\r\n01:02:03,004 --> 01:02:04,000\r\nWorld\r\n";
    let t = load_sub("a.en.SRT", content).unwrap();
    assert_eq!(t.cues.len(), 2);
    assert_eq!(t.cues[0].start.millis, 1_000);
    assert_eq!(t.cues[0].end.millis, 2_000);
    assert_eq!(t.cues[0].text, "Hello");
    assert_eq!(t.cues[1].sequence, 2);
    assert_eq!(t.cues[1].start.millis, 3_723_004);
}

#[test]
fn load_reads_vtt_numbering_from_one() {
    let content = "WEBVTT\n\nNOTE a comment\n\nfirst\n00:00:01.000 --> 00:00:02.500\nOne\n\n00:00:03.000 --> 00:00:04.000\nTwo\n";
    let t = load_sub("clip.ja.vtt", content).unwrap();
    assert_eq!(t.cues.len(), 2);
    assert_eq!(t.cues[0].sequence, 1);
    assert_eq!(t.cues[1].sequence, 2);
    assert_eq!(t.cues[0].end.millis, 2_500);
    assert_eq!(t.cues[1].text, "Two");
}

#[test]
fn load_refuses_unknown_extension() {
    match load_sub("notes.txt", "1\n00:00:01,000 --> 00:00:02,000\nx\n") {
        Err(SubError::UnsupportedFormat(e)) => assert_eq!(e, "txt"),
        other => panic!("unexpected {:?}", other),
    }
    match load_sub("noext", "") {
        Err(SubError::UnsupportedFormat(e)) => assert_eq!(e, ""),
        other => panic!("unexpected {:?}", other),
    }
}

#[test]
fn load_reports_malformed_document() {
    let r = load_sub("bad.srt", "not a number\n00:00:01,000 --> 00:00:02,000\nx\n");
    assert!(matches!(r, Err(SubError::MalformedSubtitle)));
}

#[test]
fn render_refuses_a_day_or_more() {
    let t = Track { cues: vec![cue(1, 24 * 3_600_000, 24 * 3_600_000 + 1, "late")] };
    assert_eq!(to_srt_text(&t), None);
    let ok = Track { cues: vec![cue(1, -1_500, 2_000, "early")] };
    assert_eq!(
        to_srt_text(&ok),
        Some("1\r\n00:00:01,500 --> 00:00:02,000\r\nearly".to_string())
    );
}

#[test]
fn groups_leave_out_directories_without_matches() {
    let walk = vec![
        listing("root", &["readme.txt"]),
        listing("root/s1", &["ep.en.srt", "ep.ja.srt", "ep.de.srt"]),
        listing("root/s2", &["x.en.vtt"]),
    ];
    let groups = find_matching_subtitle_files(&walk, "en", "ja", true);
    assert_eq!(groups.len(), 2);
    assert_eq!(groups[0].dir, "root/s1");
    assert_eq!(groups[0].subs.len(), 2);
    assert_eq!(groups[0].subs[1], SubFile { path: "ep.ja.srt".to_string(), lang: "ja".to_string(), hi: false });
    assert_eq!(groups[1].dir, "root/s2");
    let no_vtt = find_matching_subtitle_files(&walk, "en", "ja", false);
    assert_eq!(no_vtt.len(), 1);
}

#[test]
fn end_to_end_two_one_cue_files() {
    let walk = vec![listing("d", &["a.en.srt", "a.ja.srt"])];
    let groups = find_matching_subtitle_files(&walk, "en", "ja", true);
    assert_eq!(groups.len(), 1);
    let subs = &groups[0].subs;
    let pairs = resolve_pairs(subs, "en", "ja");
    assert_eq!(pairs.len(), 1);
    let f1 = &subs[pairs[0].first];
    let f2 = &subs[pairs[0].second];
    assert_eq!(f1.path, "a.en.srt");
    assert_eq!(f2.path, "a.ja.srt");
    let mut t1 = load_sub(&f1.path, "1\n00:00:01,000 --> 00:00:02,000\nHello\n").unwrap();
    let mut t2 = load_sub(&f2.path, "1\n00:00:01,500 --> 00:00:02,500\nこんにちは\n").unwrap();
    apply_sub_changes(&mut t1, None, SubPosition::BottomCenter, 0);
    apply_sub_changes(&mut t2, None, SubPosition::BottomCenter, 0);
    let merged = merge(t1, t2);
    let stem = base_file_stem(&f1.path).unwrap();
    assert_eq!(output_file_name(&stem, "srt"), "a.srt");
    assert_eq!(merged.cues[0].sequence, 1);
    assert_eq!(merged.cues[0].text, "{\\an2} Hello");
    assert_eq!(merged.cues[1].sequence, 2);
    assert_eq!(merged.cues[1].text, "{\\an2} こんにちは");
    assert_eq!(
        to_srt_text(&merged).unwrap(),
        "1\r\n00:00:01,000 --> 00:00:02,000\r\n{\\an2} Hello\r\n\r\n2\r\n00:00:01,500 --> 00:00:02,500\r\n{\\an2} こんにちは"
    );
}

#[test]
fn hearing_impaired_file_taken_when_alone() {
    let walk = vec![listing("d", &["b.en.hi.srt", "b.ja.srt"])];
    let groups = find_matching_subtitle_files(&walk, "en", "ja", true);
    let subs = &groups[0].subs;
    let pairs = resolve_pairs(subs, "en", "ja");
    assert_eq!(pairs.len(), 1);
    assert_eq!(subs[pairs[0].first].path, "b.en.hi.srt");
    assert!(subs[pairs[0].first].hi);
    assert_eq!(subs[pairs[0].second].path, "b.ja.srt");
}

#[test]
fn regular_file_preferred_over_hearing_impaired() {
    let walk = vec![listing(
        "d",
        &["b.en.hi.srt", "b.ja.hi.srt", "b.en.srt", "b.ja.srt", "b.ja.vtt", "c.en.srt", "d.ja.srt"],
    )];
    let groups = find_matching_subtitle_files(&walk, "en", "ja", true);
    let subs = &groups[0].subs;
    let pairs = resolve_pairs(subs, "en", "ja");
    assert_eq!(pairs.len(), 1);
    assert_eq!(subs[pairs[0].first].path, "b.en.srt");
    assert_eq!(subs[pairs[0].second].path, "b.ja.srt");
}

const ASS_DOC: &str = "[Script Info]\r\nScriptType: v4.00+\r\n\r\n[V4+ Styles]\r\nFormat: Name, Fontname, Fontsize, PrimaryColour, SecondaryColour, OutlineColour, BackColour, Bold, Italic, Underline, StrikeOut, ScaleX, ScaleY, Spacing, Angle, BorderStyle, Outline, Shadow, Alignment, MarginL, MarginR, MarginV, Encoding\r\nStyle: Default,Arial,20,&H00FFFFFF,&H000000FF,&H00000000,&H00000000,0,0,0,0,100,100,0,0,1,2,2,2,10,10,10,1\r\n\r\n[Events]\r\nFormat: Layer, Start, End, Style, Name, MarginL, MarginR, MarginV, Effect, Text\r\nDialogue: 0,0:00:01.00,0:00:02.50,Default,,0,0,0,,First\r\nDialogue: 0,0:00:03.00,0:00:04.00,Default,,0,0,0,,Second\r\n";

#[test]
fn load_reads_substation_numbering_from_one() {
    for name in ["show.en.ass", "show.en.SSA"] {
        let t = load_sub(name, ASS_DOC).unwrap();
        assert_eq!(t.cues.len(), 2);
        assert_eq!(t.cues[0].sequence, 1);
        assert_eq!(t.cues[1].sequence, 2);
        assert_eq!(t.cues[0].start.millis, 1_000);
        assert_eq!(t.cues[0].end.millis, 2_500);
        assert_eq!(t.cues[1].text, "Second");
    }
    let wide_font = ASS_DOC.replace("Arial", "ＭＳ ゴシック");
    assert_eq!(load_sub("a.ass", &wide_font).unwrap().cues.len(), 2);
}

#[test]
fn load_reports_malformed_substation() {
    assert!(matches!(load_sub("a.ass", "not a script\n"), Err(SubError::MalformedSubtitle)));
    let bad_alignment = ASS_DOC.replace(",2,2,2,10,10,10,1", ",2,2,0,10,10,10,1");
    assert!(matches!(load_sub("a.ass", &bad_alignment), Err(SubError::MalformedSubtitle)));
    let wide_colour = ASS_DOC.replace("&H00FFFFFF", "&H€FFFFF");
    assert!(matches!(load_sub("a.ssa", &wide_colour), Err(SubError::MalformedSubtitle)));
}

#[test]
fn load_refuses_other_containers() {
    match load_sub("show.en.sub", "{1}{2}x\n") {
        Err(SubError::UnsupportedFormat(e)) => assert_eq!(e, "sub"),
        other => panic!("unexpected {:?}", other),
    }
}

#[test]
fn load_reports_blank_vtt_as_malformed() {
    assert!(matches!(load_sub("a.vtt", ""), Err(SubError::MalformedSubtitle)));
    assert!(matches!(load_sub("a.vtt", " \n\t\n"), Err(SubError::MalformedSubtitle)));
    assert!(matches!(load_sub("a.vtt", "NOT VTT\n"), Err(SubError::MalformedSubtitle)));
}
