use regex::Regex;
use subtitle_merge::{get_sub_path_regex, match_sub_file_name};

#[test]
fn test_get_sub_regex() {
    // Basic test for 'en' and 'ja' with both srt and vtt files.
    let regex_str = get_sub_path_regex(&"en".to_string(), &"ja".to_string(), true);
    let subtitle_pattern = Regex::new(&regex_str).unwrap();

    let test_cases = vec![
        // Matching cases (correctly formatted filenames)
        ("movie.en.srt", Some("en"), false, "srt"),
        ("movie.ja.srt", Some("ja"), false, "srt"),
        ("movie.en.vtt", Some("en"), false, "vtt"),
        ("movie.ja.vtt", Some("ja"), false, "vtt"),
        ("song.ja.hi.vtt", Some("ja"), true, "vtt"),
        ("song.en.hi.srt", Some("en"), true, "srt"),
        // Non-matching cases (invalid formats)
        ("movie.de.srt", None, false, ""),
        ("movie.srt", None, false, ""),
        ("movie.ja.txt", None, false, ""),
        ("movie.enhi.vtt", None, false, ""), // Missing dot for 'hi'
        ("movie.en.hisrt", None, false, ""), // Missing dot between hi and srt
        ("movie..en.srt", None, false, ""),
    ];

    for (filename, expected_lang, expected_hi, expected_ext) in test_cases {
        let result = subtitle_pattern.captures(filename);
        match result {
            Some(captures) => {
                let lang = captures.name("lang").map(|m| m.as_str());
                let hearing = captures.name("hearing").is_some();
                let ext = captures.name("ext").map(|m| m.as_str());

                assert_eq!(lang, expected_lang, "Failed on lang for: {}", filename);
                assert_eq!(hearing, expected_hi, "Failed on hi for: {}", filename);
                assert_eq!(ext, Some(expected_ext), "Failed on ext for: {}", filename);
            }
            None => {
                assert_eq!(expected_lang, None, "Unexpected match for: {}", filename);
            }
        }
    }
}

#[test]
fn test_get_regex_no_vtt() {
    // Only srt files should match, not vtt.
    let regex_str = get_sub_path_regex(&"en".to_string(), &"ja".to_string(), false);
    let subtitle_pattern = Regex::new(&regex_str).unwrap();

    let test_cases = vec![
        // Matching cases (correctly formatted filenames)
        ("movie.en.srt", Some("en"), false, "srt"),
        ("movie.ja.srt", Some("ja"), false, "srt"),
        ("song.ja.hi.srt", Some("ja"), true, "srt"),
        ("song.en.hi.srt", Some("en"), true, "srt"),
        // Non-matching cases (vtt should not match)
        ("movie.en.vtt", None, false, ""),
        ("movie.ja.vtt", None, false, ""),
    ];

    for (filename, expected_lang, expected_hi, expected_ext) in test_cases {
        let result = subtitle_pattern.captures(filename);
        match result {
            Some(captures) => {
                let lang = captures.name("lang").map(|m| m.as_str());
                let hearing = captures.name("hearing").is_some();
                let ext = captures.name("ext").map(|m| m.as_str());

                assert_eq!(lang, expected_lang, "Failed on lang for: {}", filename);
                assert_eq!(hearing, expected_hi, "Failed on hi for: {}", filename);
                assert_eq!(ext, Some(expected_ext), "Failed on ext for: {}", filename);
            }
            None => {
                assert_eq!(expected_lang, None, "Unexpected match for: {}", filename);
            }
        }
    }
}

#[test]
fn regex_text_is_exact() {
    assert_eq!(
        get_sub_path_regex("en", "ja", true),
        r"[^\.]+\.(?P<lang>en|ja)(\.(?P<hearing>hi))?\.(?P<ext>srt|vtt)$"
    );
    assert_eq!(
        get_sub_path_regex("de", "fr", false),
        r"[^\.]+\.(?P<lang>de|fr)(\.(?P<hearing>hi))?\.(?P<ext>srt)$"
    );
}

fn both_ways(name: &str, find_vtt: bool) -> Option<(String, bool, String)> {
    let pattern = Regex::new(&get_sub_path_regex("en", "ja", find_vtt)).unwrap();
    let by_regex = pattern.captures(name).map(|c| {
        (
            c.name("lang").unwrap().as_str().to_string(),
            c.name("hearing").is_some(),
            c.name("ext").unwrap().as_str().to_string(),
        )
    });
    let by_matcher = match_sub_file_name(name, "en", "ja", find_vtt).map(|m| (m.lang, m.hi, m.ext));
    assert_eq!(by_regex, by_matcher, "rule and regex differ on {}", name);
    by_matcher
}

#[test]
fn matcher_agrees_with_regex() {
    let names = [
        "movie.en.srt",
        "movie.ja.srt",
        "movie.en.vtt",
        "movie.ja.vtt",
        "song.ja.hi.vtt",
        "song.en.hi.srt",
        "movie.de.srt",
        "movie.srt",
        "movie.ja.txt",
        "movie.enhi.vtt",
        "movie.en.hisrt",
        "movie..en.srt",
        "a.b.en.srt",
        ".en.srt",
        "x.en.hi.hi.srt",
        "x.hi.en.srt",
        "en.srt",
        "",
    ];
    for name in names {
        both_ways(name, true);
        both_ways(name, false);
    }
}

#[test]
fn matcher_reports_lang_hi_and_ext() {
    assert_eq!(
        both_ways("song.ja.hi.vtt", true),
        Some(("ja".to_string(), true, "vtt".to_string()))
    );
    assert_eq!(both_ways("song.ja.hi.vtt", false), None);
    assert_eq!(
        both_ways("movie.en.srt", false),
        Some(("en".to_string(), false, "srt".to_string()))
    );
    assert_eq!(both_ways("movie..en.srt", true), None);
    assert_eq!(both_ways("movie..en.hi.srt", true), None);
}
