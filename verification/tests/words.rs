//! Languages, the console, text and versions.

use rustynesting::console::{stamp_at, stamp_now, Console, Kind, MAX_LINES};
use rustynesting::i18n::{entry, load_dict, load_dicts, t, tv, Dicts, Lang};
use rustynesting::text::{chars_of, contains_text, decimal_text, join_texts, padded_text, read_whole, replace_text, to_lowered, trim_text};
use rustynesting::update::{is_newer, newer_release, release_query};

const ENGLISH: &str = r#"{"pin_locked":"part {id} pinned","btn_run":"RUN NEST","greeting":"{a} and {b}","only_english":"here"}"#;
const FRENCH: &str = r#"{"pin_locked":"piece {id} fixee","btn_run":"","greeting":"{b} et {a}"}"#;

fn dicts() -> Dicts {
    load_dicts(&[ENGLISH, "{}", FRENCH, "not json", "{}", "{}", "{}", "{}", "{}"])
}

#[test]
fn an_unknown_key_is_visible_rather_than_blank() {
    let dicts = dicts();
    for lang in Lang::ALL {
        assert_eq!(t(&dicts, lang, "definitely_not_a_key"), "definitely_not_a_key");
    }
}

#[test]
fn placeholders_are_substituted() {
    let dicts = dicts();
    assert_eq!(tv(&dicts, Lang::En, "pin_locked", &[("id", "7")]), t(&dicts, Lang::En, "pin_locked").replace("{id}", "7"));
    assert_eq!(tv(&dicts, Lang::En, "btn_run", &[("nope", "x")]), t(&dicts, Lang::En, "btn_run"));
    assert_eq!(tv(&dicts, Lang::En, "pin_locked", &[("id", "7")]), "part 7 pinned");
    assert_eq!(tv(&dicts, Lang::Fr, "greeting", &[("a", "1"), ("b", "2")]), "2 et 1");
}

#[test]
fn a_missing_or_empty_text_is_english() {
    let dicts = dicts();
    assert_eq!(t(&dicts, Lang::Fr, "pin_locked"), "piece {id} fixee");
    assert_eq!(t(&dicts, Lang::Fr, "btn_run"), "RUN NEST", "an empty text is a missing one");
    assert_eq!(t(&dicts, Lang::Fr, "only_english"), "here");
    assert_eq!(t(&dicts, Lang::Es, "btn_run"), "RUN NEST", "a file that cannot be read is an empty one");
    assert_eq!(entry(&dicts, Lang::Fr, "btn_run"), None);
    assert_eq!(entry(&dicts, Lang::Vi, "btn_run"), None);
}

#[test]
fn a_dictionary_holds_what_its_file_does() {
    let dict = load_dict(r#"{"a":"été","b":"2"}"#);
    assert_eq!(dict.get("a"), Some("été"));
    assert_eq!(dict.get("b"), Some("2"));
    assert_eq!(dict.get("c"), None);
    assert_eq!(load_dict("[1, 2]").get("a"), None);
}

#[test]
fn every_language_has_its_own_name_and_code() {
    let codes: Vec<&str> = Lang::ALL.iter().map(|l| l.code()).collect();
    assert_eq!(codes, vec!["en", "vi", "fr", "es", "it", "de", "ja", "ko", "zh"]);
    for (i, lang) in Lang::ALL.iter().enumerate() {
        assert_eq!(lang.index(), i);
        assert!(!lang.label().is_empty());
    }
}

#[test]
fn the_display_buffer_is_capped_and_keeps_the_newest_lines() {
    let mut c = Console::default();
    for i in 0..MAX_LINES + 50 {
        c.log(Kind::Plain, format!("line {i}"));
    }
    assert_eq!(c.lines.len(), MAX_LINES);
    assert_eq!(c.lines.front().unwrap().text, format!("line {}", 50));
    assert_eq!(c.lines.back().unwrap().text, format!("line {}", MAX_LINES + 49));
    assert_eq!(c.iter().len(), MAX_LINES);
    assert_eq!(c.iter()[0].text, "line 50");
}

#[test]
fn the_stamp_is_a_fixed_width_clock() {
    let s = stamp_now();
    assert_eq!(s.len(), 8, "{s}");
    assert!(s.chars().enumerate().all(|(i, c)| if i == 2 || i == 5 { c == ':' } else { c.is_ascii_digit() }), "{s}");
}

#[test]
fn a_moment_is_shown_as_its_time_of_day() {
    assert_eq!(stamp_at(0), "00:00:00");
    assert_eq!(stamp_at(86_399), "23:59:59");
    assert_eq!(stamp_at(86_400 + 3_661), "01:01:01");
}

#[test]
fn an_error_is_logged_as_one() {
    let mut c = Console::default();
    let disk = c.error("no such file".to_string());
    assert_eq!(c.lines.back().unwrap().kind, Kind::Error);
    assert!(disk.contains("no such file"));
    let disk = c.log_at("12:34:56".to_string(), Kind::Best, "found".to_string());
    assert!(disk.contains("12:34:56") && disk.contains("found"));
}

#[test]
fn newer_only_when_it_really_is() {
    assert!(is_newer("2.6.0", "2.5.0"));
    assert!(is_newer("2.5.1", "2.5.0"));
    assert!(is_newer("10.0.0", "9.9.9"), "dotted parts compare as numbers, not text");
    assert!(!is_newer("2.5.0", "2.5.0"));
    assert!(!is_newer("2.4.9", "2.5.0"));
    assert!(!is_newer("2.5.0-rc1", "2.5.0"));
}

#[test]
fn a_longer_version_is_newer_than_its_start() {
    assert!(is_newer("2.5.0.1", "2.5.0"));
    assert!(!is_newer("2.5", "2.5.0"));
    assert!(!is_newer("", "0"));
    assert!(!is_newer("nightly", "0.0.1"));
}

#[test]
fn only_a_newer_release_is_told_of() {
    let url = "https://example.org/releases/tag/v2.6.0".to_string();
    let release = newer_release("v2.6.0", url.clone(), "2.5.9").expect("a version").expect("2.6.0 is newer");
    assert_eq!(release.version, "2.6.0");
    assert_eq!(release.url, url);
    assert!(newer_release("v2.5.9", url.clone(), "2.5.9").expect("a version").is_none());
    assert!(newer_release("v2.5.9-rc1", url, "2.5.9").expect("a version partway").is_none());
    assert_eq!(release_query(), "https://api.github.com/repos/Glorfindel31/Nestor/releases/latest");
}

#[test]
fn a_release_tag_that_names_no_version_is_an_error() {
    for tag in ["nightly", "", "v", "vv", "-1.0", "v.2"] {
        match newer_release(tag, "u".to_string(), "2.5.0") {
            Ok(_) => panic!("{tag:?} is no version"),
            Err(message) => assert_eq!(message, format!("the release tag names no version: {tag}")),
        }
    }
    assert!(newer_release("0-nightly", "u".to_string(), "2.5.0").expect("a version partway").is_none());
}

#[test]
fn only_ascii_letters_are_lowered() {
    assert_eq!(to_lowered("AZaz @[`{ 09"), "azaz @[`{ 09");
    assert_eq!(to_lowered("DRILL-\u{c9}\u{c4}\u{130}"), "drill-\u{c9}\u{c4}\u{130}");
    assert_eq!(to_lowered("ABCDEFGHIJKLMNOPQRSTUVWXYZ"), "abcdefghijklmnopqrstuvwxyz");
    assert_eq!(to_lowered(""), "");
}

#[test]
fn numbers_read_back_as_they_were_written() {
    for n in [0, 7, 10, 999, u64::MAX] {
        assert_eq!(read_whole(&decimal_text(n), u64::MAX), Some(n));
    }
    assert_eq!(decimal_text(1050), "1050");
    assert_eq!(padded_text(7, 3), "007");
    assert_eq!(padded_text(12345, 3), "12345");
    assert_eq!(read_whole("+12", 100), Some(12));
    assert_eq!(read_whole("101", 100), None);
    assert_eq!(read_whole("18446744073709551616", u64::MAX), None);
    for bad in ["", "+", "-1", " 1", "1 ", "1.0", "x", "1_000"] {
        assert_eq!(read_whole(bad, u64::MAX), None, "{bad:?}");
    }
}

#[test]
fn text_is_searched_replaced_and_joined() {
    assert!(contains_text("outer cut", "cut"));
    assert!(!contains_text("cu t", "cut"));
    assert!(contains_text("anything", ""));
    assert_eq!(replace_text("a{n}b{n}", "{n}", "7"), "a7b7");
    assert_eq!(replace_text("aaa", "aa", "b"), "ba");
    assert_eq!(trim_text("\u{3000} a b\t\n"), "a b");
    assert_eq!(trim_text("  "), "");
    assert_eq!(join_texts(&vec!["a".to_string(), "b".to_string(), "c".to_string()], ", "), "a, b, c");
    assert_eq!(join_texts(&Vec::new(), ", "), "");
    assert_eq!(chars_of("aé"), vec!['a', 'é']);
}
