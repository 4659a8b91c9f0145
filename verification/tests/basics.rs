use std::path::Path;
use wt_clipper::config::{
    default_config_path, default_config_toml, expand_tilde, AppConfig, ConfigValue, NotToml,
};
use wt_clipper::capture::output::slugify_filename_part;
use wt_clipper::dota2::source::extract_json_body;
use wt_clipper::json::Json;
use wt_clipper::order::youngest_first;
use wt_clipper::path;
use wt_clipper::text;
use wt_clipper::time::{Duration, Instant, SystemTime};
use wt_clipper::warthunder::client::Endpoint;

const SAMPLES: [&str; 22] = [
    "",
    " ",
    "a",
    " a b ",
    "\t\n x \u{a0}\u{2003}y\r\n",
    "line one\nline two\r\n\nlast",
    "ends\n",
    "é◍某 玩家",
    "0",
    "+7",
    "-7",
    "007",
    "18446744073709551615",
    "18446744073709551616",
    "4294967295",
    "4294967296",
    "12a",
    "a-b-c",
    "-",
    "--",
    "Mixed CASE É",
    "a.b.c",
];

#[test]
fn text_functions_agree_with_the_standard_library() {
    for s in SAMPLES {
        assert_eq!(text::trim(s), s.trim(), "{s:?}");
        assert_eq!(text::trim_start(s), s.trim_start(), "{s:?}");
        assert_eq!(text::trim_end(s), s.trim_end(), "{s:?}");
        let lines: Vec<&str> = s.lines().collect();
        assert_eq!(text::lines(s), lines, "{s:?}");
        let words: Vec<&str> = s.split_whitespace().collect();
        assert_eq!(text::split_whitespace(s), words, "{s:?}");
        let parts: Vec<&str> = s.split('-').collect();
        assert_eq!(text::split(s, '-'), parts, "{s:?}");
        assert_eq!(text::split_once(s, '-'), s.split_once('-'), "{s:?}");
        assert_eq!(text::rsplit_once(s, '.'), s.rsplit_once('.'), "{s:?}");
        assert_eq!(text::to_ascii_lowercase(s), s.to_ascii_lowercase(), "{s:?}");
        assert_eq!(text::parse_u64(s), s.parse::<u64>().ok(), "{s:?}");
        assert_eq!(text::parse_u32(s), s.parse::<u32>().ok(), "{s:?}");
        assert_eq!(text::parse_hex_u32(s), u32::from_str_radix(s, 16).ok(), "{s:?}");
        assert_eq!(text::trim_start_char(s, '-'), s.trim_start_matches('-'), "{s:?}");
        assert_eq!(text::trim_end_char(s, '-'), s.trim_end_matches('-'), "{s:?}");
        assert_eq!(text::replace_char(s, 'a', "bc"), s.replace('a', "bc"), "{s:?}");
        for t in SAMPLES {
            assert_eq!(text::contains(s, t), s.contains(t), "{s:?} {t:?}");
            assert_eq!(text::starts_with(s, t), s.starts_with(t), "{s:?} {t:?}");
            assert_eq!(text::ends_with(s, t), s.ends_with(t), "{s:?} {t:?}");
            assert_eq!(text::strip_prefix(s, t), s.strip_prefix(t), "{s:?} {t:?}");
            assert_eq!(text::strip_suffix(s, t), s.strip_suffix(t), "{s:?} {t:?}");
            assert_eq!(text::comes_not_after(s, t), s <= t, "{s:?} {t:?}");
            assert_eq!(
                text::eq_ignore_ascii_case(s, t),
                s.eq_ignore_ascii_case(t),
                "{s:?} {t:?}"
            );
        }
    }
}

#[test]
fn white_space_is_the_same_set() {
    for c in '\0'..=char::MAX {
        assert_eq!(text::is_whitespace(c), c.is_whitespace(), "{c:?}");
    }
}

#[test]
fn numbers_are_written_as_usual() {
    for n in [0_u64, 1, 9, 10, 15, 16, 255, 4096, 1_000_000, u64::MAX] {
        assert_eq!(text::decimal_text(n as u128), n.to_string());
        assert_eq!(text::hex_text(n), format!("{n:x}"));
        assert_eq!(text::pad_with_zeros(text::hex_text(n), 16), format!("{n:016x}"));
        assert_eq!(text::padded_decimal_text(n as u128, 6), format!("{n:06}"));
        assert_eq!(text::pad_with_spaces(n.to_string(), 12), format!("{n:<12}"));
    }
}

#[test]
fn lists_of_texts_are_ordered_and_joined() {
    let list: Vec<String> = ["b", "a", "é", "b", "aa"].iter().map(|s| s.to_string()).collect();
    let ordered = text::sort_and_dedup(&list);
    assert_eq!(ordered, vec!["a", "aa", "b", "é"]);
    assert_eq!(text::join(&ordered, "|"), "a|aa|b|é");
    let blank: Vec<String> = ["", " ", "x"].iter().map(|s| s.to_string()).collect();
    assert_eq!(text::without_blank(&blank), vec!["x"]);
}

const PATHS: [&str; 20] = [
    "",
    "/",
    "//",
    "a",
    "/a",
    "a/b.c",
    "/a/b.c/",
    "a/.",
    "a/..",
    "..",
    ".",
    "./a",
    "/a/./b",
    ".hidden",
    "/x/.hidden.ext",
    "/x/name.tar.gz",
    "/x/name.",
    "/x//y",
    "/x/y//",
    "/x/é.mp4",
];

#[test]
fn path_functions_agree_with_the_standard_library() {
    for p in PATHS {
        let std_path = Path::new(p);
        assert_eq!(path::is_absolute(p), std_path.is_absolute(), "{p:?}");
        assert_eq!(path::file_name(p), std_path.file_name().map(|s| s.to_str().unwrap().to_owned()), "{p:?}");
        assert_eq!(path::file_stem(p), std_path.file_stem().map(|s| s.to_str().unwrap().to_owned()), "{p:?}");
        assert_eq!(path::extension(p), std_path.extension().map(|s| s.to_str().unwrap().to_owned()), "{p:?}");
        assert_eq!(
            path::parent(p),
            std_path.parent().map(|q| q.to_str().unwrap().to_owned()),
            "{p:?}"
        );
        assert_eq!(
            Path::new(&path::with_extension(p, "jpg")),
            std_path.with_extension("jpg"),
            "{p:?}"
        );
        for q in PATHS {
            assert_eq!(Path::new(&path::join_path(p, q)), std_path.join(q), "{p:?} {q:?}");
            assert_eq!(path::same_path(p, q), std_path == Path::new(q), "{p:?} {q:?}");
        }
    }
}

#[test]
fn points_in_time_are_counted() {
    let now = Instant { nanos: 10 };
    let later = now.plus(Duration::from_secs(2));
    assert_eq!(later.duration_since(now), Duration::from_secs(2));
    assert_eq!(now.duration_since(later), Duration::from_secs(0));
    assert_eq!(Duration::from_millis(2_500).as_secs(), 2);
    assert_eq!(Duration::from_millis(2_500).as_millis(), 2_500);
    let wall = SystemTime::unix_epoch().plus(Duration::from_millis(1_500));
    assert_eq!(wall.debug_text(), "SystemTime { tv_sec: 1, tv_nsec: 500000000 }");
    assert_eq!(
        SystemTime { nanos: -1 }.debug_text(),
        "SystemTime { tv_sec: -1, tv_nsec: 999999999 }"
    );
    assert_eq!(wall.duration_since(SystemTime::unix_epoch()), Some(Duration::from_millis(1_500)));
    assert_eq!(SystemTime::unix_epoch().duration_since(wall), None);
    assert_eq!(wall.checked_sub(Duration::from_millis(500)).unwrap().nanos, 1_000_000_000);
}

#[test]
fn the_youngest_come_first_in_the_order_given() {
    assert_eq!(youngest_first(&vec![5, 1, 5, 0, 1]), vec![3, 1, 4, 0, 2]);
    assert!(youngest_first(&Vec::new()).is_empty());
}

#[test]
fn json_is_read() {
    let value = Json::parse("{\"b\": [1, -2, 1.5], \"a\": {\"t\": \"x\\u00e9\"}, \"n\": null}").unwrap();
    assert_eq!(
        value.get("a").and_then(|a| a.get("t")).and_then(|t| t.as_str()),
        Some("xé")
    );
    let Some(Json::Array { items, shown }) = value.get("b") else {
        panic!("expected an array");
    };
    assert_eq!(shown, "[1,-2,1.5]");
    assert_eq!(items[0].as_u64(), Some(1));
    assert_eq!(items[1].as_u64(), None);
    assert!(matches!(value.get("n"), Some(Json::Null)));
    assert!(value.get("missing").is_none());
    assert!(Json::parse("{").is_none());
    assert!(Json::parse("1 2").is_none());
}

fn entry<'a>(value: &'a ConfigValue, key: &str) -> Option<&'a ConfigValue> {
    match value {
        ConfigValue::Table(entries) => entries.iter().find(|e| e.0 == key).map(|e| &e.1),
        _ => None,
    }
}

#[test]
fn old_clip_output_dir_migrates_to_library_output_dir() {
    let value = AppConfig::load(
        r#"
[clip]
output_dir = "/tmp/library"
post_event_seconds = 7

[capture]
backend = "gpu_screen_recorder"
"#,
    )
    .unwrap();

    let library = entry(&value, "library").unwrap();
    assert!(matches!(entry(library, "output_dir"), Some(ConfigValue::Text(dir))
        if dir == "/tmp/library"));
    let clip = entry(&value, "clip").unwrap();
    assert!(matches!(entry(clip, "post_event_seconds"), Some(ConfigValue::Integer(7))));
    assert!(entry(clip, "output_dir").is_none());
    assert!(entry(entry(&value, "capture").unwrap(), "backend").is_none());
}

#[test]
fn old_pending_exports_loads_successfully() {
    let value = AppConfig::load(
        r#"
[pending_exports]
pending_export_dir = "/tmp/pending"
"#,
    )
    .unwrap();

    assert!(entry(&value, "pending_exports").is_none());
    assert!(entry(&value, "capture").is_none());
    assert_eq!(AppConfig::default().capture.replay_seconds, 25);
}

#[test]
fn clean_config_serializes_without_obsolete_fields() {
    let content = default_config_toml();

    for obsolete in [
        "pending_exports",
        "segment_seconds",
        "source",
        "keep_segments",
        "export_mode",
        "backend",
    ] {
        assert!(
            !content.contains(obsolete),
            "serialized config still contains {obsolete}: {content}"
        );
    }
    assert!(AppConfig::load(content).is_ok());
}

#[test]
fn settings_that_are_no_toml_are_refused() {
    assert!(matches!(AppConfig::load("[clip"), Err(NotToml)));
}

#[test]
fn a_new_settings_file_needs_room_or_force() {
    assert_eq!(AppConfig::write_default("/c", false, false), Ok(default_config_toml()));
    assert_eq!(AppConfig::write_default("/c", true, true), Ok(default_config_toml()));
    assert_eq!(
        AppConfig::write_default("/c", true, false),
        Err("config already exists at /c; pass --force to overwrite".to_owned())
    );
}

#[test]
fn the_home_directory_takes_the_place_of_a_tilde() {
    assert_eq!(expand_tilde("~/a", Some("/h")).unwrap(), "/h/a");
    assert_eq!(expand_tilde("~", Some("/h")).unwrap(), "/h");
    assert_eq!(expand_tilde("/a", None).unwrap(), "/a");
    assert!(expand_tilde("~/a", None).is_err());
    assert_eq!(default_config_path(Some("/x"), Some("/h")), "/x/wt-clipper/config.toml");
    assert_eq!(default_config_path(None, Some("/h")), "/h/.config/wt-clipper/config.toml");
}

#[test]
fn loaded_settings_are_completed() {
    let mut config = AppConfig::default();
    config.capture.video_bitrate_kbps = 0;
    config.war_thunder.player_name = Some("  ".to_owned());
    let completed = config.complete_loaded(Some("/h")).unwrap();
    assert_eq!(completed.library.output_dir, "/h/Videos/WarThunder Clips");
    assert_eq!(completed.capture.video_bitrate_kbps, 20_000);
    assert_eq!(completed.war_thunder.player_name, None);
    assert!(AppConfig::default().complete_loaded(None).is_err());
}

#[test]
fn words_are_compared_in_lower_case() {
    let state = Json::parse("{\"a\": \"TARGET DESTROYED\", \"b\": \"calm\"}").unwrap();
    assert_eq!(Endpoint::State.extract_messages(&state), vec!["TARGET DESTROYED"]);
    assert_eq!(slugify_filename_part("\u{212a}ILL \u{c9}"), "kill");
    assert_eq!(slugify_filename_part("A  B__C"), "a-b-c");
}

#[test]
fn bodies_are_read_as_utf8() {
    assert_eq!(extract_json_body(b"{\"a\": \"\xc3\xa9\"}").as_deref(), Some("{\"a\": \"\u{e9}\"}"));
    assert_eq!(extract_json_body(b"{\"a\": \"\xff\"}"), None);
}
