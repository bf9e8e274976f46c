use cliutils::find::{keep_entry, EntryType};
use cliutils::fortune::{collect_fortunes, fortune_report, parse_u64, pick_fortune, Fortune};
use cliutils::grep::{classify_path, find_lines, print_lines, Args as GrepArgs, PathKind};
use cliutils::ls::{format_mode, long_row, LongEntry};
use regex::{Regex, RegexBuilder};

#[test]
fn test_find_lines() {
    let lines: Vec<String> = vec!["Lorem\n".into(), "Ipsum\r\n".into(), "DOLOR".into()];

    // "or"
    let re1 = Regex::new("or").unwrap();
    let matches = find_lines(&lines, &re1, false);
    assert_eq!(matches.len(), 1);

    let matches = find_lines(&lines, &re1, true);
    assert_eq!(matches.len(), 2);

    // case-insensitive "or"
    let re2 = RegexBuilder::new("or").case_insensitive(true).build().unwrap();

    let matches = find_lines(&lines, &re2, false);
    assert_eq!(matches.len(), 2);

    let matches = find_lines(&lines, &re2, true);
    assert_eq!(matches.len(), 1);
}

#[test]
fn grep_output_shapes() {
    let lines: Vec<String> = vec!["Lorem\n".into(), "DOLOR\n".into()];
    let out = print_lines(Some("fox.txt"), lines.clone(), false);
    assert_eq!(out, vec!["fox.txt:Lorem\n", "fox.txt:DOLOR\n"]);
    let out = print_lines(Some("fox.txt"), lines.clone(), true);
    assert_eq!(out, vec!["fox.txt:2"]);
    let out = print_lines(None, lines, true);
    assert_eq!(out, vec!["2"]);
}

#[test]
fn grep_pattern_compilation() {
    let args = GrepArgs {
        pattern: "*".to_string(),
        files: None,
        recursive: false,
        count: false,
        invert_match: false,
        insensitive: false,
    };
    assert_eq!(args.to_config().unwrap_err(), "Invalid pattern \"*\"");

    let args = GrepArgs {
        pattern: "or".to_string(),
        files: None,
        recursive: true,
        count: true,
        invert_match: true,
        insensitive: false,
    };
    let config = args.to_config().unwrap();
    assert!(config.recursive && config.count && config.invert_match);
}

#[test]
fn test_format_mode() {
    assert_eq!(format_mode(0o755), "rwxr-xr-x");
    assert_eq!(format_mode(0o421), "r---w---x");
}

#[test]
fn entry_filters() {
    let types = Some(vec![EntryType::File, EntryType::Link]);
    assert!(keep_entry(&types, &None, EntryType::File, "a.txt"));
    assert!(!keep_entry(&types, &None, EntryType::Dir, "a"));
    assert!(keep_entry(&None, &None, EntryType::Dir, "a"));

    let names = Some(vec![Regex::new("[.]txt$").unwrap()]);
    assert!(keep_entry(&None, &names, EntryType::File, "a.txt"));
    assert!(!keep_entry(&None, &names, EntryType::File, "a.csv"));
    assert!(!keep_entry(&types, &names, EntryType::Dir, "a.txt"));
}

#[test]
fn fortune_parsing() {
    assert_eq!(parse_u64("123").unwrap(), 123);
    assert_eq!(parse_u64("+7").unwrap(), 7);
    let res = parse_u64("7.5");
    assert_eq!(res.unwrap_err(), "\"7.5\" not a valid integer");
    assert!(parse_u64("-3").is_err());
}

#[test]
fn fortune_collection() {
    let lines: Vec<String> = vec![
        "first saying".into(),
        "second line".into(),
        "%".into(),
        "another".into(),
        "%".into(),
        "%".into(),
        "left over".into(),
    ];
    let mut buffer: Vec<String> = Vec::new();
    let mut fortunes: Vec<Fortune> = Vec::new();
    collect_fortunes(&"jokes".to_string(), &lines, &mut buffer, &mut fortunes);
    assert_eq!(fortunes.len(), 2);
    assert_eq!(fortunes[0].source, "jokes");
    assert_eq!(fortunes[0].text, "first saying\nsecond line");
    assert_eq!(fortunes[1].text, "another");
    assert_eq!(buffer, vec!["left over".to_string()]);
}

#[test]
fn fortune_drawing() {
    let fortunes = vec![
        Fortune { source: "a".to_string(), text: "one".to_string() },
        Fortune { source: "a".to_string(), text: "two".to_string() },
    ];
    let picked = pick_fortune(&fortunes, Some(1)).unwrap();
    assert!(picked == "one" || picked == "two");
    let picked = pick_fortune(&fortunes, None).unwrap();
    assert!(picked == "one" || picked == "two");
    assert_eq!(pick_fortune(&Vec::new(), Some(1)), None);
}

#[test]
fn path_classification() {
    assert_eq!(classify_path("a.txt", &Some(PathKind::File), false, ""), Ok(true));
    assert_eq!(classify_path("dir", &Some(PathKind::Dir), true, ""), Ok(false));
    assert_eq!(
        classify_path("dir", &Some(PathKind::Dir), false, ""),
        Err("dir is a directory".to_string())
    );
    assert_eq!(
        classify_path("odd", &Some(PathKind::Other), true, ""),
        Err("odd this is not file or dir. Maybe link?".to_string())
    );
    assert_eq!(
        classify_path("gone", &None, true, "no such file"),
        Err("gone: no such file".to_string())
    );
}

#[test]
fn long_listing_row() {
    let entry = LongEntry {
        is_dir: false,
        mode: 0o644,
        nlink: 1,
        user: "alice".to_string(),
        group: "staff".to_string(),
        size: 193,
        mtime: "May 31 21 12:30".to_string(),
        path: "bustle.txt".to_string(),
    };
    assert_eq!(
        long_row(&entry),
        vec!["-", "rw-r--r--", "1", "alice", "staff", "193", "May 31 21 12:30", "bustle.txt"]
    );
    let dir = LongEntry {
        is_dir: true,
        mode: 0o755,
        nlink: 2,
        user: "alice".to_string(),
        group: "staff".to_string(),
        size: 4096,
        mtime: "May 31 21 12:30".to_string(),
        path: "dir".to_string(),
    };
    assert_eq!(long_row(&dir)[0], "d");
    assert_eq!(long_row(&dir)[1], "rwxr-xr-x");
}

#[test]
fn fortune_pattern_report() {
    let fortunes = vec![
        Fortune { source: "jokes".to_string(), text: "a joke about cats".to_string() },
        Fortune { source: "jokes".to_string(), text: "a joke about dogs".to_string() },
        Fortune { source: "quotes".to_string(), text: "a cat quote".to_string() },
        Fortune { source: "quotes".to_string(), text: "nothing here".to_string() },
    ];
    let pattern = Regex::new("cat|dogs").unwrap();
    let (headers, sayings) = fortune_report(&fortunes, &pattern);
    assert_eq!(headers, vec!["(jokes)\n%", "(quotes)\n%"]);
    assert_eq!(
        sayings,
        vec!["a joke about cats\n%", "a joke about dogs\n%", "a cat quote\n%"]
    );
    let none = Regex::new("zebra").unwrap();
    let (headers, sayings) = fortune_report(&fortunes, &none);
    assert!(headers.is_empty() && sayings.is_empty());
}

#[test]
fn seeded_pick_is_repeatable() {
    let fortunes = vec![
        Fortune { source: "a".to_string(), text: "one".to_string() },
        Fortune { source: "a".to_string(), text: "two".to_string() },
        Fortune { source: "a".to_string(), text: "three".to_string() },
    ];
    let first = pick_fortune(&fortunes, Some(42));
    let second = pick_fortune(&fortunes, Some(42));
    assert_eq!(first, second);
    assert!(first.is_some());
}
