use cliutils::cat::{cat_file, PrintMode};
use cliutils::head::{head_bytes, head_lines};
use cliutils::uniq::{print_line, uniq_lines};
use cliutils::text::join_with;
use cliutils::wc::{count, info_line, Args as WcArgs, ByteOrChar, FileInfo};

#[test]
fn test_count() {
    let text = "I don't want the world. I just want your half.\r\n";
    let info = count(text);
    let expected = FileInfo {
        num_lines: 1,
        num_words: 10,
        num_chars: 48,
        num_bytes: 48,
    };
    assert_eq!(info, expected);
}

#[test]
fn count_edges() {
    let empty = count("");
    assert_eq!(
        empty,
        FileInfo { num_lines: 0, num_words: 0, num_bytes: 0, num_chars: 0 }
    );

    let unterminated = count("one two");
    assert_eq!(
        unterminated,
        FileInfo { num_lines: 1, num_words: 2, num_bytes: 7, num_chars: 7 }
    );

    let multi = count("a\nbb ccc\n\n");
    assert_eq!(
        multi,
        FileInfo { num_lines: 3, num_words: 3, num_bytes: 10, num_chars: 10 }
    );

    let unicode = count("héllo\n");
    assert_eq!(unicode.num_chars, 6);
    assert_eq!(unicode.num_bytes, 7);
}

#[test]
fn count_totals() {
    let a = count("one\n");
    let b = count("two three\n");
    let mut total = FileInfo::zero();
    total.add_assign(&a);
    total.add_assign(&b);
    assert_eq!(total, a.add(b));
    assert_eq!(total.num_lines, 2);
    assert_eq!(total.num_words, 3);
}

#[test]
fn count_output_line() {
    let args = WcArgs {
        files: None,
        lines: false,
        words: false,
        bytes: false,
        chars: false,
    };
    let config = args.to_config();
    assert!(config.lines && config.words);
    assert_eq!(config.bytes_or_chars, ByteOrChar::Byte);

    let info = count("I don't want the world. I just want your half.\r\n");
    let line = info_line(&config, &info, Some("half.txt"));
    assert_eq!(line, "       1      10      48 half.txt");
    let line = info_line(&config, &info, None);
    assert_eq!(line, "       1      10      48");
}

#[test]
fn head_takes_prefixes() {
    let lines: Vec<String> = vec!["a\n".into(), "b\n".into(), "c\n".into()];
    assert_eq!(head_lines(&lines, 2), vec!["a\n".to_string(), "b\n".to_string()]);
    assert_eq!(head_lines(&lines, 10), lines);
    assert_eq!(head_lines(&lines, 0), Vec::<String>::new());

    let bytes = vec![1u8, 2, 3, 4];
    assert_eq!(head_bytes(&bytes, 2), vec![1u8, 2]);
    assert_eq!(head_bytes(&bytes, 9), bytes);
}

#[test]
fn cat_numbering() {
    let lines: Vec<String> = vec!["alpha".into(), "".into(), "beta".into()];
    assert_eq!(cat_file(PrintMode::Normal, &lines), lines);
    assert_eq!(
        cat_file(PrintMode::Number, &lines),
        vec![
            "     1\talpha".to_string(),
            "     2\t".to_string(),
            "     3\tbeta".to_string(),
        ]
    );
    assert_eq!(
        cat_file(PrintMode::NumberAndNonblank, &lines),
        vec![
            "     1\talpha".to_string(),
            "".to_string(),
            "     2\tbeta".to_string(),
        ]
    );
}

#[test]
fn uniq_collapses_neighbours() {
    let lines: Vec<String> = vec!["a\n".into(), "a\n".into(), "b\n".into(), "a".into()];
    assert_eq!(
        uniq_lines(&lines, false),
        vec!["a\n".to_string(), "b\n".to_string(), "a".to_string()]
    );
    assert_eq!(
        uniq_lines(&lines, true),
        vec!["   2 a\n".to_string(), "   1 b\n".to_string(), "   1 a".to_string()]
    );
    assert_eq!(uniq_lines(&Vec::new(), true), Vec::<String>::new());
}

#[test]
fn uniq_line_rendering() {
    assert_eq!(print_line(true, 12, &"x\n".to_string()), "  12 x\n");
    assert_eq!(print_line(false, 12, &"x\n".to_string()), "x\n");
}

#[test]
fn join_puts_one_separator_between() {
    assert_eq!(join_with(&Vec::new(), ","), "");
    assert_eq!(join_with(&vec!["a".to_string()], ","), "a");
    assert_eq!(join_with(&vec!["a".to_string(), "b".to_string(), "c".to_string()], "\t"), "a\tb\tc");
}
