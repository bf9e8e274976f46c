use cliutils::comm::{get_args, proc_lines, run, Args};
use cliutils::tail::TakeValue::{PlusZero, TakeNum};
use cliutils::tail::{count_lines_bytes, get_start_index, parse_num, Args as TailArgs, TailMode};

fn comm_args() -> Args {
    Args {
        file1: "one.txt".to_string(),
        file2: "two.txt".to_string(),
        show_col1: true,
        show_col2: true,
        show_col3: true,
        insensitive: false,
        delimiter: "\t".to_string(),
    }
}

#[test]
fn my_test() -> Result<(), String> {
    Ok(())
}

#[test]
fn stdin_can_appear_once() {
    let mut args = comm_args();
    args.file1 = "-".to_string();
    assert!(get_args(args).is_ok());

    let mut args = comm_args();
    args.file1 = "-".to_string();
    args.file2 = "-".to_string();
    assert_eq!(
        get_args(args).unwrap_err(),
        "Both input files can't be STDIN (\"-\")"
    );
}

#[test]
fn comm_merges_sorted_lines() {
    let lines1: Vec<String> = vec!["a".into(), "c".into(), "d".into()];
    let lines2: Vec<String> = vec!["b".into(), "c".into()];
    let merged = proc_lines(&lines1, &lines2, false);
    assert_eq!(
        merged,
        vec![
            (1usize, "a".to_string()),
            (2, "b".to_string()),
            (3, "c".to_string()),
            (1, "d".to_string()),
        ]
    );

    let out = run(&lines1, &lines2, &comm_args());
    assert_eq!(out, vec!["a", "\tb", "\t\tc", "d"]);

    let mut hide12 = comm_args();
    hide12.show_col1 = false;
    hide12.show_col2 = false;
    let out = run(&lines1, &lines2, &hide12);
    assert_eq!(out, vec!["c"]);
}

#[test]
fn comm_case_insensitive_merge() {
    // Under -i the lower-cased forms are compared, so "ABC" and "abc"
    // fall into the common column.
    let lines1: Vec<String> = vec!["ABC".into()];
    let lines2: Vec<String> = vec!["abc".into()];
    let merged = proc_lines(&lines1, &lines2, true);
    assert_eq!(merged, vec![(3usize, "ABC".to_string())]);

    let sensitive = proc_lines(&lines1, &lines2, false);
    assert_eq!(
        sensitive,
        vec![(1usize, "ABC".to_string()), (2, "abc".to_string())]
    );
}

#[test]
fn test_parse_num() {
    let res = parse_num("3");
    assert!(res.is_ok());
    assert_eq!(res.unwrap(), TakeNum(-3));

    let res = parse_num("+3");
    assert!(res.is_ok());
    assert_eq!(res.unwrap(), TakeNum(3));

    let res = parse_num("-3");
    assert!(res.is_ok());
    assert_eq!(res.unwrap(), TakeNum(-3));

    let res = parse_num("0");
    assert!(res.is_ok());
    assert_eq!(res.unwrap(), TakeNum(0));

    let res = parse_num("+0");
    assert!(res.is_ok());
    assert_eq!(res.unwrap(), PlusZero);

    let res = parse_num(&i64::MAX.to_string());
    assert!(res.is_ok());
    assert_eq!(res.unwrap(), TakeNum(i64::MIN + 1));

    let res = parse_num(&(i64::MIN + 1).to_string());
    assert!(res.is_ok());
    assert_eq!(res.unwrap(), TakeNum(i64::MIN + 1));

    let res = parse_num(&format!("+{}", i64::MAX));
    assert!(res.is_ok());
    assert_eq!(res.unwrap(), TakeNum(i64::MAX));

    let res = parse_num(&i64::MIN.to_string());
    assert!(res.is_ok());
    assert_eq!(res.unwrap(), TakeNum(i64::MIN));

    let res = parse_num("3.14");
    assert!(res.is_err());
    assert_eq!(res.unwrap_err(), "3.14");

    let res = parse_num("nyaa");
    assert!(res.is_err());
    assert_eq!(res.unwrap_err(), "nyaa");
}

#[test]
fn test_get_start_index() {
    assert_eq!(get_start_index(&PlusZero, 0), Some(1));

    // +0 from a nonempty file returns an index that
    // is one less than the number of lines/bytes
    assert_eq!(get_start_index(&PlusZero, 1), Some(1));

    // Taking 0 lines/bytes returns None
    assert_eq!(get_start_index(&TakeNum(0), 1), None);

    // Taking any lines/bytes from an empty file returns None
    assert_eq!(get_start_index(&TakeNum(1), 0), None);

    // Taking more lines/bytes than is available returns None
    assert_eq!(get_start_index(&TakeNum(2), 1), None);

    // When starting line/byte is less than total lines/bytes,
    // return one less than starting number
    assert_eq!(get_start_index(&TakeNum(1), 10), Some(1));
    assert_eq!(get_start_index(&TakeNum(2), 10), Some(2));
    assert_eq!(get_start_index(&TakeNum(3), 10), Some(3));

    // When starting line/byte is negative and less than total,
    // return total - start
    assert_eq!(get_start_index(&TakeNum(-1), 10), Some(10));
    assert_eq!(get_start_index(&TakeNum(-2), 10), Some(9));
    assert_eq!(get_start_index(&TakeNum(-3), 10), Some(8));

    // When the starting line/byte is negative and more than the total,
    // return 0 to print the whole file
    assert_eq!(get_start_index(&TakeNum(-20), 10), Some(1));
}

#[test]
fn tail_config_errors() {
    let args = TailArgs {
        files: vec!["a.txt".to_string()],
        lines: "10".to_string(),
        bytes: Some("3.14".to_string()),
        quiet: false,
    };
    assert_eq!(args.to_config().unwrap_err(), "illegal byte count -- 3.14");

    let args = TailArgs {
        files: vec!["a.txt".to_string()],
        lines: "nyaa".to_string(),
        bytes: None,
        quiet: false,
    };
    assert_eq!(args.to_config().unwrap_err(), "illegal line count -- nyaa");

    let args = TailArgs {
        files: vec!["a.txt".to_string()],
        lines: "10".to_string(),
        bytes: None,
        quiet: true,
    };
    let config = args.to_config().unwrap();
    assert!(config.quiet);
    assert!(matches!(config.tail_mode, TailMode::Lines(TakeNum(-10))));
}

#[test]
fn byte_chunk_counts() {
    assert_eq!(count_lines_bytes(&Vec::new()), (0, 0));
    assert_eq!(count_lines_bytes(&b"one line\n".to_vec()), (1, 9));
    assert_eq!(count_lines_bytes(&b"a\nb\nc".to_vec()), (3, 5));
    assert_eq!(count_lines_bytes(&b"\n\n".to_vec()), (2, 2));
    assert_eq!(count_lines_bytes(&b"no newline".to_vec()), (1, 10));
}
