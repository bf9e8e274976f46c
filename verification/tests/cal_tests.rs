use cliutils::cal::{
    format_month, format_year, last_day_in_month, parse_int, parse_month, parse_year, Args,
    CalendarDate, CalendarError,
};

#[test]
fn test_parse_int() {
    let res = parse_int("1");
    assert!(res.is_ok());
    assert_eq!(res.unwrap(), 1);

    let res = parse_int("-1");
    assert!(res.is_ok());
    assert_eq!(res.unwrap(), -1);

    let res = parse_int("foo");
    assert!(res.is_err());
    assert_eq!(res.unwrap_err().message(), "Invalid integer \"foo\"");
}

#[test]
fn test_parse_year() {
    let res = parse_year("1");
    assert!(res.is_ok());
    assert_eq!(res.unwrap(), 1i32);

    let res = parse_year("9999");
    assert!(res.is_ok());
    assert_eq!(res.unwrap(), 9999i32);

    let res = parse_year("0");
    assert!(res.is_err());
    assert_eq!(
        res.unwrap_err().message(),
        "year \"0\" not in the range 1 through 9999"
    );

    let res = parse_year("foo");
    assert!(res.is_err());
    assert_eq!(res.unwrap_err().message(), "Invalid integer \"foo\"");
}

#[test]
fn test_parse_month() {
    let res = parse_month("1");
    assert!(res.is_ok());
    assert_eq!(res.unwrap(), 1);

    let res = parse_month("12");
    assert!(res.is_ok());
    assert_eq!(res.unwrap(), 12);

    let res = parse_month("0");
    assert!(res.is_err());
    assert_eq!(
        res.unwrap_err().message(),
        "month \"0\" not in the range 1 through 12"
    );

    let res = parse_month("13");
    assert!(res.is_err());
    assert_eq!(
        res.unwrap_err().message(),
        "month \"13\" not in the range 1 through 12"
    );

    let res = parse_month("jan");
    assert!(res.is_ok());
    assert_eq!(res.unwrap(), 1);

    let res = parse_month("JaN");
    assert!(res.is_ok());
    assert_eq!(res.unwrap(), 1);

    let res = parse_month("ju");
    assert!(res.is_err());
    assert_eq!(res.unwrap_err().message(), "Invalid month \"ju\"");
}

#[test]
fn test_last_day_in_month() {
    let res = last_day_in_month(2020, 2);
    assert!(res.is_ok());
    assert_eq!(29, res.unwrap());
}

#[test]
fn test_format_month() {
    let today = CalendarDate::new(0, 1, 1).unwrap();
    let leap_february = vec![
        "   February 2020      ",
        "Su Mo Tu We Th Fr Sa  ",
        "                   1  ",
        " 2  3  4  5  6  7  8  ",
        " 9 10 11 12 13 14 15  ",
        "16 17 18 19 20 21 22  ",
        "23 24 25 26 27 28 29  ",
        "                      ",
    ];
    assert_eq!(format_month(2020, 2, true, &today), leap_february);

    let may = vec![
        "        May           ",
        "Su Mo Tu We Th Fr Sa  ",
        "                1  2  ",
        " 3  4  5  6  7  8  9  ",
        "10 11 12 13 14 15 16  ",
        "17 18 19 20 21 22 23  ",
        "24 25 26 27 28 29 30  ",
        "31                    ",
    ];
    assert_eq!(format_month(2020, 5, false, &today), may);

    let april_hl = vec![
        "     April 2021       ",
        "Su Mo Tu We Th Fr Sa  ",
        "             1  2  3  ",
        " 4  5  6 \u{1b}[7m 7\u{1b}[0m  8  9 10  ",
        "11 12 13 14 15 16 17  ",
        "18 19 20 21 22 23 24  ",
        "25 26 27 28 29 30     ",
        "                      ",
    ];
    let today = CalendarDate::new(2021, 4, 7).unwrap();
    assert_eq!(format_month(2021, 4, true, &today), april_hl);
}

#[test]
fn leap_year_boundaries() {
    assert_eq!(last_day_in_month(2021, 2).unwrap(), 28);
    assert_eq!(last_day_in_month(2000, 2).unwrap(), 29);
    assert_eq!(last_day_in_month(1900, 2).unwrap(), 28);
    assert_eq!(last_day_in_month(2020, 12).unwrap(), 31);
    assert_eq!(last_day_in_month(2020, 4).unwrap(), 30);
}

#[test]
fn month_grid_shape_everywhere() {
    let today = CalendarDate::new(0, 1, 1).unwrap();
    for year in [1, 1999, 2015, 9999] {
        for month in 1..=12u32 {
            let grid = format_month(year, month, true, &today);
            assert_eq!(grid.len(), 8);
            for line in &grid {
                assert_eq!(line.chars().count(), 22);
            }
        }
    }
}

#[test]
fn four_week_february_is_padded() {
    // February 2015 fills exactly four Sunday-to-Saturday weeks, so two
    // all-blank body rows pad the grid to its fixed eight lines.
    let today = CalendarDate::new(0, 1, 1).unwrap();
    let grid = format_month(2015, 2, true, &today);
    let expected = vec![
        "   February 2015      ",
        "Su Mo Tu We Th Fr Sa  ",
        " 1  2  3  4  5  6  7  ",
        " 8  9 10 11 12 13 14  ",
        "15 16 17 18 19 20 21  ",
        "22 23 24 25 26 27 28  ",
        "                      ",
        "                      ",
    ];
    assert_eq!(grid, expected);
}

#[test]
fn highlight_appears_exactly_once() {
    let today = CalendarDate::new(2021, 4, 7).unwrap();
    let grid = format_month(2021, 4, true, &today);
    let marked = grid.iter().filter(|l| l.contains('\u{1b}')).count();
    assert_eq!(marked, 1);

    // The highlighted row carries exactly the 8 extra escape characters;
    // every other line is the plain 22.
    for line in &grid {
        if line.contains('\u{1b}') {
            assert_eq!(line.chars().count(), 30);
        } else {
            assert_eq!(line.chars().count(), 22);
        }
    }

    let outside = format_month(2021, 5, true, &today);
    assert!(outside.iter().all(|l| !l.contains('\u{1b}')));
}

#[test]
fn saturdays_close_every_row() {
    // The last content column of each body row holds days whose day of
    // the week is Saturday.
    let today = CalendarDate::new(0, 1, 1).unwrap();
    for (year, month) in [(2020i32, 2u32), (2021, 4), (2015, 2), (2020, 5)] {
        let grid = format_month(year, month, false, &today);
        for line in &grid[2..] {
            let last_cell: String = line.chars().skip(18).take(2).collect();
            let trimmed = last_cell.trim();
            if !trimmed.is_empty() {
                let day: u32 = trimmed.parse().unwrap();
                let date = CalendarDate::new(year, month, day).unwrap();
                assert_eq!(date.week_day(), 6);
            }
        }
    }
}

#[test]
fn year_view_shape() {
    let today = CalendarDate::new(0, 1, 1).unwrap();
    let lines = format_year(2020, &today);
    assert_eq!(lines.len(), 37);
    assert_eq!(lines[0].len(), 66);
    let mut header = String::new();
    header.push_str(&" ".repeat(28));
    header.push_str("2020");
    header.push_str(&" ".repeat(34));
    assert_eq!(lines[0], header);
    // Four rows of three months, each followed by one blank line.
    for b in 0..4 {
        for i in 0..8 {
            assert_eq!(lines[1 + b * 9 + i].chars().count(), 66);
        }
        assert_eq!(lines[9 + b * 9], "");
    }
    // January of the year view matches the single-month grid without year.
    let jan = format_month(2020, 1, false, &today);
    let first: String = lines[1].chars().take(22).collect();
    assert_eq!(first, jan[0]);
}

#[test]
fn month_prefix_resolution() {
    assert_eq!(parse_month("jun").unwrap(), 6);
    assert_eq!(parse_month("jul").unwrap(), 7);
    assert_eq!(parse_month("f").unwrap(), 2);
    assert_eq!(parse_month("s").unwrap(), 9);
    let res = parse_month("ju");
    assert_eq!(res.unwrap_err().message(), "Invalid month \"ju\"");
    let res = parse_month("");
    assert_eq!(res.unwrap_err().message(), "Invalid month \"\"");
}

#[test]
fn config_resolution() {
    let args = Args {
        year: Some("2020".to_string()),
        month: Some("apr".to_string()),
    };
    let config = args.to_config(1999).unwrap();
    assert_eq!(config.year, 2020);
    assert_eq!(config.month, Some(4));

    let args = Args {
        year: None,
        month: None,
    };
    let config = args.to_config(1999).unwrap();
    assert_eq!(config.year, 1999);
    assert_eq!(config.month, None);

    let args = Args {
        year: Some("10000".to_string()),
        month: None,
    };
    let err = args.to_config(1999).unwrap_err();
    assert_eq!(err.message(), "year \"10000\" not in the range 1 through 9999");
}

#[test]
fn invalid_dates_are_rejected() {
    assert!(CalendarDate::new(2021, 2, 29).is_err());
    assert!(CalendarDate::new(2020, 2, 29).is_ok());
    assert!(CalendarDate::new(2020, 13, 1).is_err());
    assert!(CalendarDate::new(2020, 0, 1).is_err());
    assert!(CalendarDate::new(2020, 6, 0).is_err());
    let err = last_day_in_month(0, 5).unwrap_err();
    assert!(matches!(err, CalendarError::InvalidDate));
    assert_eq!(err.message(), "invalid date");
}
