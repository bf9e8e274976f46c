use cliutils::cut::{extract_bytes, extract_chars, extract_fields, parse_pos, Args, Extract};
use csv::StringRecord;

#[test]
fn test_parse_pos() {
    // The empty string is an error
    assert!(parse_pos("".to_string()).is_err());

    // Zero is an error
    let res = parse_pos("0".to_string());
    assert!(res.is_err());
    assert_eq!(res.unwrap_err(), r#"illegal list value: "0""#);

    let res = parse_pos("0-1".to_string());
    assert!(res.is_err());
    assert_eq!(res.unwrap_err(), r#"illegal list value: "0""#);

    // A leading "+" is an error
    let res = parse_pos("+1".to_string());
    assert!(res.is_err());
    assert_eq!(res.unwrap_err(), r#"illegal list value: "+1""#);

    let res = parse_pos("+1-2".to_string());
    assert!(res.is_err());
    assert_eq!(res.unwrap_err(), r#"illegal list value: "+1-2""#);

    let res = parse_pos("1-+2".to_string());
    assert!(res.is_err());
    assert_eq!(res.unwrap_err(), r#"illegal list value: "1-+2""#);

    // Any non-number is an error
    let res = parse_pos("a".to_string());
    assert!(res.is_err());
    assert_eq!(res.unwrap_err(), r#"illegal list value: "a""#);

    let res = parse_pos("1,a".to_string());
    assert!(res.is_err());
    assert_eq!(res.unwrap_err(), r#"illegal list value: "a""#);

    let res = parse_pos("1-a".to_string());
    assert!(res.is_err());
    assert_eq!(res.unwrap_err(), r#"illegal list value: "1-a""#);

    let res = parse_pos("a-1".to_string());
    assert!(res.is_err());
    assert_eq!(res.unwrap_err(), r#"illegal list value: "a-1""#);

    // Wonky ranges
    let res = parse_pos("-".to_string());
    assert!(res.is_err());

    let res = parse_pos(",".to_string());
    assert!(res.is_err());

    let res = parse_pos("1,".to_string());
    assert!(res.is_err());

    let res = parse_pos("1-".to_string());
    assert!(res.is_err());

    let res = parse_pos("1-1-1".to_string());
    assert!(res.is_err());

    let res = parse_pos("1-1-a".to_string());
    assert!(res.is_err());

    // First number must be less than second
    let res = parse_pos("1-1".to_string());
    assert!(res.is_err());
    assert_eq!(
        res.unwrap_err(),
        "First number in range (1) must be lower than second number (1)"
    );

    let res = parse_pos("2-1".to_string());
    assert!(res.is_err());
    assert_eq!(
        res.unwrap_err(),
        "First number in range (2) must be lower than second number (1)"
    );

    // All the following are acceptable
    let res = parse_pos("1".to_string());
    assert!(res.is_ok());
    assert_eq!(res.unwrap(), vec![0..1]);

    let res = parse_pos("01".to_string());
    assert!(res.is_ok());
    assert_eq!(res.unwrap(), vec![0..1]);

    let res = parse_pos("1,3".to_string());
    assert!(res.is_ok());
    assert_eq!(res.unwrap(), vec![0..1, 2..3]);

    let res = parse_pos("001,0003".to_string());
    assert!(res.is_ok());
    assert_eq!(res.unwrap(), vec![0..1, 2..3]);

    let res = parse_pos("1-3".to_string());
    assert!(res.is_ok());
    assert_eq!(res.unwrap(), vec![0..3]);

    let res = parse_pos("0001-03".to_string());
    assert!(res.is_ok());
    assert_eq!(res.unwrap(), vec![0..3]);

    let res = parse_pos("1,7,3-5".to_string());
    assert!(res.is_ok());
    assert_eq!(res.unwrap(), vec![0..1, 6..7, 2..5]);

    let res = parse_pos("15,19-20".to_string());
    assert!(res.is_ok());
    assert_eq!(res.unwrap(), vec![14..15, 18..20]);
}

#[test]
fn test_extract_chars() {
    assert_eq!(extract_chars("", &[0..1]), "".to_string());
    assert_eq!(extract_chars("Émile", &[0..1]), "É".to_string());
    assert_eq!(extract_chars("Émile", &[0..1, 2..3]), "Éi".to_string());
    assert_eq!(extract_chars("Émile", &[0..3]), "Émi".to_string());
    assert_eq!(extract_chars("Émile", &[2..3, 1..2]), "im".to_string());
    assert_eq!(extract_chars("Émile", &[0..1, 1..2, 6..7]), "Ém".to_string());
}

#[test]
fn test_extract_bytes() {
    assert_eq!(extract_bytes("ábc", &[0..1]), "�".to_string());
    assert_eq!(extract_bytes("ábc", &[0..2]), "á".to_string());
    assert_eq!(extract_bytes("ábc", &[0..3]), "áb".to_string());
    assert_eq!(extract_bytes("ábc", &[0..4]), "ábc".to_string());
    assert_eq!(extract_bytes("ábc", &[3..4, 2..3]), "cb".to_string());
    assert_eq!(extract_bytes("ábc", &[0..2, 5..6]), "á".to_string());
}

#[test]
fn test_extract_fields() {
    let rec = StringRecord::from(vec!["Captain", "Sham", "12345"]);
    assert_eq!(extract_fields(&rec, &[0..1]), &["Captain"]);
    assert_eq!(extract_fields(&rec, &[1..2]), &["Sham"]);
    assert_eq!(extract_fields(&rec, &[0..1, 2..3]), &["Captain", "12345"]);
    assert_eq!(extract_fields(&rec, &[0..1, 3..4]), &["Captain"]);
    assert_eq!(extract_fields(&rec, &[1..2, 0..1]), &["Sham", "Captain"]);
    assert_eq!(extract_fields(&rec, &[100..150]), vec!["dummy"; 0]);
    assert_eq!(extract_fields(&rec, &[0..100]), &["Captain", "Sham", "12345"]);
}

#[test]
fn selection_config() {
    let args = Args {
        files: None,
        delimiter: ",".to_string(),
        fields: Some("1-2".to_string()),
        bytes: None,
        chars: None,
    };
    let config = args.to_config().unwrap();
    assert_eq!(config.delimiter, b',');
    assert!(matches!(config.extract, Extract::Fields(v) if v == vec![0..2]));

    let args = Args {
        files: None,
        delimiter: "ab".to_string(),
        fields: Some("1".to_string()),
        bytes: None,
        chars: None,
    };
    assert_eq!(
        args.to_config().unwrap_err(),
        "--delim \"ab\" must be a single byte"
    );

    let args = Args {
        files: None,
        delimiter: "\t".to_string(),
        fields: None,
        bytes: None,
        chars: None,
    };
    assert_eq!(
        args.to_config().unwrap_err(),
        "Must have --fields, --bytes, or --chars"
    );

    let args = Args {
        files: None,
        delimiter: "\t".to_string(),
        fields: None,
        bytes: None,
        chars: Some("2-1".to_string()),
    };
    assert_eq!(
        args.to_config().unwrap_err(),
        "First number in range (2) must be lower than second number (1)"
    );
}
