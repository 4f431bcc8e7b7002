use std::ops::Range;

use cliutils::cut::{
    build_extract, clip_bytes, extract_bytes, extract_chars, extract_fields, parse_delimiter,
    parse_pos, parse_single_position, ArgsExtract, CutError, Extract, PositionList,
};

#[test]
fn delimiter_value_parser() {
    assert_eq!(Ok(46), parse_delimiter("."));
    assert_eq!(
        Err("must be a single byte".to_string()),
        parse_delimiter(",,")
    );
}

fn check_parse_pos(s: &str, exp: Vec<(usize, usize)>) {
    let pr = parse_pos(s).unwrap();
    assert_eq!(
        exp.iter()
            .map(|(start, end)| Range {
                start: *start,
                end: *end
            })
            .collect::<PositionList>(),
        pr
    );
}

#[test]
fn parse_pos_single() {
    check_parse_pos("5", vec![(4, 5)]);
    check_parse_pos("5,1", vec![(4, 5), (0, 1)]);
}

#[test]
fn parse_pos_range() {
    check_parse_pos("9-15", vec![(8, 15)]);
    check_parse_pos("9-15,14-31,8", vec![(8, 15), (13, 31), (7, 8)]);
}

fn err_str(s: &str) -> String {
    parse_pos(s).unwrap_err().message()
}

#[test]
fn test_parse_pos_from_book() {
    // The empty string is an error
    assert!(parse_pos("").is_err());

    // Zero is an error
    assert!(err_str("0").contains(r#"Should be positive"#));
    assert!(err_str("0-1").contains(r#"Should be positive"#));

    // A leading "+" is an error
    assert!(err_str("+1").contains(r#"Invalid char +"#));
    assert!(err_str("+1-2").contains(r#"Invalid char +"#));
    assert!(err_str("1-+2").contains(r#"Invalid char +"#));

    // Any non-number is an error
    assert!(err_str("a").contains(r#"Invalid char a"#));
    assert!(err_str("1,a").contains(r#"Invalid char a"#));
    assert!(err_str("1-a").contains(r#"Invalid char a"#));
    assert!(err_str("a-1").contains(r#"Invalid char a"#));

    // Wonky ranges
    assert!(parse_pos("-").is_err());
    assert!(parse_pos(",").is_err());
    assert!(parse_pos("1,").is_err());
    assert!(parse_pos("1-").is_err());
    assert!(parse_pos("1-1-1").is_err());
    assert!(parse_pos("1-1-a").is_err());

    // First number must be less than second
    assert!(err_str("1-1")
        .contains("First number in range (1) must be lower than second number (1)"));
    assert!(err_str("2-1")
        .contains("First number in range (2) must be lower than second number (1)"));

    // All the following are acceptable
    let res = parse_pos("1");
    assert!(res.is_ok());
    assert_eq!(res.unwrap(), vec![0..1]);
    let res = parse_pos("01");
    assert!(res.is_ok());
    assert_eq!(res.unwrap(), vec![0..1]);
    let res = parse_pos("1,3");
    assert!(res.is_ok());
    assert_eq!(res.unwrap(), vec![0..1, 2..3]);
    let res = parse_pos("001,0003");
    assert!(res.is_ok());
    assert_eq!(res.unwrap(), vec![0..1, 2..3]);
    let res = parse_pos("1-3");
    assert!(res.is_ok());
    assert_eq!(res.unwrap(), vec![0..3]);
    let res = parse_pos("0001-03");
    assert!(res.is_ok());
    assert_eq!(res.unwrap(), vec![0..3]);
    let res = parse_pos("1,7,3-5");
    assert!(res.is_ok());
    assert_eq!(res.unwrap(), vec![0..1, 6..7, 2..5]);
    let res = parse_pos("15,19-20");
    assert!(res.is_ok());
    assert_eq!(res.unwrap(), vec![14..15, 18..20]);
}

#[test]
fn test_extract_chars() {
    assert_eq!(
        extract_chars("", &[Range { start: 0, end: 1 }]),
        "".to_string()
    );
    assert_eq!(extract_chars("ábc", &[0..1]), "á".to_string());
    assert_eq!(extract_chars("ábc", &[0..1, 2..3]), "ác".to_string());
    assert_eq!(extract_chars("ábc", &[0..3]), "ábc".to_string());
    assert_eq!(extract_chars("ábc", &[2..3, 1..2]), "cb".to_string());
    assert_eq!(extract_chars("ábc", &[0..1, 1..2, 4..5]), "áb".to_string());
}

#[test]
fn test_extract_bytes() {
    assert_eq!(extract_bytes("ábc", &[0..1]), "�".to_string());
    assert_eq!(extract_bytes("ábc", &[0..2]), "á".to_string());
    assert_eq!(extract_bytes("ábc", &[0..3]), "áb".to_string());
    assert_eq!(extract_bytes("ábc", &[0..4]), "ábc".to_string());
    assert_eq!(extract_bytes("ábc", &[3..4, 2..3]), "cb".to_string());
    assert_eq!(extract_bytes("ábc", &[0..2, 5..6]), "á".to_string());
}

#[test]
fn test_extract_fields() {
    let rec: Vec<String> = vec!["Captain", "Sham", "12345"]
        .into_iter()
        .map(String::from)
        .collect();
    assert_eq!(extract_fields(&rec, &[0..1]), &["Captain"]);
    assert_eq!(extract_fields(&rec, &[1..2]), &["Sham"]);
    assert_eq!(extract_fields(&rec, &[0..1, 2..3]), &["Captain", "12345"]);
    assert_eq!(extract_fields(&rec, &[0..1, 3..4]), &["Captain"]);
    assert_eq!(extract_fields(&rec, &[1..2, 0..1]), &["Sham", "Captain"]);
}

#[test]
fn single_position() {
    assert_eq!(parse_single_position("1"), Ok(1));
    assert_eq!(parse_single_position("0042"), Ok(42));
    assert_eq!(parse_single_position(&usize::MAX.to_string()), Ok(usize::MAX));
    assert_eq!(parse_single_position(""), Err(CutError::NotPositive));
    assert_eq!(parse_single_position("000"), Err(CutError::NotPositive));
    assert_eq!(parse_single_position("1x2"), Err(CutError::InvalidChar('x')));
    assert_eq!(parse_single_position("-3"), Err(CutError::InvalidChar('-')));
    assert_eq!(parse_single_position("٣"), Err(CutError::InvalidChar('٣')));
    let huge = format!("{}0", usize::MAX);
    assert_eq!(parse_single_position(&huge), Err(CutError::TooLarge));
    assert_eq!(
        parse_single_position(&format!("{huge}x")),
        Err(CutError::TooLarge)
    );
}

#[test]
fn position_list_errors() {
    assert_eq!(parse_pos("3,2-2,x"), Err(CutError::Descending { start: 2, end: 2 }));
    assert_eq!(parse_pos("3,x,2-2"), Err(CutError::InvalidChar('x')));
    assert_eq!(parse_pos("1,,2"), Err(CutError::NotPositive));
    assert_eq!(parse_pos("1-2-3"), Err(CutError::InvalidChar('-')));
    assert_eq!(CutError::InvalidChar('x').message(), "Invalid char x");
    assert_eq!(CutError::NotPositive.message(), "Should be positive");
    assert_eq!(CutError::EmptyList.message(), "empty pos list");
    assert_eq!(
        CutError::Descending { start: 120, end: 7 }.message(),
        "First number in range (120) must be lower than second number (7)"
    );
}

#[test]
fn bytes_of_a_range() {
    assert_eq!(clip_bytes(b"abcdef", &(1..3)), b"bc".to_vec());
    assert_eq!(clip_bytes(b"abcdef", &(4..9)), b"ef".to_vec());
    assert_eq!(clip_bytes(b"abcdef", &(6..9)), Vec::<u8>::new());
    assert_eq!(clip_bytes(b"abcdef", &(7..9)), Vec::<u8>::new());
    assert_eq!(clip_bytes(b"abcdef", &(2..2)), Vec::<u8>::new());
}

#[test]
fn extract_follows_the_lists_given() {
    let list = |r: Range<usize>| Some(vec![r]);
    let args = ArgsExtract { fields: list(0..1), bytes: list(1..2), chars: list(2..3) };
    assert!(matches!(build_extract(&args), Ok(Extract::Fields(l)) if l == vec![0..1]));
    let args = ArgsExtract { fields: None, bytes: list(1..2), chars: list(2..3) };
    assert!(matches!(build_extract(&args), Ok(Extract::Chars(l)) if l == vec![2..3]));
    let args = ArgsExtract { fields: None, bytes: list(1..2), chars: None };
    assert!(matches!(build_extract(&args), Ok(Extract::Bytes(l)) if l == vec![1..2]));
}
