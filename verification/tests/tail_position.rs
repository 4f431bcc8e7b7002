use cliutils::number::NumberError;
use cliutils::tail::position::{parse_pos, ParsePosError, Pos, Pos::FromEnd, Pos::FromStart};

#[test]
fn test_parse_pos() {
    // no prefix -> from end
    assert_eq!(parse_pos("3").unwrap(), FromEnd(3));

    // leading "+"
    assert_eq!(parse_pos("+3").unwrap(), FromStart(2));

    // An explicit "-" prefix is the same as no prefix
    assert_eq!(parse_pos("-3").unwrap(), FromEnd(3));

    // Zero is zero
    assert_eq!(parse_pos("0").unwrap(), FromEnd(0));

    // Plus zero is special
    assert_eq!(parse_pos("+0").unwrap(), FromStart(0));

    // Test boundaries
    assert_eq!(
        parse_pos(format!("+{}", usize::MAX).as_str()).unwrap(),
        FromStart(usize::MAX - 1)
    );

    // A floating-point value is invalid
    assert!(parse_pos("3.14")
        .unwrap_err()
        .message()
        .contains("invalid digit found in string"));

    // Any non-integer string is invalid
    assert!(parse_pos("foo")
        .unwrap_err()
        .message()
        .contains("invalid digit found in string"));
}

#[test]
fn parse_pos_plus_one_skips_nothing() {
    assert_eq!(parse_pos("+1").unwrap(), FromStart(0));
    assert_eq!(parse_pos("+0").unwrap(), parse_pos("+1").unwrap());
    assert_eq!(parse_pos("+2").unwrap(), FromStart(1));
}

#[test]
fn parse_pos_rejects_empty() {
    match parse_pos("") {
        Err(e @ ParsePosError::Empty) => assert_eq!(e.message(), "Position arg can't be empty"),
        other => panic!("unexpected {other:?}"),
    }
}

#[test]
fn parse_pos_messages() {
    assert_eq!(
        parse_pos("3.14").unwrap_err().message(),
        "3.14: invalid digit found in string"
    );
    assert_eq!(
        parse_pos("+").unwrap_err().message(),
        "+: cannot parse integer from empty string"
    );
    assert_eq!(
        parse_pos("-").unwrap_err().message(),
        "-: cannot parse integer from empty string"
    );
    let huge = format!("{}0", usize::MAX);
    assert_eq!(
        parse_pos(&huge).unwrap_err().message(),
        format!("{huge}: number too large to fit in target type")
    );
    assert!(matches!(
        parse_pos("12a"),
        Err(ParsePosError::Number { kind: NumberError::InvalidDigit, .. })
    ));
}

#[test]
fn parse_pos_takes_one_sign_and_digits() {
    let sign: fn(usize) -> Pos = FromEnd;
    let texts = [
        "7", "007", "+7", "-7", "++7", "-+7", "+-7", "--7", "7+", " 7", "", "+", "-", "٣", "+ 7",
        "7.0", "0x7", "+07",
    ];
    for text in texts {
        let rest = match text.chars().next() {
            Some('+') | Some('-') => &text[1..],
            _ => text,
        };
        let expected = if !rest.is_empty() && rest.chars().all(|c| c.is_ascii_digit()) {
            rest.parse::<usize>().ok()
        } else {
            None
        };
        let got = parse_pos(text).ok().map(|p| match p {
            FromStart(n) => n + 1,
            FromEnd(n) => n,
        });
        assert_eq!(got, expected, "{text:?}");
    }
    assert_eq!(parse_pos(&usize::MAX.to_string()).unwrap(), sign(usize::MAX));
}

#[test]
fn parse_pos_refuses_a_second_sign() {
    for text in ["++3", "-+3", "+-3", "--3"] {
        match parse_pos(text) {
            Err(e @ ParsePosError::Number { kind: NumberError::InvalidDigit, .. }) => {
                assert_eq!(e.message(), format!("{text}: invalid digit found in string"))
            }
            other => panic!("{text:?} gave {other:?}"),
        }
    }
    assert_eq!(parse_pos("+3").unwrap(), FromStart(2));
    assert_eq!(parse_pos("-3").unwrap(), FromEnd(3));
}
