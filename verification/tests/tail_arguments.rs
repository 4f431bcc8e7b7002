use cliutils::stream::MemorySource;
use cliutils::tail::position::{parse_pos, Mode, Pos};
use cliutils::tail::resolve::resolve_offset;

const EMPTY: &str = "";
const ONE: &str = "Öne line, four wordś.\n";
const TWO: &str = "Two lines.\nFour words.\n";
const THREE: &str = "Three\r\nlines,\r\nfour words.\r\n";
const TWELVE: &str = "one\ntwo\nthree\nfour\nfive\nsix\nseven\neight\nnine\nten\neleven\ntwelve\n";
const OPEN: &str = "no\nnewline\nat the end";

/// What `tail` writes of `content` for the position `arg`, counted in
/// lines or in bytes.
fn tail(content: &str, lines: bool, arg: &str) -> Vec<u8> {
    let pos = parse_pos(arg).unwrap();
    let mode = if lines {
        Mode::Lines(pos)
    } else {
        Mode::Bytes(pos)
    };
    let mut fh = MemorySource::new(content.as_bytes().to_vec());
    let offset = resolve_offset(&mode, &mut fh).unwrap() as usize;
    content.as_bytes()[offset..].to_vec()
}

/// The same, worked out on the whole content at once.
fn expected(content: &str, lines: bool, arg: &str) -> Vec<u8> {
    let (from_start, number) = match arg.strip_prefix('+') {
        Some(rest) => (true, rest.parse::<usize>().unwrap()),
        None => (false, arg.trim_start_matches('-').parse::<usize>().unwrap()),
    };
    let bytes = content.as_bytes();
    if lines {
        let all: Vec<&[u8]> = bytes.split_inclusive(|b| *b == b'\n').collect();
        let skip = if from_start {
            number.saturating_sub(1).min(all.len())
        } else {
            all.len().saturating_sub(number)
        };
        all[skip..].concat()
    } else {
        let skip = if from_start {
            number.saturating_sub(1).min(bytes.len())
        } else {
            bytes.len().saturating_sub(number)
        };
        bytes[skip..].to_vec()
    }
}

#[test]
fn tails_by_argument() {
    let numbers = ["0", "1", "2", "3", "4", "8", "11", "12", "13", "200"];
    for content in [EMPTY, ONE, TWO, THREE, TWELVE, OPEN] {
        for lines in [true, false] {
            for number in numbers {
                for sign in ["", "-", "+"] {
                    let arg = format!("{sign}{number}");
                    assert_eq!(
                        tail(content, lines, &arg),
                        expected(content, lines, &arg),
                        "{arg} of {content:?}, lines: {lines}"
                    );
                }
            }
        }
    }
}

#[test]
fn tails_of_lines() {
    let text = |bytes: Vec<u8>| String::from_utf8(bytes).unwrap();
    assert_eq!(text(tail(TWELVE, true, "3")), "ten\neleven\ntwelve\n");
    assert_eq!(text(tail(TWELVE, true, "-1")), "twelve\n");
    assert_eq!(text(tail(TWELVE, true, "+11")), "eleven\ntwelve\n");
    assert_eq!(text(tail(TWELVE, true, "+0")), TWELVE);
    assert_eq!(text(tail(TWELVE, true, "+1")), TWELVE);
    assert_eq!(text(tail(TWELVE, true, "+13")), "");
    assert_eq!(text(tail(TWELVE, true, "0")), "");
    assert_eq!(text(tail(TWELVE, true, "200")), TWELVE);
    assert_eq!(text(tail(THREE, true, "2")), "lines,\r\nfour words.\r\n");
    assert_eq!(text(tail(OPEN, true, "1")), "at the end");
    assert_eq!(text(tail(OPEN, true, "2")), "newline\nat the end");
    assert_eq!(text(tail(OPEN, true, "+3")), "at the end");
    assert_eq!(text(tail(OPEN, true, "+4")), "");
    assert_eq!(text(tail(EMPTY, true, "4")), "");
}

#[test]
fn tails_of_bytes() {
    assert_eq!(tail(TWELVE, false, "3"), b"ve\n");
    assert_eq!(tail(TWELVE, false, "+3"), &TWELVE.as_bytes()[2..]);
    assert_eq!(tail(TWELVE, false, "+0"), TWELVE.as_bytes());
    assert_eq!(tail(TWELVE, false, "0"), b"");
    assert_eq!(tail(TWELVE, false, "-200"), TWELVE.as_bytes());
    assert_eq!(tail(TWELVE, false, "+200"), b"");
    // bytes are counted, not characters
    assert_eq!(tail(ONE, false, "3"), [0x9b, b'.', b'\n']);
    assert_eq!(tail(ONE, false, "+2"), &ONE.as_bytes()[1..]);
    assert_eq!(tail(EMPTY, false, "8"), b"");
}
