use cliutils::cat::Config;
use cliutils::ls::{format_output, format_permissions, long_rows, LongEntry};
use cliutils::number::{parse_decimal, parse_digits, NumberError};
use cliutils::tail::header::file_header;
use cliutils::text::{chars_of, decimal_text, string_of};
use cliutils::wc::{parse_args, FileInfo, Flags};

fn long_entry(path: &str, is_dir: bool, mode: u32, size: u64) -> LongEntry {
    LongEntry {
        path: path.to_string(),
        is_dir,
        mode,
        nlink: 1,
        uid: 1000,
        user: Some("ken".to_string()),
        gid: 50,
        group: None,
        size,
        modified: "2021-03-14 15:09:26".to_string(),
    }
}

fn long_match(line: &str, expected_name: &str, expected_perms: &str, expected_size: Option<&str>) {
    let parts: Vec<_> = line.split_whitespace().collect();
    assert!(!parts.is_empty() && parts.len() <= 10);

    let perms = parts.first().unwrap();
    assert_eq!(perms, &expected_perms);

    if let Some(size) = expected_size {
        let file_size = parts.get(4).unwrap();
        assert_eq!(file_size, &size);
    }

    let display_name = parts.last().unwrap();
    assert_eq!(display_name, &expected_name);
}

#[test]
fn test_format_output_one() {
    let bustle_path = "tests/inputs/bustle.txt";
    let bustle = long_entry(bustle_path, false, 0o100644, 193);

    let out = format_output(&[bustle]);
    let lines: Vec<&str> = out.split('\n').filter(|s| !s.is_empty()).collect();
    assert_eq!(lines.len(), 1);

    let line1 = lines.first().unwrap();
    long_match(line1, bustle_path, "-rw-r--r--", Some("193"));
}

#[test]
fn test_format_output_two() {
    let out = format_output(&[
        long_entry("tests/inputs/dir", true, 0o40755, 4096),
        long_entry("tests/inputs/empty.txt", false, 0o100644, 0),
    ]);
    let mut lines: Vec<&str> = out.split('\n').filter(|s| !s.is_empty()).collect();
    lines.sort();
    assert_eq!(lines.len(), 2);

    let empty_line = lines.remove(0);
    long_match(empty_line, "tests/inputs/empty.txt", "-rw-r--r--", Some("0"));

    let dir_line = lines.remove(0);
    long_match(dir_line, "tests/inputs/dir", "drwxr-xr-x", None);
}

#[test]
fn long_listing_is_a_table() {
    let out = format_output(&[
        long_entry("a", true, 0o755, 4096),
        long_entry("bb", false, 0o600, 7),
    ]);
    assert_eq!(
        out,
        "drwxr-xr-x  1  ken  50  4096  2021-03-14 15:09:26  a\n\
         -rw-------  1  ken  50     7  2021-03-14 15:09:26  bb\n"
    );
    assert_eq!(format_output(&[]), "");
    let rows = long_rows(&[long_entry("a", true, 0o755, 4096)]);
    assert_eq!(rows, [["d", "rwxr-xr-x", "1", "ken", "50", "4096", "2021-03-14 15:09:26", "a"]]);
}

#[test]
fn permissions() {
    assert_eq!(format_permissions(0o755), "rwxr-xr-x");
    assert_eq!(format_permissions(0o421), "r---w---x");
    assert_eq!(format_permissions(0o000), "---------");
    assert_eq!(format_permissions(0o777), "rwxrwxrwx");
    assert_eq!(format_permissions(0o100644), "rw-r--r--");
    assert_eq!(format_permissions(u32::MAX), "rwxrwxrwx");
    assert_eq!(format_permissions(0o124), "--x-w-r--");
}

#[test]
fn tail_headers() {
    let mut need_newline_before = false;
    assert_eq!(file_header("a", false, 1, &mut need_newline_before), "");
    assert!(!need_newline_before);
    assert_eq!(file_header("a", true, 2, &mut need_newline_before), "");
    assert!(!need_newline_before);
    assert_eq!(file_header("a", false, 2, &mut need_newline_before), "==> a <==\n");
    assert!(need_newline_before);
    assert_eq!(file_header("b", false, 2, &mut need_newline_before), "\n==> b <==\n");
    assert!(need_newline_before);
    assert_eq!(file_header("b", true, 2, &mut need_newline_before), "");
    assert!(need_newline_before);
}

#[test]
fn numbers_are_read_as_std_reads_them() {
    let texts = [
        "0", "7", "007", "+7", "+", "-", "", "-7", "++7", "7+", "12a", "a12", " 1", "1 ", "٣",
        "255", "256", "99999999999999999999999", "99999999999999999999999a", "a99999999999999999999999",
        "18446744073709551615", "18446744073709551616", "+18446744073709551615", "4294967295",
        "4294967296", "65535", "65536",
    ];
    for text in texts {
        let chars = chars_of(text);
        let expect = |r: Result<u64, std::num::ParseIntError>| -> Result<u64, NumberError> {
            r.map_err(|e| match e.kind() {
                std::num::IntErrorKind::Empty => NumberError::Empty,
                std::num::IntErrorKind::InvalidDigit => NumberError::InvalidDigit,
                _ => NumberError::PosOverflow,
            })
        };
        assert_eq!(parse_decimal(&chars, 0, u64::MAX), expect(text.parse::<u64>()), "{text:?}");
        assert_eq!(
            parse_decimal(&chars, 0, u32::MAX.into()),
            expect(text.parse::<u32>().map(u64::from)),
            "{text:?}"
        );
        assert_eq!(
            parse_decimal(&chars, 0, 255),
            expect(text.parse::<u8>().map(u64::from)),
            "{text:?}"
        );
        // digits alone are read alike, and a sign is no digit
        let digits = if text.starts_with('+') {
            Err(NumberError::InvalidDigit)
        } else {
            expect(text.parse::<u64>())
        };
        assert_eq!(parse_digits(&chars, 0, u64::MAX), digits, "{text:?}");
    }
    let chars = chars_of("ab12");
    assert_eq!(parse_digits(&chars, 2, 100), Ok(12));
    assert_eq!(parse_digits(&chars, 2, 11), Err(NumberError::PosOverflow));
    assert_eq!(parse_digits(&chars, 4, 100), Err(NumberError::Empty));
    assert_eq!(parse_digits(&chars, 0, 100), Err(NumberError::InvalidDigit));
    assert_eq!(parse_decimal(&chars, 2, 100), Ok(12));
    assert_eq!(parse_decimal(&chars, 4, 100), Err(NumberError::Empty));
    assert_eq!(parse_decimal(&chars, 1, 100), Err(NumberError::InvalidDigit));
    assert_eq!(NumberError::Empty.description(), "cannot parse integer from empty string");
    assert_eq!(NumberError::InvalidDigit.description(), "invalid digit found in string");
    assert_eq!(NumberError::PosOverflow.description(), "number too large to fit in target type");
}

#[test]
fn texts() {
    for n in [0, 1, 9, 10, 11, 99, 100, 1234567890, u64::MAX] {
        assert_eq!(decimal_text(n), n.to_string());
    }
    let chars = chars_of("héllo");
    assert_eq!(chars, ['h', 'é', 'l', 'l', 'o']);
    assert_eq!(string_of(&chars, 1, 4), "éll");
    assert_eq!(string_of(&chars, 2, 2), "");
}

#[test]
fn what_to_count() {
    let none = Flags { lines: false, words: false, bytes: false, chars: false };
    assert_eq!(
        parse_args(none),
        Flags { lines: true, words: true, bytes: true, chars: false }
    );
    let chars = Flags { chars: true, ..none };
    assert_eq!(parse_args(chars), chars);
    let words = Flags { words: true, ..none };
    assert_eq!(parse_args(words), words);
    assert_eq!(
        FileInfo::default(),
        FileInfo { num_lines: 0, num_words: 0, num_bytes: 0, num_chars: 0 }
    );
}

#[test]
fn what_to_concatenate() {
    let config = Config::new(None, true, false);
    assert_eq!(config.input_files(), &["-"]);
    assert!(config.numbers_lines());
    assert!(!config.numbers_nonblank_lines());
    let config = Config::new(Some(vec!["a".to_string(), "b".to_string()]), false, true);
    assert_eq!(config.input_files(), &["a", "b"]);
    assert!(!config.numbers_lines());
    assert!(config.numbers_nonblank_lines());
    let config = Config::new(Some(vec![]), false, false);
    assert!(config.input_files().is_empty());
}
