use cliutils::stream::{ByteSource, MemorySource, StreamError};
use cliutils::tail::backscan::BackScanner;
use cliutils::tail::error::TailError;

fn source(text: &str) -> MemorySource {
    MemorySource::new(text.as_bytes().to_vec())
}

fn reversed(text: &str) -> String {
    text.chars().rev().collect()
}

fn scan_all(text: &str, buf_size: usize) -> String {
    let mut fh = source(text);
    let mut scanner = BackScanner::new(&mut fh, buf_size).unwrap();
    let mut out = String::new();
    while let Some(byte) = scanner.next() {
        out.push(char::from(byte.unwrap()));
    }
    out
}

#[test]
fn backscanner_empty_file() {
    let mut fh = source("");
    assert!(BackScanner::new(&mut fh, 10).unwrap().peek().is_none());
    if BackScanner::new(&mut fh, 10).unwrap().next().is_some() {
        panic!("Should never get here");
    }
}

#[test]
fn backscanner_small_file() {
    assert_eq!("fedcba".to_string(), scan_all("abcdef", 10));
}

// big -> more than the buffer size
#[test]
fn backscanner_big_file() {
    let contents = "012345678901234567890123456789XXX".to_string();
    assert_eq!(reversed(&contents), scan_all(&contents, 10));
}

#[test]
fn backscanner_buffer_smaller_than_content() {
    for buf_size in 1..6 {
        assert_eq!("fedcba".to_string(), scan_all("abcdef", buf_size));
    }
}

#[test]
fn backscanner_empty_peek_before_and_after_exhaustion() {
    let mut fh = source("");
    let mut scanner = BackScanner::new(&mut fh, 4).unwrap();
    assert!(scanner.peek().is_none());
    assert!(scanner.next().is_none());
    assert!(scanner.peek().is_none());
    assert!(scanner.next().is_none());
}

#[test]
fn backscanner_buffer_divides_length() {
    // 6 = 2 * 3 = 3 * 2 = 6 * 1: no empty chunk, no byte lost
    for buf_size in [1, 2, 3, 6] {
        assert_eq!("fedcba".to_string(), scan_all("abcdef", buf_size));
    }
    let contents = "0123456789".repeat(3);
    assert_eq!(reversed(&contents), scan_all(&contents, 10));
    assert_eq!(reversed(&contents), scan_all(&contents, 30));
}

#[test]
fn backscanner_peek_does_not_consume() {
    let mut fh = source("abcd");
    let mut scanner = BackScanner::new(&mut fh, 2).unwrap();
    assert_eq!(scanner.peek().unwrap().unwrap(), b'd');
    assert_eq!(scanner.peek().unwrap().unwrap(), b'd');
    assert_eq!(scanner.next().unwrap().unwrap(), b'd');
    assert_eq!(scanner.next().unwrap().unwrap(), b'c');
    // the chunk in memory is used up, the one before it is not
    assert_eq!(scanner.peek().unwrap().unwrap(), b'b');
    assert_eq!(scanner.next().unwrap().unwrap(), b'b');
    assert_eq!(scanner.next().unwrap().unwrap(), b'a');
    assert!(scanner.peek().is_none());
    assert!(scanner.next().is_none());
}

#[test]
fn backscanner_drain_reverses() {
    let mut fh = source("hello\nworld\n");
    let mut scanner = BackScanner::new(&mut fh, 5).unwrap();
    assert_eq!(scanner.next().unwrap().unwrap(), b'\n');
    let rest = scanner.drain().unwrap();
    assert_eq!(rest, b"dlrow\nolleh".to_vec());
    assert!(scanner.next().is_none());
}

/// A source that hands out one byte per read, and fails from a given
/// call on.
struct Trickle {
    data: Vec<u8>,
    pos: u64,
    calls_left: usize,
}

impl Trickle {
    fn tick(&mut self, what: &str) -> Result<(), StreamError> {
        if self.calls_left == 0 {
            return Err(StreamError { description: format!("{what} refused") });
        }
        self.calls_left -= 1;
        Ok(())
    }
}

impl ByteSource for Trickle {
    fn seek_end(&mut self) -> Result<u64, StreamError> {
        self.tick("probe")?;
        self.pos = self.data.len() as u64;
        Ok(self.pos)
    }

    fn seek_start(&mut self, offset: u64) -> Result<(), StreamError> {
        self.tick("seek")?;
        self.pos = offset;
        Ok(())
    }

    fn read(&mut self, buf: &mut Vec<u8>, start: usize) -> Result<usize, StreamError> {
        self.tick("read")?;
        if start < buf.len() && self.pos < self.data.len() as u64 {
            buf[start] = self.data[self.pos as usize];
            self.pos += 1;
            Ok(1)
        } else {
            Ok(0)
        }
    }
}

#[test]
fn backscanner_short_reads() {
    let mut fh = Trickle { data: b"abcdefg".to_vec(), pos: 0, calls_left: usize::MAX };
    let mut scanner = BackScanner::new(&mut fh, 3).unwrap();
    assert_eq!(scanner.drain().unwrap(), b"gfedcba".to_vec());
}

#[test]
fn backscanner_reports_failures() {
    let mut fh = Trickle { data: b"abcdefg".to_vec(), pos: 0, calls_left: 0 };
    match BackScanner::new(&mut fh, 3) {
        Err(TailError::Probe(d)) => assert_eq!(d, "probe refused"),
        _ => panic!("a probe failure was expected"),
    }
    let mut fh = Trickle { data: b"abcdefg".to_vec(), pos: 0, calls_left: 1 };
    match BackScanner::new(&mut fh, 3) {
        Err(TailError::Seek(d)) => assert_eq!(d, "seek refused"),
        _ => panic!("a seek failure was expected"),
    }
    let mut fh = Trickle { data: b"abcdefg".to_vec(), pos: 0, calls_left: 2 };
    match BackScanner::new(&mut fh, 3) {
        Err(e @ TailError::Read(_)) => assert_eq!(e.message(), "read failed: read refused"),
        _ => panic!("a read failure was expected"),
    }
    // probe, seek, two reads for the last chunk "g": then the seek for "def" fails
    let mut fh = Trickle { data: b"abcdefg".to_vec(), pos: 0, calls_left: 4 };
    let mut scanner = BackScanner::new(&mut fh, 3).unwrap();
    assert_eq!(scanner.next().unwrap().unwrap(), b'g');
    assert!(matches!(scanner.next(), Some(Err(TailError::Seek(_)))));
}

#[test]
fn a_failed_refill_is_what_next_returns() {
    // probe, seek and two reads load the last chunk "g"; the next seek fails
    let mut fh = Trickle { data: b"abcdefg".to_vec(), pos: 0, calls_left: 4 };
    let mut scanner = BackScanner::new(&mut fh, 3).unwrap();
    assert_eq!(scanner.next().unwrap().unwrap(), b'g');
    match scanner.peek() {
        Some(Err(TailError::Seek(d))) => assert_eq!(d, "seek refused"),
        _ => panic!("the failed seek was expected"),
    }
    match scanner.next() {
        Some(Err(TailError::Seek(d))) => assert_eq!(d, "seek refused"),
        _ => panic!("the failed seek was expected"),
    }
    // the seek goes through, the read fails
    let mut fh = Trickle { data: b"abcdefg".to_vec(), pos: 0, calls_left: 5 };
    let mut scanner = BackScanner::new(&mut fh, 3).unwrap();
    assert_eq!(scanner.next().unwrap().unwrap(), b'g');
    match scanner.next() {
        Some(Err(e @ TailError::Read(_))) => assert_eq!(e.message(), "read failed: read refused"),
        _ => panic!("the failed read was expected"),
    }
}

#[test]
fn looks_and_what_becomes_of_them() {
    let mut fh = source("ab");
    let mut scanner = BackScanner::new(&mut fh, 8).unwrap();
    assert!(matches!(scanner.look(Ok(())), Some(Ok(b'b'))));
    let failed = Err(TailError::Read("gone".to_string()));
    assert!(matches!(scanner.look(failed), Some(Err(TailError::Read(d))) if d == "gone"));
    let failed = Some(Err(TailError::Seek("gone".to_string())));
    assert!(matches!(scanner.consume(failed), Some(Err(TailError::Seek(d))) if d == "gone"));
    assert!(matches!(scanner.look(Ok(())), Some(Ok(b'b'))));
    assert!(scanner.consume(None).is_none());
    assert!(matches!(scanner.consume(Some(Ok(b'b'))), Some(Ok(b'b'))));
    assert!(matches!(scanner.look(Ok(())), Some(Ok(b'a'))));
    assert!(matches!(scanner.consume(Some(Ok(b'a'))), Some(Ok(b'a'))));
    assert!(scanner.look(Ok(())).is_none());
    let failed = Err(TailError::Seek("late".to_string()));
    assert!(matches!(
        BackScanner::started(scanner, failed),
        Err(TailError::Seek(d)) if d == "late"
    ));
    let mut fh = source("ab");
    let scanner = BackScanner::new(&mut fh, 8).unwrap();
    let mut scanner = BackScanner::started(scanner, Ok(())).unwrap();
    assert_eq!(scanner.drain().unwrap(), b"ba".to_vec());
}
