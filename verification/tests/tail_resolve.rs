use cliutils::stream::{ByteSource, MemorySource, StreamError};
use cliutils::tail::error::{probed, sought, was_read, TailError};
use cliutils::tail::position::{Mode, Pos, SeekPos};
use cliutils::tail::resolve::{
    bytes_seek_pos, bytes_target, end_target, lines_from_end, lines_from_start, lines_seek_pos, lines_seek_pos_buffered,
    resolve_offset, seek_pos,
};

fn source(text: &str) -> MemorySource {
    MemorySource::new(text.as_bytes().to_vec())
}

/// The absolute offset that `target` denotes in `text`.
fn absolute(target: SeekPos, text: &str) -> usize {
    match target {
        SeekPos::Start(n) => n as usize,
        SeekPos::End(d) => (text.len() as i64 + d) as usize,
    }
}

fn lines_offset(text: &str, pos: Pos, buf_size: usize) -> usize {
    let mut fh = source(text);
    absolute(lines_seek_pos_buffered(&pos, &mut fh, buf_size).unwrap(), text)
}

fn bytes_offset(text: &str, pos: Pos) -> usize {
    let mut fh = source(text);
    absolute(bytes_seek_pos(&pos, &mut fh).unwrap(), text)
}

const TEN_LINES: &str = "one\ntwo\nthree\nfour\nfive\nsix\nseven\neight\nnine\nten\n";

#[test]
fn bytes_from_start_is_clamped_to_length() {
    let mut fh = source("abcdef");
    assert_eq!(bytes_seek_pos(&Pos::FromStart(0), &mut fh).unwrap(), SeekPos::Start(0));
    assert_eq!(bytes_seek_pos(&Pos::FromStart(4), &mut fh).unwrap(), SeekPos::Start(4));
    assert_eq!(bytes_seek_pos(&Pos::FromStart(6), &mut fh).unwrap(), SeekPos::Start(6));
    assert_eq!(bytes_seek_pos(&Pos::FromStart(7), &mut fh).unwrap(), SeekPos::Start(6));
    assert_eq!(
        bytes_seek_pos(&Pos::FromStart(usize::MAX), &mut fh).unwrap(),
        SeekPos::Start(6)
    );
}

#[test]
fn bytes_from_end_is_clamped_to_start() {
    let mut fh = source("abcdef");
    assert_eq!(bytes_seek_pos(&Pos::FromEnd(0), &mut fh).unwrap(), SeekPos::End(0));
    assert_eq!(bytes_seek_pos(&Pos::FromEnd(2), &mut fh).unwrap(), SeekPos::End(-2));
    assert_eq!(bytes_seek_pos(&Pos::FromEnd(6), &mut fh).unwrap(), SeekPos::End(-6));
    assert_eq!(bytes_seek_pos(&Pos::FromEnd(200), &mut fh).unwrap(), SeekPos::End(-6));
    assert_eq!(bytes_offset("abcdef", Pos::FromEnd(2)), 4);
    assert_eq!(bytes_offset("abcdef", Pos::FromEnd(200)), 0);
}

#[test]
fn bytes_of_empty_source() {
    assert_eq!(bytes_offset("", Pos::FromStart(3)), 0);
    assert_eq!(bytes_offset("", Pos::FromEnd(3)), 0);
}

#[test]
fn lines_from_end_zero_is_the_end() {
    for text in ["", "a", "a\n", "a\nb", TEN_LINES] {
        let mut fh = source(text);
        assert_eq!(lines_seek_pos(&Pos::FromEnd(0), &mut fh).unwrap(), SeekPos::End(0));
        assert_eq!(lines_offset(text, Pos::FromEnd(0), 3), text.len());
    }
}

#[test]
fn lines_from_end_of_terminated_lines() {
    // the last k of the ten lines begin where line 10 - k + 1 begins
    let starts = [0, 4, 8, 14, 19, 24, 28, 34, 40, 45, 49];
    for buf_size in [1, 2, 3, 7, 10, 49, 50, 4096] {
        for k in 0..=10 {
            assert_eq!(
                lines_offset(TEN_LINES, Pos::FromEnd(k), buf_size),
                starts[10 - k],
                "last {k} lines, buffer of {buf_size}"
            );
        }
        assert_eq!(lines_offset(TEN_LINES, Pos::FromEnd(11), buf_size), 0);
        assert_eq!(lines_offset(TEN_LINES, Pos::FromEnd(200), buf_size), 0);
        assert_eq!(lines_offset(TEN_LINES, Pos::FromEnd(usize::MAX), buf_size), 0);
    }
}

#[test]
fn lines_from_end_without_final_newline() {
    for buf_size in [1, 2, 3, 5, 4096] {
        assert_eq!(lines_offset("one\ntwo\nthree", Pos::FromEnd(1), buf_size), 8);
        assert_eq!(lines_offset("one\ntwo\nthree", Pos::FromEnd(2), buf_size), 4);
        assert_eq!(lines_offset("one\ntwo\nthree", Pos::FromEnd(3), buf_size), 0);
        assert_eq!(lines_offset("one\ntwo\nthree", Pos::FromEnd(4), buf_size), 0);
        assert_eq!(lines_offset("three", Pos::FromEnd(1), buf_size), 0);
    }
    let mut fh = source("one\ntwo\nthree");
    assert_eq!(lines_seek_pos(&Pos::FromEnd(1), &mut fh).unwrap(), SeekPos::End(-5));
}

#[test]
fn lines_from_end_with_final_newline() {
    let mut fh = source("one\ntwo\nthree\n");
    assert_eq!(lines_seek_pos(&Pos::FromEnd(1), &mut fh).unwrap(), SeekPos::End(-6));
    assert_eq!(lines_seek_pos(&Pos::FromEnd(2), &mut fh).unwrap(), SeekPos::End(-10));
    assert_eq!(lines_seek_pos(&Pos::FromEnd(3), &mut fh).unwrap(), SeekPos::End(-14));
    assert_eq!(lines_seek_pos(&Pos::FromEnd(9), &mut fh).unwrap(), SeekPos::End(-14));
}

#[test]
fn lines_from_end_of_blank_lines() {
    assert_eq!(lines_offset("\n\n\n", Pos::FromEnd(1), 2), 2);
    assert_eq!(lines_offset("\n\n\n", Pos::FromEnd(2), 2), 1);
    assert_eq!(lines_offset("\n\n\n", Pos::FromEnd(3), 2), 0);
    assert_eq!(lines_offset("\n", Pos::FromEnd(1), 2), 0);
    assert_eq!(lines_offset("", Pos::FromEnd(1), 2), 0);
}

#[test]
fn lines_skipped_from_start() {
    let starts = [0, 4, 8, 14, 19, 24, 28, 34, 40, 45, 49];
    for buf_size in [1, 2, 3, 7, 10, 49, 50, 4096] {
        for skip in 0..=10 {
            assert_eq!(
                lines_offset(TEN_LINES, Pos::FromStart(skip), buf_size),
                starts[skip],
                "skip {skip} lines, buffer of {buf_size}"
            );
        }
        assert_eq!(lines_offset(TEN_LINES, Pos::FromStart(11), buf_size), 49);
        assert_eq!(lines_offset(TEN_LINES, Pos::FromStart(usize::MAX), buf_size), 49);
        assert_eq!(lines_offset("one\ntwo\nthree", Pos::FromStart(2), buf_size), 8);
        assert_eq!(lines_offset("one\ntwo\nthree", Pos::FromStart(3), buf_size), 13);
        assert_eq!(lines_offset("", Pos::FromStart(1), buf_size), 0);
    }
    let mut fh = source(TEN_LINES);
    assert_eq!(lines_seek_pos(&Pos::FromStart(0), &mut fh).unwrap(), SeekPos::Start(0));
    assert_eq!(lines_seek_pos(&Pos::FromStart(2), &mut fh).unwrap(), SeekPos::Start(8));
}

#[test]
fn lines_from_start_does_not_rely_on_the_read_position() {
    let mut fh = source(TEN_LINES);
    assert_eq!(lines_seek_pos(&Pos::FromStart(9), &mut fh).unwrap(), SeekPos::Start(45));
    assert_eq!(lines_seek_pos(&Pos::FromStart(1), &mut fh).unwrap(), SeekPos::Start(4));
    assert_eq!(lines_seek_pos(&Pos::FromEnd(1), &mut fh).unwrap(), SeekPos::End(-4));
    assert_eq!(lines_seek_pos(&Pos::FromStart(1), &mut fh).unwrap(), SeekPos::Start(4));
}

#[test]
fn offset_splits_the_content() {
    let texts = ["", "\n", "abc", "abc\n", "one\ntwo\nthree", TEN_LINES];
    for text in texts {
        for n in [0, 1, 2, 3, 10, 11, 1000] {
            for pos in [Pos::FromStart(n), Pos::FromEnd(n)] {
                for mode in [Mode::Lines(pos), Mode::Bytes(pos)] {
                    let mut fh = source(text);
                    let at = absolute(seek_pos(&mode, &mut fh).unwrap(), text);
                    assert!(at <= text.len());
                    let bytes = text.as_bytes();
                    assert_eq!([&bytes[..at], &bytes[at..]].concat(), bytes);
                    let content = fh.into_inner();
                    assert_eq!(content, bytes);
                }
            }
        }
    }
}

#[test]
fn seek_pos_follows_the_mode() {
    let mut fh = source("one\ntwo\nthree\n");
    assert_eq!(seek_pos(&Mode::Lines(Pos::FromEnd(2)), &mut fh).unwrap(), SeekPos::End(-10));
    assert_eq!(seek_pos(&Mode::Bytes(Pos::FromEnd(2)), &mut fh).unwrap(), SeekPos::End(-2));
    assert_eq!(seek_pos(&Mode::Lines(Pos::FromStart(2)), &mut fh).unwrap(), SeekPos::Start(8));
    assert_eq!(seek_pos(&Mode::Bytes(Pos::FromStart(2)), &mut fh).unwrap(), SeekPos::Start(2));
}

#[test]
fn lines_across_the_default_buffer() {
    let line = "0123456789abcdef0123456789abcde\n"; // 32 bytes
    let text = line.repeat(1000);
    for k in [1, 127, 128, 129, 256, 999, 1000] {
        let mut fh = source(&text);
        let target = lines_seek_pos(&Pos::FromEnd(k), &mut fh).unwrap();
        assert_eq!(target, SeekPos::End(-32 * k as i64));
        let target = lines_seek_pos(&Pos::FromStart(k), &mut fh).unwrap();
        assert_eq!(target, SeekPos::Start(32 * k as u64));
    }
}

/// A source whose calls fail from a given call on.
struct Flaky {
    inner: MemorySource,
    calls_left: usize,
}

impl Flaky {
    fn new(text: &str, calls_left: usize) -> Flaky {
        Flaky { inner: source(text), calls_left }
    }

    fn tick(&mut self, what: &str) -> Result<(), StreamError> {
        if self.calls_left == 0 {
            return Err(StreamError { description: format!("{what} refused") });
        }
        self.calls_left -= 1;
        Ok(())
    }
}

impl ByteSource for Flaky {
    fn seek_end(&mut self) -> Result<u64, StreamError> {
        self.tick("probe")?;
        self.inner.seek_end()
    }

    fn seek_start(&mut self, offset: u64) -> Result<(), StreamError> {
        self.tick("seek")?;
        self.inner.seek_start(offset)
    }

    fn read(&mut self, buf: &mut Vec<u8>, start: usize) -> Result<usize, StreamError> {
        self.tick("read")?;
        self.inner.read(buf, start)
    }
}

#[test]
fn failures_of_the_source_come_through() {
    let text = "one\ntwo\nthree\n";
    let message = |r: Result<SeekPos, TailError>| r.unwrap_err().message();

    let mut fh = Flaky::new(text, 0);
    assert_eq!(
        message(bytes_seek_pos(&Pos::FromEnd(1), &mut fh)),
        "length probe failed: probe refused"
    );
    assert!(matches!(
        lines_seek_pos(&Pos::FromEnd(1), &mut fh),
        Err(TailError::Probe(_))
    ));
    assert_eq!(
        message(lines_seek_pos(&Pos::FromStart(1), &mut fh)),
        "seek failed: seek refused"
    );
    // taking no line needs no look at the source
    assert_eq!(lines_seek_pos(&Pos::FromEnd(0), &mut fh).unwrap(), SeekPos::End(0));

    let mut fh = Flaky::new(text, 1);
    assert!(matches!(lines_seek_pos(&Pos::FromEnd(1), &mut fh), Err(TailError::Seek(_))));
    let mut fh = Flaky::new(text, 1);
    assert_eq!(
        message(lines_seek_pos(&Pos::FromStart(1), &mut fh)),
        "read failed: read refused"
    );
    let mut fh = Flaky::new(text, 2);
    assert!(matches!(lines_seek_pos(&Pos::FromEnd(1), &mut fh), Err(TailError::Read(_))));

    // with a buffer of four bytes, the last two lines are not to be had
    // from the last chunk alone
    for calls in 0..5 {
        let mut fh = Flaky::new(text, calls);
        assert!(lines_seek_pos_buffered(&Pos::FromEnd(2), &mut fh, 4).is_err());
    }
    let mut fh = Flaky::new(text, 100);
    assert_eq!(
        lines_seek_pos_buffered(&Pos::FromEnd(2), &mut fh, 4).unwrap(),
        SeekPos::End(-10)
    );
}

/// A source that reports a length beyond what can be scanned.
struct Vast;

impl ByteSource for Vast {
    fn seek_end(&mut self) -> Result<u64, StreamError> {
        Ok(u64::MAX)
    }

    fn seek_start(&mut self, _offset: u64) -> Result<(), StreamError> {
        Ok(())
    }

    fn read(&mut self, _buf: &mut Vec<u8>, _start: usize) -> Result<usize, StreamError> {
        Ok(0)
    }
}

#[test]
fn displacements_out_of_range_are_refused() {
    let taken = usize::try_from(i64::MAX).unwrap_or(usize::MAX);
    match bytes_seek_pos(&Pos::FromEnd(usize::MAX), &mut Vast) {
        Err(e @ TailError::Overflow) => assert_eq!(e.message(), "offset out of range"),
        other => panic!("unexpected {other:?}"),
    }
    if usize::BITS == 64 {
        assert_eq!(
            bytes_seek_pos(&Pos::FromEnd(taken), &mut Vast).unwrap(),
            SeekPos::End(-i64::MAX)
        );
        assert!(matches!(
            bytes_seek_pos(&Pos::FromEnd(taken + 1), &mut Vast),
            Err(TailError::Overflow)
        ));
        assert_eq!(
            bytes_seek_pos(&Pos::FromStart(usize::MAX), &mut Vast).unwrap(),
            SeekPos::Start(u64::MAX)
        );
    }
}

#[test]
fn bytes_are_counted_where_both_are_given() {
    assert_eq!(Mode::of(Pos::FromEnd(10), None), Mode::Lines(Pos::FromEnd(10)));
    assert_eq!(
        Mode::of(Pos::FromEnd(10), Some(Pos::FromStart(3))),
        Mode::Bytes(Pos::FromStart(3))
    );
}

#[test]
fn offsets_from_the_start() {
    let text = "one\ntwo\nthree";
    let offset = |mode: Mode| resolve_offset(&mode, &mut source(text)).unwrap();
    assert_eq!(offset(Mode::Bytes(Pos::FromStart(5))), 5);
    assert_eq!(offset(Mode::Bytes(Pos::FromStart(50))), 13);
    assert_eq!(offset(Mode::Bytes(Pos::FromEnd(5))), 8);
    assert_eq!(offset(Mode::Bytes(Pos::FromEnd(50))), 0);
    assert_eq!(offset(Mode::Lines(Pos::FromStart(1))), 4);
    assert_eq!(offset(Mode::Lines(Pos::FromEnd(1))), 8);
    assert_eq!(offset(Mode::Lines(Pos::FromEnd(0))), 13);
    assert_eq!(offset(Mode::Lines(Pos::FromEnd(9))), 0);
    let mut fh = Flaky::new(text, 0);
    assert!(matches!(
        resolve_offset(&Mode::Lines(Pos::FromEnd(0)), &mut fh),
        Err(TailError::Probe(_))
    ));
}

#[test]
fn absolute_offsets() {
    assert_eq!(SeekPos::Start(7).absolute_in(3), Some(7));
    assert_eq!(SeekPos::End(0).absolute_in(3), Some(3));
    assert_eq!(SeekPos::End(-3).absolute_in(3), Some(0));
    assert_eq!(SeekPos::End(-4).absolute_in(3), None);
    assert_eq!(SeekPos::End(4).absolute_in(3), Some(7));
    assert_eq!(SeekPos::End(1).absolute_in(u64::MAX), None);
    assert_eq!(SeekPos::End(i64::MIN).absolute_in(u64::MAX), Some(u64::MAX - (1 << 63)));
    assert_eq!(SeekPos::End(i64::MIN).absolute_in(0), None);
}

#[test]
fn forward_and_backward_scans() {
    let text = "one\ntwo\nthree\n";
    for buf_size in [1, 3, 4, 14, 15, 4096] {
        let mut fh = source(text);
        assert_eq!(lines_from_start(1, &mut fh, buf_size).unwrap(), SeekPos::Start(4));
        assert_eq!(lines_from_start(0, &mut fh, buf_size).unwrap(), SeekPos::Start(0));
        assert_eq!(lines_from_start(3, &mut fh, buf_size).unwrap(), SeekPos::Start(14));
        assert_eq!(lines_from_start(4, &mut fh, buf_size).unwrap(), SeekPos::Start(14));
        assert_eq!(lines_from_end(1, &mut fh, buf_size).unwrap(), SeekPos::End(-6));
        assert_eq!(lines_from_end(3, &mut fh, buf_size).unwrap(), SeekPos::End(-14));
        assert_eq!(lines_from_end(usize::MAX, &mut fh, buf_size).unwrap(), SeekPos::End(-14));
    }
}

fn refused(what: &str) -> StreamError {
    StreamError { description: what.to_string() }
}

#[test]
fn failures_are_handed_on_as_they_are() {
    assert!(matches!(probed(Err::<u64, _>(refused("no length"))), Err(TailError::Probe(d)) if d == "no length"));
    assert!(matches!(sought(Err::<(), _>(refused("no seek"))), Err(TailError::Seek(d)) if d == "no seek"));
    assert!(matches!(was_read(Err::<usize, _>(refused("no read"))), Err(TailError::Read(d)) if d == "no read"));
    assert!(matches!(probed(Ok(7u64)), Ok(7)));
    assert!(matches!(sought(Ok(())), Ok(())));
    assert!(matches!(was_read(Ok(3usize)), Ok(3)));
}

#[test]
fn bytes_from_the_answer_to_the_probe() {
    match bytes_target(Err(refused("Bad file descriptor (os error 9)")), &Pos::FromEnd(3)) {
        Err(TailError::Probe(d)) => assert_eq!(d, "Bad file descriptor (os error 9)"),
        other => panic!("unexpected {other:?}"),
    }
    assert_eq!(bytes_target(Ok(10), &Pos::FromEnd(3)).unwrap(), SeekPos::End(-3));
    assert_eq!(bytes_target(Ok(10), &Pos::FromEnd(30)).unwrap(), SeekPos::End(-10));
    assert_eq!(bytes_target(Ok(10), &Pos::FromStart(3)).unwrap(), SeekPos::Start(3));
    assert_eq!(bytes_target(Ok(10), &Pos::FromStart(30)).unwrap(), SeekPos::Start(10));
    assert_eq!(bytes_target(Ok(0), &Pos::FromStart(30)).unwrap(), SeekPos::Start(0));
    assert!(matches!(
        bytes_target(Ok(u64::MAX), &Pos::FromEnd(usize::MAX)),
        Err(TailError::Overflow)
    ));
}

#[test]
fn the_end_of_a_backward_scan() {
    assert_eq!(end_target(None, 0).unwrap(), SeekPos::End(0));
    assert_eq!(end_target(None, 14).unwrap(), SeekPos::End(-14));
    let failure = Some(TailError::Read("Input/output error (os error 5)".to_string()));
    match end_target(failure, 14) {
        Err(TailError::Read(d)) => assert_eq!(d, "Input/output error (os error 5)"),
        other => panic!("unexpected {other:?}"),
    }
    if usize::BITS == 64 {
        let most = usize::try_from(i64::MAX).unwrap();
        assert_eq!(end_target(None, most).unwrap(), SeekPos::End(-i64::MAX));
        assert!(matches!(end_target(None, most + 1), Err(TailError::Overflow)));
    }
}
