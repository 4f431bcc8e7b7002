//! The mathematics of tail offsets: which offset a position denotes in a
//! given content, and how the offsets counted from either end relate.

use vstd::prelude::*;
use crate::tail::position::{Mode, Pos};

verus! {

/// The byte that ends a line.
pub const NEWLINE: u8 = 10;

/// How many newline bytes `s` holds.
pub open spec fn count_newlines(s: Seq<u8>) -> nat
    decreases s.len(),
{
    if s.len() == 0 {
        0
    } else {
        count_newlines(s.drop_last()) + if s.last() == NEWLINE {
            1nat
        } else {
            0nat
        }
    }
}

/// The offset just past the `n`-th newline of `s`, counted from the
/// start: where line `n + 1` begins. It is 0 for `n == 0`, and the length
/// of `s` where `s` has fewer than `n` newlines.
pub open spec fn skip_lines(s: Seq<u8>, n: nat) -> nat
    decreases s.len(),
{
    if n == 0 || s.len() == 0 {
        0
    } else if s[0] == NEWLINE {
        1 + skip_lines(s.drop_first(), (n - 1) as nat)
    } else {
        1 + skip_lines(s.drop_first(), n)
    }
}

/// The offset just past the `k`-th newline of `s`, counted from the end.
/// It is the length of `s` for `k == 0`, and 0 where `s` has fewer than
/// `k` newlines.
pub open spec fn after_newline_from_end(s: Seq<u8>, k: nat) -> nat
    decreases s.len(),
{
    if k == 0 {
        s.len()
    } else if s.len() == 0 {
        0
    } else if s.last() == NEWLINE {
        if k == 1 {
            s.len()
        } else {
            after_newline_from_end(s.drop_last(), (k - 1) as nat)
        }
    } else {
        after_newline_from_end(s.drop_last(), k)
    }
}

/// Whether the last byte of `s` is a newline.
pub open spec fn ends_with_newline(s: Seq<u8>) -> bool {
    s.len() > 0 && s.last() == NEWLINE
}

/// How many lines `s` holds: one for each newline, and one more for
/// bytes after the last newline.
pub open spec fn count_lines(s: Seq<u8>) -> nat {
    if s.len() == 0 || ends_with_newline(s) {
        count_newlines(s)
    } else {
        count_newlines(s) + 1
    }
}

/// The offset at which the last `n` lines of `s` begin.
///
/// No line at all begins at the end. Otherwise a newline that is the
/// last byte of `s` ends the last line rather than starting a new one,
/// so one newline more has to be passed, from the end, to reach the
/// start of the `n`-th line from the end.
pub open spec fn last_lines_start(s: Seq<u8>, n: nat) -> nat {
    if n == 0 {
        s.len()
    } else if ends_with_newline(s) {
        after_newline_from_end(s, n + 1)
    } else {
        after_newline_from_end(s, n)
    }
}

/// The offset that a position counted in bytes denotes in a source of
/// `len` bytes.
pub open spec fn bytes_offset(len: nat, pos: Pos) -> nat {
    match pos {
        Pos::FromStart(n) => if n <= len {
            n as nat
        } else {
            len
        },
        Pos::FromEnd(n) => if n <= len {
            (len - n) as nat
        } else {
            0
        },
    }
}

/// The offset that a position counted in lines denotes in `s`.
pub open spec fn lines_offset(s: Seq<u8>, pos: Pos) -> nat {
    match pos {
        Pos::FromStart(n) => skip_lines(s, n as nat),
        Pos::FromEnd(n) => last_lines_start(s, n as nat),
    }
}

/// The offset from which the rest of `s` is the tail that `mode` asks
/// for.
pub open spec fn tail_offset(s: Seq<u8>, mode: Mode) -> nat {
    match mode {
        Mode::Lines(pos) => lines_offset(s, pos),
        Mode::Bytes(pos) => bytes_offset(s.len(), pos),
    }
}

/// Counting newlines from the front: the count of a non-empty sequence
/// is that of its first byte plus that of the rest.
pub proof fn lemma_count_newlines_front(s: Seq<u8>)
    requires
        s.len() > 0,
    ensures
        count_newlines(s) == count_newlines(s.drop_first()) + if s[0] == NEWLINE {
            1nat
        } else {
            0nat
        },
    decreases s.len(),
{
    if s.len() == 1 {
        assert(s.drop_last() =~= s.drop_first());
        assert(count_newlines(s.drop_first()) == 0);
    } else {
        lemma_count_newlines_front(s.drop_last());
        assert(s.drop_last().drop_first() =~= s.drop_first().drop_last());
        assert(s.drop_first().last() == s.last());
        assert(s.drop_last()[0] == s[0]);
    }
}

/// The start of a line lies within the content.
pub proof fn lemma_skip_lines_bound(s: Seq<u8>, n: nat)
    ensures
        skip_lines(s, n) <= s.len(),
    decreases s.len(),
{
    if n != 0 && s.len() != 0 {
        if s[0] == NEWLINE {
            lemma_skip_lines_bound(s.drop_first(), (n - 1) as nat);
        } else {
            lemma_skip_lines_bound(s.drop_first(), n);
        }
    }
}

/// An offset counted from the end lies within the content.
pub proof fn lemma_after_newline_from_end_bound(s: Seq<u8>, k: nat)
    ensures
        after_newline_from_end(s, k) <= s.len(),
    decreases s.len(),
{
    if k != 0 && s.len() != 0 {
        if s.last() == NEWLINE {
            if k != 1 {
                lemma_after_newline_from_end_bound(s.drop_last(), (k - 1) as nat);
            }
        } else {
            lemma_after_newline_from_end_bound(s.drop_last(), k);
        }
    }
}

/// Skipping more lines than there are newlines leads to the end.
pub proof fn lemma_skip_lines_beyond(s: Seq<u8>, n: nat)
    requires
        n > count_newlines(s),
    ensures
        skip_lines(s, n) == s.len(),
    decreases s.len(),
{
    if s.len() != 0 {
        lemma_count_newlines_front(s);
        if s[0] == NEWLINE {
            lemma_skip_lines_beyond(s.drop_first(), (n - 1) as nat);
        } else {
            lemma_skip_lines_beyond(s.drop_first(), n);
        }
    }
}

/// A byte added at the end does not move the start of a line that the
/// content before it already reaches.
pub proof fn lemma_skip_lines_push(s: Seq<u8>, b: u8, n: nat)
    requires
        n <= count_newlines(s),
    ensures
        skip_lines(s.push(b), n) == skip_lines(s, n),
    decreases s.len(),
{
    if n != 0 && s.len() != 0 {
        lemma_count_newlines_front(s);
        assert(s.push(b).drop_first() =~= s.drop_first().push(b));
        if s[0] == NEWLINE {
            lemma_skip_lines_push(s.drop_first(), b, (n - 1) as nat);
        } else {
            lemma_skip_lines_push(s.drop_first(), b, n);
        }
    }
}

/// With a byte added at the end, skipping more lines than the content
/// before it has newlines leads to the new end.
pub proof fn lemma_skip_lines_push_beyond(s: Seq<u8>, b: u8, n: nat)
    requires
        n > count_newlines(s),
    ensures
        skip_lines(s.push(b), n) == s.len() + 1,
    decreases s.len(),
{
    let sb = s.push(b);
    if s.len() == 0 {
        assert(sb.drop_first() =~= s);
        assert(skip_lines(sb.drop_first(), n) == 0);
        assert(skip_lines(sb.drop_first(), (n - 1) as nat) == 0);
    } else {
        lemma_count_newlines_front(s);
        assert(sb.drop_first() =~= s.drop_first().push(b));
        assert(sb[0] == s[0]);
        if s[0] == NEWLINE {
            lemma_skip_lines_push_beyond(s.drop_first(), b, (n - 1) as nat);
        } else {
            lemma_skip_lines_push_beyond(s.drop_first(), b, n);
        }
    }
}

/// The `k`-th newline from the end is newline `c + 1 - k` from the
/// start, where `c` is the number of newlines.
pub proof fn lemma_from_end_is_from_start(s: Seq<u8>, k: nat)
    requires
        k <= count_newlines(s) + 1,
    ensures
        after_newline_from_end(s, k) == skip_lines(s, (count_newlines(s) + 1 - k) as nat),
    decreases s.len(),
{
    let c = count_newlines(s);
    if k == 0 {
        lemma_skip_lines_beyond(s, c + 1);
    } else if s.len() != 0 {
        let t = s.drop_last();
        assert(t.push(s.last()) =~= s);
        if s.last() == NEWLINE {
            if k == 1 {
                lemma_skip_lines_push_beyond(t, s.last(), c);
            } else {
                lemma_from_end_is_from_start(t, (k - 1) as nat);
                lemma_skip_lines_push(t, s.last(), (c + 1 - k) as nat);
            }
        } else {
            lemma_from_end_is_from_start(t, k);
            lemma_skip_lines_push(t, s.last(), (c + 1 - k) as nat);
        }
    }
}

/// The last `k` lines begin where, counted from the start, line
/// `count_lines(s) - k + 1` begins: skipping all lines but the last `k`
/// and taking the last `k` lines lead to the same offset.
pub proof fn lemma_last_lines_start(s: Seq<u8>, k: nat)
    requires
        k <= count_lines(s),
    ensures
        last_lines_start(s, k) == skip_lines(s, (count_lines(s) - k) as nat),
{
    if ends_with_newline(s) {
        lemma_from_end_is_from_start(s, 1);
        if k > 0 {
            lemma_from_end_is_from_start(s, k + 1);
        }
    } else {
        lemma_from_end_is_from_start(s, k);
    }
}

/// Where every line of `s` ends in a newline, so that `s` has as many
/// lines as newlines, the last `k` of them begin at the start of line
/// `count_newlines(s) - k + 1`.
pub proof fn lemma_last_lines_of_terminated(s: Seq<u8>, k: nat)
    requires
        s.len() == 0 || ends_with_newline(s),
        k <= count_newlines(s),
    ensures
        last_lines_start(s, k) == skip_lines(s, (count_newlines(s) - k) as nat),
{
    lemma_last_lines_start(s, k);
}

/// Where `s` does not end in a newline, its last line is what follows
/// its last newline: it begins just past that newline, or at the start
/// of `s` if there is none.
pub proof fn lemma_last_line_of_unterminated(s: Seq<u8>)
    requires
        s.len() > 0,
        !ends_with_newline(s),
    ensures
        last_lines_start(s, 1) == skip_lines(s, count_newlines(s)),
        last_lines_start(s, 1) == after_newline_from_end(s, 1),
{
    lemma_last_lines_start(s, 1);
}

/// Skipping no line leads to the start, and skipping as many lines as
/// there are, or more, leads to the end.
pub proof fn lemma_skip_lines_ends(s: Seq<u8>, n: nat)
    ensures
        skip_lines(s, 0) == 0,
        n >= count_lines(s) ==> skip_lines(s, n) == s.len(),
{
    if n >= count_lines(s) {
        if n > count_newlines(s) {
            lemma_skip_lines_beyond(s, n);
        } else if ends_with_newline(s) {
            lemma_from_end_is_from_start(s, 1);
        }
    }
}

/// Taking no line from the end leads to the end, and taking as many
/// lines as there are, or more, leads to the start.
pub proof fn lemma_last_lines_ends(s: Seq<u8>, n: nat)
    ensures
        last_lines_start(s, 0) == s.len(),
        n >= count_lines(s) && n > 0 ==> last_lines_start(s, n) == 0,
{
    if n >= count_lines(s) && n > 0 {
        if ends_with_newline(s) {
            lemma_from_end_beyond(s, n + 1);
        } else if s.len() > 0 {
            lemma_from_end_beyond(s, n);
        }
    }
}

/// Looking from the end for more newlines than there are leads to the
/// start.
pub proof fn lemma_from_end_beyond(s: Seq<u8>, k: nat)
    requires
        k > count_newlines(s),
    ensures
        after_newline_from_end(s, k) == 0,
    decreases s.len(),
{
    if s.len() != 0 {
        if s.last() == NEWLINE {
            lemma_from_end_beyond(s.drop_last(), (k - 1) as nat);
        } else {
            lemma_from_end_beyond(s.drop_last(), k);
        }
    }
}

/// The offset of a tail lies within the content, so that the bytes
/// before it and the bytes from it on make up the content again.
pub proof fn lemma_tail_offset_splits(s: Seq<u8>, mode: Mode)
    ensures
        tail_offset(s, mode) <= s.len(),
        s.subrange(0, tail_offset(s, mode) as int) + s.subrange(
            tail_offset(s, mode) as int,
            s.len() as int,
        ) == s,
{
    match mode {
        Mode::Lines(Pos::FromStart(n)) => {
            lemma_skip_lines_bound(s, n as nat);
        },
        Mode::Lines(Pos::FromEnd(n)) => {
            lemma_after_newline_from_end_bound(s, n as nat);
            lemma_after_newline_from_end_bound(s, (n + 1) as nat);
        },
        Mode::Bytes(_) => {},
    }
    let at = tail_offset(s, mode) as int;
    assert(s.subrange(0, at) + s.subrange(at, s.len() as int) =~= s);
}

/// The start of line `n + 1` is marked by the `n`-th newline: where `s`
/// has that many newlines, the byte before the offset is a newline and
/// the bytes before the offset hold `n` newlines.
pub proof fn lemma_skip_lines_stops_after_newline(s: Seq<u8>, n: nat)
    requires
        0 < n <= count_newlines(s),
    ensures
        0 < skip_lines(s, n) <= s.len(),
        s[skip_lines(s, n) - 1] == NEWLINE,
        count_newlines(s.subrange(0, skip_lines(s, n) as int)) == n,
    decreases s.len(),
{
    lemma_count_newlines_front(s);
    let rest = s.drop_first();
    let m = if s[0] == NEWLINE {
        (n - 1) as nat
    } else {
        n
    };
    lemma_skip_lines_bound(rest, m);
    let at = skip_lines(s, n) as int;
    let head = s.subrange(0, at);
    if m > 0 {
        lemma_skip_lines_stops_after_newline(rest, m);
        assert(head.drop_first() =~= rest.subrange(0, at - 1));
    } else {
        assert(head.drop_first() =~= Seq::<u8>::empty());
    }
    lemma_count_newlines_front(head);
}

} // verus!
