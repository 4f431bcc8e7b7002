//! Text as sequences of characters.

use vstd::prelude::*;

verus! {

/// `String::push` appends one character to the string.
pub assume_specification[ String::push ](s: &mut String, c: char)
    ensures
        final(s)@ == old(s)@.push(c),
;

/// What `String::from_utf8_lossy` makes of `bytes`: their text as UTF-8,
/// with the replacement character in place of what is not UTF-8.
pub uninterp spec fn utf8_lossy(bytes: Seq<u8>) -> Seq<char>;

/// `String::from_utf8_lossy`, which reads bytes as UTF-8 and puts the
/// replacement character U+FFFD in place of each invalid sequence: the
/// result is a function of the bytes alone, named `utf8_lossy`.
#[verifier::external_body]
pub(crate) fn from_utf8_lossy(bytes: &Vec<u8>) -> (s: String)
    ensures
        s@ == utf8_lossy(bytes@),
{
    String::from_utf8_lossy(bytes).into_owned()
}

/// The characters of `s`, in order.
pub fn chars_of(s: &str) -> (v: Vec<char>)
    ensures
        v@ == s@,
{
    let mut v: Vec<char> = Vec::new();
    for c in it: s.chars()
        invariant
            v@ == it.seq().take(it.index() as int),
            it.seq() == s@,
    {
        v.push(c);
    }
    v
}

/// The string made of the characters `chars[from..to]`.
pub fn string_of(chars: &Vec<char>, from: usize, to: usize) -> (s: String)
    requires
        from <= to <= chars.len(),
    ensures
        s@ == chars@.subrange(from as int, to as int),
{
    let mut s = String::new();
    let mut i: usize = from;
    while i < to
        invariant
            from <= i <= to <= chars.len(),
            s@ == chars@.subrange(from as int, i as int),
        decreases to - i,
    {
        s.push(chars[i]);
        i = i + 1;
        assert(chars@.subrange(from as int, i as int) =~= chars@.subrange(
            from as int,
            i - 1,
        ).push(chars[i - 1]));
    }
    s
}

/// The character for the digit `d`.
pub open spec fn digit_char(d: nat) -> char {
    ((48 + d) as u8) as char
}

/// The digits of `n` in base ten, most significant first, without
/// leading zeros.
pub open spec fn decimal_digits(n: nat) -> Seq<char>
    decreases n,
{
    if n < 10 {
        seq![digit_char(n)]
    } else {
        decimal_digits(n / 10).push(digit_char(n % 10))
    }
}

/// The digits of `n` in base ten.
pub fn decimal_text(n: u64) -> (s: String)
    ensures
        s@ == decimal_digits(n as nat),
{
    let mut low_first: Vec<char> = Vec::new();
    low_first.push((48u8 + (n % 10) as u8) as char);
    let mut m: u64 = n / 10;
    assert(low_first@.reverse() =~= seq![digit_char((n % 10) as nat)]);
    while m > 0
        invariant
            low_first.len() > 0,
            decimal_digits(n as nat) == if m > 0 {
                decimal_digits(m as nat) + low_first@.reverse()
            } else {
                low_first@.reverse()
            },
        decreases m,
    {
        let ghost before = low_first@;
        let d = (48u8 + (m % 10) as u8) as char;
        low_first.push(d);
        assert(low_first@.reverse() =~= seq![d] + before.reverse());
        assert(decimal_digits(m as nat) =~= if m / 10 > 0 {
            decimal_digits((m / 10) as nat) + seq![d]
        } else {
            seq![d]
        });
        assert((decimal_digits((m / 10) as nat) + seq![d]) + before.reverse() =~= decimal_digits(
            (m / 10) as nat,
        ) + (seq![d] + before.reverse()));
        m = m / 10;
    }
    let mut s = String::new();
    let mut i: usize = low_first.len();
    while i > 0
        invariant
            i <= low_first.len(),
            s@ == low_first@.reverse().take(low_first.len() - i),
        decreases i,
    {
        i = i - 1;
        s.push(low_first[i]);
        assert(low_first@.reverse().take(low_first.len() - i) =~= low_first@.reverse().take(
            low_first.len() - i - 1,
        ).push(low_first[i as int]));
    }
    assert(low_first@.reverse().take(low_first.len() as int) =~= low_first@.reverse());
    s
}

/// The place of a character in the order of texts: that of its code.
/// In the order of paths, the separator comes before every other
/// character, so that paths are ordered component by component.
pub open spec fn rank(c: char, paths: bool) -> int {
    if paths && c == '/' {
        0
    } else {
        c as u32 as int + 1
    }
}

/// Whether `a` comes before `b`, in the order of paths or in that of
/// texts: at the first place where they differ, `a` ends or has the
/// character of lower rank.
pub open spec fn comes_before(a: Seq<char>, b: Seq<char>, paths: bool) -> bool
    decreases a.len(),
{
    if b.len() == 0 {
        false
    } else if a.len() == 0 {
        true
    } else if a[0] != b[0] {
        rank(a[0], paths) < rank(b[0], paths)
    } else {
        comes_before(a.drop_first(), b.drop_first(), paths)
    }
}

/// Different characters have different ranks.
pub proof fn lemma_rank_injective(c: char, d: char, paths: bool)
    requires
        c != d,
    ensures
        rank(c, paths) != rank(d, paths),
{
    assert(c as u32 != d as u32);
}

/// Nothing comes before itself.
pub proof fn lemma_before_irreflexive(a: Seq<char>, paths: bool)
    ensures
        !comes_before(a, a, paths),
    decreases a.len(),
{
    if a.len() > 0 {
        lemma_before_irreflexive(a.drop_first(), paths);
    }
}

/// Of two different texts, one comes before the other.
pub proof fn lemma_before_total(a: Seq<char>, b: Seq<char>, paths: bool)
    requires
        a != b,
    ensures
        comes_before(a, b, paths) || comes_before(b, a, paths),
    decreases a.len(),
{
    if a.len() > 0 && b.len() > 0 {
        if a[0] == b[0] {
            if a.drop_first() == b.drop_first() {
                assert(a =~= seq![a[0]] + a.drop_first());
                assert(b =~= seq![b[0]] + b.drop_first());
            }
            lemma_before_total(a.drop_first(), b.drop_first(), paths);
        } else {
            lemma_rank_injective(a[0], b[0], paths);
        }
    } else if a.len() == 0 && b.len() == 0 {
        assert(a =~= b);
    }
}

/// Of two texts, at most one comes before the other.
pub proof fn lemma_before_asymmetric(a: Seq<char>, b: Seq<char>, paths: bool)
    requires
        comes_before(a, b, paths),
    ensures
        !comes_before(b, a, paths),
    decreases a.len(),
{
    if a.len() > 0 && b.len() > 0 && a[0] == b[0] {
        lemma_before_asymmetric(a.drop_first(), b.drop_first(), paths);
    }
}

/// What comes before a text comes before all that this text comes
/// before.
pub proof fn lemma_before_transitive(a: Seq<char>, b: Seq<char>, c: Seq<char>, paths: bool)
    requires
        comes_before(a, b, paths),
        comes_before(b, c, paths),
    ensures
        comes_before(a, c, paths),
    decreases a.len(),
{
    if a.len() > 0 && b.len() > 0 && c.len() > 0 && a[0] == b[0] && b[0] == c[0] {
        lemma_before_transitive(a.drop_first(), b.drop_first(), c.drop_first(), paths);
    }
}

/// How two texts stand to each other.
#[derive(Debug, Clone, Copy, PartialEq, Eq, Structural)]
pub enum Order {
    Before,
    Same,
    After,
}

/// How `a` stands to `b`, in the order of paths or in that of texts.
pub fn compare(a: &str, b: &str, paths: bool) -> (o: Order)
    ensures
        o is Before <==> comes_before(a@, b@, paths),
        o is Same <==> a@ == b@,
        o is After <==> comes_before(b@, a@, paths),
{
    let x = chars_of(a);
    let y = chars_of(b);
    let mut i: usize = 0;
    proof {
        assert(x@.skip(0) =~= x@);
        assert(y@.skip(0) =~= y@);
    }
    while i < x.len() && i < y.len() && x[i] == y[i]
        invariant
            i <= x.len(),
            i <= y.len(),
            comes_before(x@, y@, paths) == comes_before(
                x@.skip(i as int),
                y@.skip(i as int),
                paths,
            ),
            comes_before(y@, x@, paths) == comes_before(
                y@.skip(i as int),
                x@.skip(i as int),
                paths,
            ),
            (x@ == y@) == (x@.skip(i as int) == y@.skip(i as int)),
        decreases x.len() - i,
    {
        proof {
            let p = x@.skip(i as int);
            let q = y@.skip(i as int);
            assert(p.drop_first() =~= x@.skip(i + 1));
            assert(q.drop_first() =~= y@.skip(i + 1));
            assert(p[0] == q[0]);
            if p.drop_first() == q.drop_first() {
                assert(p =~= seq![p[0]] + p.drop_first());
                assert(q =~= seq![q[0]] + q.drop_first());
            }
        }
        i = i + 1;
    }
    let ghost p = x@.skip(i as int);
    let ghost q = y@.skip(i as int);
    if i == x.len() && i == y.len() {
        assert(p =~= q);
        proof {
            lemma_before_irreflexive(p, paths);
        }
        Order::Same
    } else if i == x.len() {
        Order::Before
    } else if i == y.len() {
        Order::After
    } else {
        assert(p[0] == x[i as int] && q[0] == y[i as int]);
        let before = if paths && x[i] == '/' {
            true
        } else if paths && y[i] == '/' {
            false
        } else {
            (x[i] as u32) < (y[i] as u32)
        };
        if before {
            proof {
                lemma_before_asymmetric(p, q, paths);
            }
            Order::Before
        } else {
            proof {
                lemma_rank_injective(p[0], q[0], paths);
                assert(comes_before(q, p, paths));
                lemma_before_asymmetric(q, p, paths);
            }
            Order::After
        }
    }
}

} // verus!
