//! Fortunes: which files hold them, how a file is cut into them, and
//! which one is shown.
//!
//! Nothing here walks a directory or reads a file. What was found and
//! read comes in as plain values.

use vstd::prelude::*;
use vstd::string::StringExecFns;
use crate::pattern::{match_each, Pattern};
use crate::text::{
    chars_of,
    comes_before,
    compare,
    from_utf8_lossy,
    lemma_before_total,
    lemma_before_transitive,
    string_of,
    utf8_lossy,
    Order,
};

verus! {

/// Whether path `a` comes before path `b`: at the first place where
/// they differ, `a` ends, or has the separator, or has the character of
/// lower code where neither has the separator. Paths are thus ordered
/// component by component.
pub open spec fn path_before(a: Seq<char>, b: Seq<char>) -> bool {
    comes_before(a, b, true)
}

/// How path `a` stands to path `b` in the order of paths.
pub fn compare_paths(a: &str, b: &str) -> (o: Order)
    ensures
        o is Before <==> path_before(a@, b@),
        o is Same <==> a@ == b@,
        o is After <==> path_before(b@, a@),
{
    compare(a, b, true)
}

/// Whether the paths of `v` are in order, none twice.
pub open spec fn ascending(v: Seq<String>) -> bool {
    forall|i: int, j: int| 0 <= i < j < v.len() ==> path_before(#[trigger] v[i]@, #[trigger] v[j]@)
}

/// Whether `v` holds the path `p`.
pub open spec fn holds(v: Seq<String>, p: Seq<char>) -> bool {
    exists|i: int| 0 <= i < v.len() && #[trigger] v[i]@ == p
}

/// Puts `path` at its place in `v`, unless `v` holds it already.
pub fn insert_path(v: &mut Vec<String>, path: String)
    requires
        ascending(old(v)@),
    ensures
        ascending(final(v)@),
        forall|p: Seq<char>| holds(final(v)@, p) <==> holds(old(v)@, p) || p == path@,
{
    let mut i: usize = 0;
    let mut found = false;
    while i < v.len() && !found
        invariant
            i <= v.len(),
            v@ == old(v)@,
            forall|k: int| 0 <= k < i - (if found { 1int } else { 0int }) ==> path_before(
                #[trigger] v[k]@,
                path@,
            ),
            found ==> 0 < i && !path_before(v[i - 1]@, path@),
        decreases v.len() - i + (if found { 0int } else { 1int }),
    {
        match compare_paths(v[i].as_str(), path.as_str()) {
            Order::Before => {},
            _ => {
                found = true;
            },
        }
        i = i + 1;
    }
    let at = if found {
        i - 1
    } else {
        i
    };
    if found {
        match compare_paths(v[at].as_str(), path.as_str()) {
            Order::Same => {
                assert forall|p: Seq<char>| holds(v@, p) || p == path@ implies holds(v@, p) by {
                    if p == path@ {
                        assert(v[at as int]@ == p);
                    }
                }
                return ;
            },
            _ => {},
        }
    }
    let ghost before = v@;
    let ghost text = path@;
    v.insert(at, path);
    proof {
        assert(v@.len() == before.len() + 1);
        assert forall|k: int| 0 <= k < v.len() implies #[trigger] v[k]@ == (if k < at {
            before[k]@
        } else if k == at {
            text
        } else {
            before[k - 1]@
        }) by {}
        if at < before.len() {
            lemma_before_total(before[at as int]@, text, true);
        }
        assert forall|i: int, j: int| 0 <= i < j < v.len() implies path_before(
            #[trigger] v[i]@,
            #[trigger] v[j]@,
        ) by {
            if j == at {
            } else if i == at {
                if j - 1 > at {
                    assert(path_before(before[at as int]@, before[j - 1]@));
                    lemma_before_transitive(text, before[at as int]@, before[j - 1]@, true);
                }
            } else if i < at && j > at {
                assert(path_before(before[i]@, before[j - 1]@));
            } else if i < at {
                assert(path_before(before[i]@, before[j]@));
            } else {
                assert(path_before(before[i - 1]@, before[j - 1]@));
            }
        }
        assert forall|p: Seq<char>| holds(v@, p) <==> holds(before, p) || p == text by {
            if holds(v@, p) {
                let k = choose|k: int| 0 <= k < v.len() && #[trigger] v[k]@ == p;
                if k < at {
                    assert(before[k]@ == p);
                } else if k > at {
                    assert(before[k - 1]@ == p);
                }
            }
            if holds(before, p) {
                let k = choose|k: int| 0 <= k < before.len() && #[trigger] before[k]@ == p;
                if k < at {
                    assert(v[k]@ == p);
                } else {
                    assert(v[k + 1]@ == p);
                }
            }
            if p == text {
                assert(v[at as int]@ == p);
            }
        }
        assert(forall|p: Seq<char>| holds(v@, p) <==> holds(old(v)@, p) || p == path@);
    }
}

/// What a walk through a source found at one place.
#[derive(Debug)]
pub struct SourceEntry {
    /// The path of the entry.
    pub path: String,
    /// The last component of the path.
    pub file_name: String,
    /// Whether the entry is a regular file.
    pub is_file: bool,
    /// The size of the file in bytes.
    pub len: u64,
}

/// One step of a walk through a source: an entry, or the reason why the
/// walk could not go on.
#[derive(Debug)]
pub enum Walked {
    Entry(SourceEntry),
    Failed(String),
}

/// Whether `s` ends with `suffix`.
pub open spec fn ends_with(s: Seq<char>, suffix: Seq<char>) -> bool {
    suffix.len() <= s.len() && s.skip(s.len() - suffix.len()) == suffix
}

/// Whether an entry holds fortunes: it is a file that is not empty,
/// whose name neither begins with a dot nor ends with `.dat`.
pub open spec fn is_source(entry: SourceEntry) -> bool {
    &&& entry.is_file
    &&& entry.len > 0
    &&& !ends_with(entry.file_name@, seq!['.', 'd', 'a', 't'])
    &&& !(entry.file_name@.len() > 0 && entry.file_name@[0] == '.')
}

/// Whether an entry holds fortunes.
pub fn holds_fortunes(entry: &SourceEntry) -> (b: bool)
    ensures
        b == is_source(*entry),
{
    if !entry.is_file || entry.len == 0 {
        return false;
    }
    let name = chars_of(entry.file_name.as_str());
    let n = name.len();
    if n > 0 && name[0] == '.' {
        return false;
    }
    if n >= 4 && name[n - 4] == '.' && name[n - 3] == 'd' && name[n - 2] == 'a' && name[n - 1]
        == 't' {
        assert(name@.skip(n - 4) =~= seq!['.', 'd', 'a', 't']);
        return false;
    }
    proof {
        if ends_with(name@, seq!['.', 'd', 'a', 't']) {
            let tail = name@.skip(n - 4);
            assert(tail[0] == '.' && tail[1] == 'd' && tail[2] == 'a' && tail[3] == 't');
        }
    }
    true
}

/// The reason given by the first step of `walk` that failed, if any
/// did.
pub open spec fn failure(walk: Seq<Walked>) -> Option<String>
    decreases walk.len(),
{
    if walk.len() == 0 {
        None
    } else {
        match failure(walk.drop_last()) {
            Some(reason) => Some(reason),
            None => match walk.last() {
                Walked::Failed(reason) => Some(reason),
                Walked::Entry(_) => None,
            },
        }
    }
}

/// The paths of the entries of `walk` that hold fortunes, in the order
/// of the walk.
pub open spec fn sources(walk: Seq<Walked>) -> Seq<String>
    decreases walk.len(),
{
    if walk.len() == 0 {
        Seq::empty()
    } else {
        match walk.last() {
            Walked::Entry(entry) => if is_source(entry) {
                sources(walk.drop_last()).push(entry.path)
            } else {
                sources(walk.drop_last())
            },
            Walked::Failed(_) => sources(walk.drop_last()),
        }
    }
}

/// The files of one source that hold fortunes, in the order of the
/// walk, or the reason why the walk failed.
pub fn find_single_source(walk: &Vec<Walked>) -> (r: Result<Vec<String>, String>)
    ensures
        match failure(walk@) {
            Some(reason) => r == Err::<Vec<String>, String>(reason),
            None => r matches Ok(found) && found@ == sources(walk@),
        },
{
    let mut result: Vec<String> = Vec::new();
    let mut k: usize = 0;
    while k < walk.len()
        invariant
            k <= walk.len(),
            failure(walk@.take(k as int)) is None,
            result@ == sources(walk@.take(k as int)),
        decreases walk.len() - k,
    {
        proof {
            assert(walk@.take(k + 1).drop_last() =~= walk@.take(k as int));
            assert(walk@.take(k + 1).last() == walk@[k as int]);
        }
        match &walk[k] {
            Walked::Failed(reason) => {
                proof {
                    lemma_failure_stays(walk@, k + 1);
                }
                return Err(reason.clone());
            },
            Walked::Entry(entry) => {
                if holds_fortunes(entry) {
                    result.push(entry.path.clone());
                }
            },
        }
        k = k + 1;
    }
    assert(walk@.take(walk.len() as int) =~= walk@);
    Ok(result)
}

/// A walk that has failed after `n` steps has failed for the same
/// reason when it is over.
pub proof fn lemma_failure_stays(walk: Seq<Walked>, n: int)
    requires
        0 <= n <= walk.len(),
        failure(walk.take(n)) is Some,
    ensures
        failure(walk) == failure(walk.take(n)),
    decreases walk.len() - n,
{
    if n < walk.len() {
        assert(walk.take(n + 1).drop_last() =~= walk.take(n));
        lemma_failure_stays(walk, n + 1);
    } else {
        assert(walk.take(n) =~= walk);
    }
}

/// The reason given by the first walk of `walks` that failed, if any
/// did.
pub open spec fn failure_of(walks: Seq<Vec<Walked>>) -> Option<String>
    decreases walks.len(),
{
    if walks.len() == 0 {
        None
    } else {
        match failure_of(walks.drop_last()) {
            Some(reason) => Some(reason),
            None => failure(walks.last()@),
        }
    }
}

/// The paths that the walks found to hold fortunes.
pub open spec fn all_sources(walks: Seq<Vec<Walked>>) -> Seq<String>
    decreases walks.len(),
{
    if walks.len() == 0 {
        Seq::empty()
    } else {
        all_sources(walks.drop_last()) + sources(walks.last()@)
    }
}

/// The first walks that have failed have failed for the same reason
/// when all walks are over.
pub proof fn lemma_failure_of_stays(walks: Seq<Vec<Walked>>, n: int)
    requires
        0 <= n <= walks.len(),
        failure_of(walks.take(n)) is Some,
    ensures
        failure_of(walks) == failure_of(walks.take(n)),
    decreases walks.len() - n,
{
    if n < walks.len() {
        assert(walks.take(n + 1).drop_last() =~= walks.take(n));
        lemma_failure_of_stays(walks, n + 1);
    } else {
        assert(walks.take(n) =~= walks);
    }
}

/// What two lists hold together is what one or the other holds.
pub proof fn lemma_holds_either(a: Seq<String>, b: Seq<String>, p: Seq<char>)
    ensures
        holds(a + b, p) <==> holds(a, p) || holds(b, p),
{
    let both = a + b;
    if holds(both, p) {
        let k = choose|k: int| 0 <= k < both.len() && #[trigger] both[k]@ == p;
        if k < a.len() {
            assert(a[k]@ == p);
        } else {
            assert(b[k - a.len()]@ == p);
        }
    }
    if holds(a, p) {
        let k = choose|k: int| 0 <= k < a.len() && #[trigger] a[k]@ == p;
        assert(both[k]@ == p);
    }
    if holds(b, p) {
        let k = choose|k: int| 0 <= k < b.len() && #[trigger] b[k]@ == p;
        assert(both[k + a.len()]@ == p);
    }
}

/// The files that hold fortunes, from the walks through all sources:
/// each path once, in the order of paths. If a walk failed, the reason
/// of the first that did.
pub fn find_files(walks: &[Vec<Walked>]) -> (r: Result<Vec<String>, String>)
    ensures
        match failure_of(walks@) {
            Some(reason) => r == Err::<Vec<String>, String>(reason),
            None => r matches Ok(found) && ascending(found@) && forall|p: Seq<char>|
                holds(found@, p) <==> holds(all_sources(walks@), p),
        },
{
    let mut result: Vec<String> = Vec::new();
    let mut k: usize = 0;
    assert forall|p: Seq<char>| !holds(result@, p) by {}
    while k < walks.len()
        invariant
            k <= walks.len(),
            failure_of(walks@.take(k as int)) is None,
            ascending(result@),
            forall|p: Seq<char>|
                holds(result@, p) <==> holds(all_sources(walks@.take(k as int)), p),
        decreases walks.len() - k,
    {
        proof {
            assert(walks@.take(k + 1).drop_last() =~= walks@.take(k as int));
            assert(walks@.take(k + 1).last() == walks@[k as int]);
        }
        let ghost earlier = all_sources(walks@.take(k as int));
        let found = match find_single_source(&walks[k]) {
            Ok(found) => found,
            Err(reason) => {
                proof {
                    lemma_failure_of_stays(walks@, k + 1);
                }
                return Err(reason);
            },
        };
        let mut i: usize = 0;
        assert(found@.take(0) =~= Seq::<String>::empty());
        assert forall|p: Seq<char>| holds(result@, p) <==> holds(
            earlier + found@.take(0),
            p,
        ) by {
            lemma_holds_either(earlier, found@.take(0), p);
        }
        while i < found.len()
            invariant
                i <= found.len(),
                ascending(result@),
                forall|p: Seq<char>|
                    holds(result@, p) <==> holds(earlier + found@.take(i as int), p),
            decreases found.len() - i,
        {
            let ghost before = result@;
            insert_path(&mut result, found[i].clone());
            proof {
                let upto = found@.take(i as int);
                let next = found@.take(i + 1);
                assert(next =~= upto + seq![found@[i as int]]);
                assert forall|p: Seq<char>| holds(result@, p) <==> holds(earlier + next, p) by {
                    lemma_holds_either(earlier, upto, p);
                    lemma_holds_either(earlier, next, p);
                    lemma_holds_either(upto, seq![found@[i as int]], p);
                    if p == found@[i as int]@ {
                        assert(seq![found@[i as int]][0]@ == p);
                    }
                }
            }
            i = i + 1;
        }
        assert(found@.take(found.len() as int) =~= found@);
        k = k + 1;
    }
    assert(walks@.take(walks.len() as int) =~= walks@);
    Ok(result)
}

/// A fortune, and the name of the file that it comes from.
#[derive(Debug)]
pub struct Fortune {
    pub source: String,
    pub text: String,
}

/// A file of fortunes: its name and its content.
#[derive(Debug)]
pub struct SourceFile {
    pub name: String,
    pub content: Vec<u8>,
}

/// The byte that ends a fortune: the percent sign.
pub const END_OF_FORTUNE: u8 = 37;

/// Whether `c` is dropped at either end of a fortune: the percent sign
/// and the newline are.
pub open spec fn is_edge(c: char) -> bool {
    c == '%' || c == '\n'
}

/// `s` without the percent signs and newlines that it begins with.
pub open spec fn trim_start(s: Seq<char>) -> Seq<char>
    decreases s.len(),
{
    if s.len() > 0 && is_edge(s[0]) {
        trim_start(s.drop_first())
    } else {
        s
    }
}

/// `s` without the percent signs and newlines that it ends with.
pub open spec fn trim_end(s: Seq<char>) -> Seq<char>
    decreases s.len(),
{
    if s.len() > 0 && is_edge(s.last()) {
        trim_end(s.drop_last())
    } else {
        s
    }
}

/// `s` without the percent signs and newlines at either end.
pub open spec fn trimmed(s: Seq<char>) -> Seq<char> {
    trim_end(trim_start(s))
}

/// The length of the first piece of `bytes`: up to the first percent
/// sign and with it, or all of `bytes` if they hold none.
pub open spec fn piece_len(bytes: Seq<u8>) -> nat
    decreases bytes.len(),
{
    if bytes.len() == 0 {
        0
    } else if bytes[0] == END_OF_FORTUNE {
        1
    } else {
        1 + piece_len(bytes.drop_first())
    }
}

/// The first piece of `bytes` is within `bytes`, and is not empty
/// unless `bytes` is.
pub proof fn lemma_piece_len(bytes: Seq<u8>)
    ensures
        piece_len(bytes) <= bytes.len(),
        bytes.len() > 0 ==> piece_len(bytes) > 0,
    decreases bytes.len(),
{
    if bytes.len() > 0 && bytes[0] != END_OF_FORTUNE {
        lemma_piece_len(bytes.drop_first());
    }
}

/// The texts of the fortunes in `bytes`.
///
/// The bytes are cut after each percent sign. Each piece is read as
/// text, and loses the percent signs and newlines at both its ends.
/// What is left of it is a fortune, unless nothing is left.
pub open spec fn fortune_texts(bytes: Seq<u8>) -> Seq<Seq<char>>
    decreases bytes.len(),
    via fortune_texts_decreases
{
    if bytes.len() == 0 {
        Seq::empty()
    } else {
        let n = piece_len(bytes) as int;
        let text = trimmed(utf8_lossy(bytes.take(n)));
        let rest = fortune_texts(bytes.skip(n));
        if text.len() == 0 {
            rest
        } else {
            seq![text] + rest
        }
    }
}

#[via_fn]
proof fn fortune_texts_decreases(bytes: Seq<u8>) {
    lemma_piece_len(bytes);
}

/// `text` without the percent signs and newlines at either end.
pub fn trim(text: &str) -> (s: String)
    ensures
        s@ == trimmed(text@),
{
    let chars = chars_of(text);
    let mut from: usize = 0;
    assert(chars@.skip(0) =~= chars@);
    while from < chars.len() && (chars[from] == '%' || chars[from] == '\n')
        invariant
            from <= chars.len(),
            trim_start(chars@) == trim_start(chars@.skip(from as int)),
        decreases chars.len() - from,
    {
        assert(chars@.skip(from as int).drop_first() =~= chars@.skip(from + 1));
        from = from + 1;
    }
    let ghost kept = chars@.skip(from as int);
    assert(trim_start(chars@) == kept);
    let mut to: usize = chars.len();
    assert(kept.take(to - from) =~= kept);
    while to > from && (chars[to - 1] == '%' || chars[to - 1] == '\n')
        invariant
            from <= to <= chars.len(),
            kept == chars@.skip(from as int),
            trim_end(kept) == trim_end(kept.take(to - from)),
        decreases to,
    {
        assert(kept.take(to - from).drop_last() =~= kept.take(to - from - 1));
        assert(kept.take(to - from).last() == chars[to - 1]);
        to = to - 1;
    }
    assert(kept.take(to - from) =~= chars@.subrange(from as int, to as int));
    proof {
        let rest = kept.take(to - from);
        if rest.len() > 0 {
            assert(rest.last() == chars[to - 1]);
        }
    }
    string_of(&chars, from, to)
}

/// Whether `fortunes` are the fortunes with the texts `texts`, all from
/// the source `source`.
pub open spec fn are_fortunes(fortunes: Seq<Fortune>, source: Seq<char>, texts: Seq<Seq<char>>)
    -> bool {
    &&& fortunes.len() == texts.len()
    &&& forall|i: int|
        0 <= i < fortunes.len() ==> (#[trigger] fortunes[i]).source@ == source && fortunes[i].text@
            == texts[i]
}

/// The fortunes of the file `source` with the content `content`, in
/// their order.
pub fn parse_fortunes(source: &str, content: &Vec<u8>) -> (fortunes: Vec<Fortune>)
    ensures
        are_fortunes(fortunes@, source@, fortune_texts(content@)),
{
    let mut fortunes: Vec<Fortune> = Vec::new();
    let ghost mut texts: Seq<Seq<char>> = Seq::empty();
    let mut at: usize = 0;
    assert(content@.skip(0) =~= content@);
    while at < content.len()
        invariant
            at <= content.len(),
            are_fortunes(fortunes@, source@, texts),
            fortune_texts(content@) == texts + fortune_texts(content@.skip(at as int)),
        decreases content.len() - at,
    {
        let ghost rest = content@.skip(at as int);
        let mut piece: Vec<u8> = Vec::new();
        let mut end: usize = at;
        let mut closed = false;
        assert(rest.skip(0) =~= rest);
        while end < content.len() && !closed
            invariant
                at <= end <= content.len(),
                rest == content@.skip(at as int),
                piece@ == rest.take(end - at),
                closed ==> end > at && piece_len(rest) == end - at,
                !closed ==> piece_len(rest) == (end - at) + piece_len(rest.skip(end - at)),
            decreases content.len() - end + (if closed { 0int } else { 1int }),
        {
            let byte = content[end];
            proof {
                let tail = rest.skip(end - at);
                assert(tail[0] == byte);
                assert(tail.drop_first() =~= rest.skip(end - at + 1));
                assert(rest.take(end - at + 1) =~= rest.take(end - at).push(byte));
            }
            piece.push(byte);
            if byte == END_OF_FORTUNE {
                closed = true;
            }
            end = end + 1;
        }
        proof {
            lemma_piece_len(rest);
            if !closed {
                assert(rest.skip(end - at).len() == 0);
            }
            assert(rest.skip(end - at) =~= content@.skip(end as int));
        }
        let text = trim(from_utf8_lossy(&piece).as_str());
        if text.as_str().unicode_len() > 0 {
            let ghost before = fortunes@;
            proof {
                assert((texts + seq![text@]) + fortune_texts(content@.skip(end as int)) =~= texts
                    + (seq![text@] + fortune_texts(content@.skip(end as int))));
                texts = texts + seq![text@];
            }
            fortunes.push(Fortune { source: String::from_str(source), text });
        }
        at = end;
    }
    assert(texts + fortune_texts(content@.skip(at as int)) =~= texts);
    fortunes
}

/// The fortunes of `files`: those of each file in their order, the
/// files in theirs.
pub open spec fn fortunes_of(files: Seq<SourceFile>) -> Seq<(Seq<char>, Seq<char>)>
    decreases files.len(),
{
    if files.len() == 0 {
        Seq::empty()
    } else {
        fortunes_of(files.drop_last()) + fortune_texts(files.last().content@).map_values(
            |text: Seq<char>| (files.last().name@, text),
        )
    }
}

/// The source and the text of each of `fortunes`.
pub open spec fn told(fortunes: Seq<Fortune>) -> Seq<(Seq<char>, Seq<char>)> {
    fortunes.map_values(|f: Fortune| (f.source@, f.text@))
}

/// All fortunes of `files`.
pub fn read_fortunes(files: &[SourceFile]) -> (fortunes: Vec<Fortune>)
    ensures
        told(fortunes@) == fortunes_of(files@),
{
    let mut result: Vec<Fortune> = Vec::new();
    let mut k: usize = 0;
    assert(told(result@) =~= fortunes_of(files@.take(0)));
    while k < files.len()
        invariant
            k <= files.len(),
            told(result@) == fortunes_of(files@.take(k as int)),
        decreases files.len() - k,
    {
        let mut found = parse_fortunes(files[k].name.as_str(), &files[k].content);
        proof {
            assert(files@.take(k + 1).drop_last() =~= files@.take(k as int));
            assert(files@.take(k + 1).last() == files@[k as int]);
            let name = files@[k as int].name@;
            let texts = fortune_texts(files@[k as int].content@);
            assert(told(found@) =~= texts.map_values(|text: Seq<char>| (name, text)));
            assert(told(result@ + found@) =~= told(result@) + told(found@));
        }
        result.append(&mut found);
        k = k + 1;
    }
    assert(files@.take(files.len() as int) =~= files@);
    result
}

/// `rand::rngs::StdRng`: a generator of random numbers.
#[verifier::external_type_specification]
#[verifier::external_body]
pub struct ExStdRng(rand::rngs::StdRng);

/// `StdRng::seed_from_u64`: a generator seeded with `seed`.
#[verifier::external_body]
fn seeded(seed: u64) -> rand::rngs::StdRng {
    <rand::rngs::StdRng as rand::SeedableRng>::seed_from_u64(seed)
}

/// `StdRng::from_rng` on `rand::thread_rng()`: a generator seeded by
/// the generator of the thread, or nothing where `from_rng` reports an
/// error.
#[verifier::external_body]
fn seeded_by_thread() -> Option<rand::rngs::StdRng> {
    <rand::rngs::StdRng as rand::SeedableRng>::from_rng(rand::thread_rng()).ok()
}

/// `Rng::gen_range` for the range from 0 to `len`, which is a number of
/// that range. An empty range makes it panic.
#[verifier::external_body]
fn index_below(rng: &mut rand::rngs::StdRng, len: usize) -> (i: usize)
    requires
        len > 0,
    ensures
        i < len,
{
    rand::Rng::gen_range(rng, 0..len)
}

/// The text of the fortune at place `pick`, if there is such a place.
pub fn fortune_at(fortunes: &[Fortune], pick: Option<usize>) -> (r: Option<String>)
    ensures
        match pick {
            Some(i) if i < fortunes.len() => r == Some(fortunes[i as int].text),
            _ => r is None,
        },
{
    match pick {
        Some(i) => {
            if i < fortunes.len() {
                Some(fortunes[i].text.clone())
            } else {
                None
            }
        },
        None => None,
    }
}

/// The text of one of `fortunes`, picked at random: with a seed, by a
/// generator that is seeded with it, and else by one that the generator
/// of the thread seeds. There is none to pick among no fortunes, and
/// none where the seeding reports an error.
pub fn pick_fortune(fortunes: &[Fortune], seed: Option<u64>) -> (r: Option<String>)
    ensures
        fortunes.len() == 0 ==> r is None,
        fortunes.len() > 0 && seed is Some ==> r is Some,
        r matches Some(text) ==> exists|i: int|
            0 <= i < fortunes.len() && text == (#[trigger] fortunes[i]).text,
{
    if fortunes.len() == 0 {
        return None;
    }
    let rng = match seed {
        Some(seed) => Some(seeded(seed)),
        None => seeded_by_thread(),
    };
    match rng {
        Some(mut rng) => fortune_at(fortunes, Some(index_below(&mut rng, fortunes.len()))),
        None => None,
    }
}

/// A fortune to show, after the name of its source where that is to be
/// shown too.
#[derive(Debug)]
pub struct Shown {
    /// The source, where this fortune is the first to be shown of it
    /// since a fortune of another source.
    pub source: Option<String>,
    pub text: String,
}

/// What is shown of the first fortunes of `fortunes`, as many as there
/// are flags in `flags`: the source of each fortune whose flag is set,
/// together with its text.
pub open spec fn flagged(fortunes: Seq<Fortune>, flags: Seq<bool>) -> Seq<(Seq<char>, Seq<char>)>
    decreases flags.len(),
{
    if flags.len() == 0 || flags.len() > fortunes.len() {
        Seq::empty()
    } else {
        let before = flagged(fortunes, flags.drop_last());
        if flags.last() {
            before.push((fortunes[flags.len() - 1].source@, fortunes[flags.len() - 1].text@))
        } else {
            before
        }
    }
}

/// Whether `shown` shows the fortunes `picked`, given as source and
/// text: each with its text, and with its source where that differs from
/// the source of the fortune before it, or where there is none before
/// it.
pub open spec fn shows(shown: Seq<Shown>, picked: Seq<(Seq<char>, Seq<char>)>) -> bool {
    &&& shown.len() == picked.len()
    &&& forall|i: int|
        0 <= i < shown.len() ==> {
            &&& (#[trigger] shown[i]).text@ == picked[i].1
            &&& match shown[i].source {
                Some(source) => source@ == picked[i].0 && (i == 0 || picked[i - 1].0
                    != picked[i].0),
                None => i > 0 && picked[i - 1].0 == picked[i].0,
            }
        }
}

/// What to show of `fortunes`, of which `flags` says which ones are to
/// be shown.
pub fn select_flagged(fortunes: &[Fortune], flags: &Vec<bool>) -> (shown: Vec<Shown>)
    requires
        flags.len() == fortunes.len(),
    ensures
        shows(shown@, flagged(fortunes@, flags@)),
{
    let mut shown: Vec<Shown> = Vec::new();
    let mut prev: Option<usize> = None;
    let mut k: usize = 0;
    assert(flags@.take(0) =~= Seq::<bool>::empty());
    while k < fortunes.len()
        invariant
            k <= fortunes.len(),
            flags.len() == fortunes.len(),
            shows(shown@, flagged(fortunes@, flags@.take(k as int))),
            match prev {
                Some(j) => j < k && shown.len() > 0 && flagged(
                    fortunes@,
                    flags@.take(k as int),
                ).last().0 == fortunes[j as int].source@,
                None => shown.len() == 0,
            },
        decreases fortunes.len() - k,
    {
        proof {
            assert(flags@.take(k + 1).drop_last() =~= flags@.take(k as int));
            assert(flags@.take(k + 1).last() == flags@[k as int]);
        }
        if flags[k] {
            let fresh = match prev {
                Some(j) => fortunes[j].source != fortunes[k].source,
                None => true,
            };
            let source = if fresh {
                Some(fortunes[k].source.clone())
            } else {
                None
            };
            shown.push(Shown { source, text: fortunes[k].text.clone() });
            prev = Some(k);
        }
        k = k + 1;
    }
    assert(flags@.take(flags.len() as int) =~= flags@);
    shown
}

/// What to show of `fortunes` for `pattern`: the fortunes in whose text
/// the pattern matches somewhere. There is nothing to show for a
/// pattern that is no regular expression.
pub fn find_matching(fortunes: &[Fortune], pattern: &Pattern) -> (r: Option<Vec<Shown>>)
    ensures
        r is Some <==> pattern.valid(),
        r matches Some(shown) ==> shows(
            shown@,
            flagged(
                fortunes@,
                Seq::new(fortunes@.len(), |i: int| pattern.matches(fortunes[i].text@)),
            ),
        ),
{
    let mut texts: Vec<String> = Vec::new();
    let mut k: usize = 0;
    while k < fortunes.len()
        invariant
            k <= fortunes.len(),
            texts.len() == k,
            forall|i: int| 0 <= i < k ==> #[trigger] texts[i] == fortunes[i].text,
        decreases fortunes.len() - k,
    {
        texts.push(fortunes[k].text.clone());
        k = k + 1;
    }
    match match_each(pattern, &texts) {
        Some(flags) => {
            assert(flags@ =~= Seq::new(
                fortunes@.len(),
                |i: int| pattern.matches(fortunes[i].text@),
            ));
            Some(select_flagged(fortunes, &flags))
        },
        None => None,
    }
}

} // verus!
