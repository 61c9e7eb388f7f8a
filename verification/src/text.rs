//! Character-level text handling: case folding, substring search, the
//! recognizer-error correction and splitting a line into words.

use vstd::prelude::*;
use vstd::string::*;

verus! {

/// The lowercase form of a text, as Unicode defines it.
pub uninterp spec fn lowercase(s: Seq<char>) -> Seq<char>;

/// Whether a character has the Unicode property `White_Space`.
pub uninterp spec fn white_space(c: char) -> bool;

/// `str::to_lowercase`: the result is the lowercase form of `s`. What that
/// form is on a given text is not stated here; it is only given a name.
#[verifier::external_body]
pub(crate) fn to_lower(s: &str) -> (out: String)
    ensures
        out@ == lowercase(s@),
{
    s.to_lowercase()
}

/// `char::is_whitespace`: the result tells whether `c` has the property
/// `White_Space`. Which characters have it is not stated here.
#[verifier::external_body]
pub(crate) fn is_space(c: char) -> (r: bool)
    ensures
        r == white_space(c),
{
    c.is_whitespace()
}

/// The characters of `s`, in order.
pub fn chars_of(s: &str) -> (out: Vec<char>)
    ensures
        out@ == s@,
{
    let mut out: Vec<char> = Vec::new();
    for c in it: s.chars()
        invariant
            it.seq() == s@,
            out@ == it.seq().take(it.index() as int),
    {
        out.push(c);
    }
    out
}

/// Tests whether two texts are the same.
pub fn same_text(a: &Vec<char>, b: &Vec<char>) -> (r: bool)
    ensures
        r == (a@ == b@),
{
    if a.len() != b.len() {
        return false;
    }
    let mut i: usize = 0;
    while i < a.len()
        invariant
            a.len() == b.len(),
            i <= a.len(),
            forall|j: int| 0 <= j < i ==> a@[j] == b@[j],
        decreases a.len() - i,
    {
        if a[i] != b[i] {
            return false;
        }
        i += 1;
    }
    assert(a@ =~= b@);
    true
}

/// `pat` stands in `s` at position `i`.
pub open spec fn occurs_at(s: Seq<char>, pat: Seq<char>, i: int) -> bool {
    0 <= i && i + pat.len() <= s.len() && s.subrange(i, i + pat.len()) == pat
}

/// `pat` stands somewhere in `s`.
pub open spec fn contains(s: Seq<char>, pat: Seq<char>) -> bool {
    exists|i: int| occurs_at(s, pat, i)
}

/// Tests whether `pat` stands in `s` at position `i`.
pub fn matches_at(s: &Vec<char>, pat: &Vec<char>, i: usize) -> (r: bool)
    ensures
        r == occurs_at(s@, pat@, i as int),
{
    if pat.len() > s.len() || i > s.len() - pat.len() {
        return false;
    }
    let mut k: usize = 0;
    while k < pat.len()
        invariant
            k <= pat.len(),
            i + pat.len() <= s.len(),
            forall|j: int| 0 <= j < k ==> s@[i + j] == pat@[j],
        decreases pat.len() - k,
    {
        if s[i + k] != pat[k] {
            assert(s@.subrange(i as int, i + pat.len())[k as int] != pat@[k as int]);
            return false;
        }
        k += 1;
    }
    assert(s@.subrange(i as int, i + pat.len()) =~= pat@);
    true
}

/// Tests whether `pat` stands somewhere in `s`.
pub fn has_substring(s: &Vec<char>, pat: &Vec<char>) -> (r: bool)
    ensures
        r == contains(s@, pat@),
{
    if pat.len() > s.len() {
        return false;
    }
    let last: usize = s.len() - pat.len();
    let mut i: usize = 0;
    loop
        invariant
            last == s.len() - pat.len(),
            i <= last,
            forall|j: int| 0 <= j < i ==> !occurs_at(s@, pat@, j),
        decreases last - i,
    {
        if matches_at(s, pat, i) {
            return true;
        }
        if i == last {
            return false;
        }
        i += 1;
    }
}

/// What the recognizer reads when it doubles the leading stroke of a level
/// marker.
pub open spec fn doubled_marker() -> Seq<char> {
    seq!['l', 'l', 'v', '.']
}

/// The level marker that `doubled_marker` is a misreading of.
pub open spec fn plain_marker() -> Seq<char> {
    seq!['l', 'v', '.']
}

/// `s` with every misread marker replaced, scanning from the left; text that a
/// replacement produced is not scanned again.
pub open spec fn corrected(s: Seq<char>) -> Seq<char>
    decreases s.len(),
{
    if s.len() < 4 {
        s
    } else if occurs_at(s, doubled_marker(), 0) {
        plain_marker() + corrected(s.skip(4))
    } else {
        seq![s[0]] + corrected(s.skip(1))
    }
}

/// Unfolds `corrected` at position `i` of `s`.
proof fn lemma_corrected_step(s: Seq<char>, i: int)
    requires
        0 <= i <= s.len(),
    ensures
        s.len() - i < 4 ==> corrected(s.skip(i)) == s.skip(i),
        s.len() - i >= 4 && occurs_at(s, doubled_marker(), i) ==> corrected(s.skip(i))
            == plain_marker() + corrected(s.skip(i + 4)),
        s.len() - i >= 4 && !occurs_at(s, doubled_marker(), i) ==> corrected(s.skip(i)) == seq![
            s[i],
        ] + corrected(s.skip(i + 1)),
{
    let t = s.skip(i);
    if t.len() >= 4 {
        assert(t.subrange(0, 4) =~= s.subrange(i, i + 4));
        assert(t.skip(4) =~= s.skip(i + 4));
        assert(t.skip(1) =~= s.skip(i + 1));
    }
}

/// Applies the recognizer-error correction to a line.
pub fn correct(line: &str) -> (out: String)
    ensures
        out@ == corrected(line@),
{
    let chars = chars_of(line);
    let n: usize = chars.len();
    let pat: Vec<char> = vec!['l', 'l', 'v', '.'];
    assert(pat@ =~= doubled_marker());
    let mut out = String::new();
    let mut kept: usize = 0;
    let mut i: usize = 0;
    assert(out@ + line@.subrange(0, 0) + corrected(line@.skip(0)) =~= corrected(line@)) by {
        assert(line@.skip(0) =~= line@);
    }
    while i < n && n - i >= 4
        invariant
            chars@ == line@,
            n == chars.len(),
            pat@ == doubled_marker(),
            kept <= i <= n,
            corrected(line@) == out@ + line@.subrange(kept as int, i as int) + corrected(
                line@.skip(i as int),
            ),
        decreases n - i,
    {
        proof {
            lemma_corrected_step(line@, i as int);
        }
        if matches_at(&chars, &pat, i) {
            let ghost before = out@;
            let ghost k0 = kept as int;
            let ghost i0 = i as int;
            out.append(line.substring_char(kept, i));
            proof {
                reveal_strlit("lv.");
            }
            out.append("lv.");
            i += 4;
            kept = i;
            proof {
                assert("lv."@ =~= plain_marker());
                assert(line@.subrange(kept as int, i as int) =~= Seq::<char>::empty());
                assert(out@ + line@.subrange(kept as int, i as int) + corrected(
                    line@.skip(i as int),
                ) =~= before + line@.subrange(k0, i0) + (plain_marker() + corrected(
                    line@.skip(i0 + 4),
                )));
            }
        } else {
            assert(line@.subrange(kept as int, i + 1) =~= line@.subrange(kept as int, i as int)
                + seq![line@[i as int]]);
            assert(out@ + line@.subrange(kept as int, i + 1) + corrected(line@.skip(i + 1))
                =~= out@ + line@.subrange(kept as int, i as int) + (seq![line@[i as int]]
                + corrected(line@.skip(i + 1))));
            i += 1;
        }
    }
    proof {
        lemma_corrected_step(line@, i as int);
        assert(line@.subrange(kept as int, i as int) + line@.skip(i as int) =~= line@.subrange(
            kept as int,
            n as int,
        ));
        assert(out@ + line@.subrange(kept as int, i as int) + line@.skip(i as int) =~= out@
            + (line@.subrange(kept as int, i as int) + line@.skip(i as int)));
    }
    out.append(line.substring_char(kept, n));
    out
}

/// The words of a line: its maximal runs of characters that are not white
/// space, from left to right.
pub open spec fn words(s: Seq<char>) -> Seq<Seq<char>>
    decreases s.len(),
{
    if s.len() == 0 {
        Seq::empty()
    } else {
        let head = s.drop_last();
        let before = words(head);
        if white_space(s.last()) {
            before
        } else if head.len() == 0 || white_space(head.last()) {
            before.push(seq![s.last()])
        } else {
            before.drop_last().push(before.last().push(s.last()))
        }
    }
}

/// `span` marks a run of characters of `s` that holds no white space and that
/// no neighbour could extend.
pub open spec fn is_word_span(s: Seq<char>, span: (int, int)) -> bool {
    &&& 0 <= span.0 < span.1 <= s.len()
    &&& forall|k: int| span.0 <= k < span.1 ==> !white_space(#[trigger] s[k])
    &&& (span.0 == 0 || white_space(s[span.0 - 1]))
    &&& (span.1 == s.len() || white_space(s[span.1]))
}

/// The texts that `spans` mark in `s`.
pub open spec fn texts_of(s: Seq<char>, spans: Seq<(usize, usize)>) -> Seq<Seq<char>> {
    Seq::new(spans.len(), |k: int| s.subrange(spans[k].0 as int, spans[k].1 as int))
}

/// Splits a line into words, each given by the positions where it starts
/// and ends.
pub fn split_words(s: &Vec<char>) -> (spans: Vec<(usize, usize)>)
    ensures
        texts_of(s@, spans@) == words(s@),
        forall|k: int| 0 <= k < spans.len() ==> is_word_span(s@, ((#[trigger] spans[k]).0 as int, spans[k].1 as int)),
        forall|j: int, k: int| 0 <= j < k < spans.len() ==> spans[j].1 < spans[k].0,
{
    let n: usize = s.len();
    let mut spans: Vec<(usize, usize)> = Vec::new();
    let mut start: usize = 0;
    let mut inside: bool = false;
    let mut i: usize = 0;
    assert(texts_of(s@.take(0), spans@) =~= words(s@.take(0)));
    while i < n
        invariant
            n == s.len(),
            i <= n,
            inside <==> (i > 0 && !white_space(s@[i - 1])),
            inside ==> start < i && words(s@.take(i as int)) == texts_of(s@, spans@).push(
                s@.subrange(start as int, i as int),
            ),
            inside ==> (start == 0 || white_space(s@[start - 1])),
            inside ==> forall|k: int| start <= k < i ==> !white_space(#[trigger] s@[k]),
            inside ==> forall|k: int| 0 <= k < spans.len() ==> (#[trigger] spans[k]).1 < start,
            !inside ==> words(s@.take(i as int)) == texts_of(s@, spans@),
            forall|k: int| 0 <= k < spans.len() ==> (#[trigger] spans[k]).1 <= i,
            forall|k: int|
                0 <= k < spans.len() ==> is_word_span(
                    s@,
                    ((#[trigger] spans[k]).0 as int, spans[k].1 as int),
                ),
            forall|j: int, k: int| 0 <= j < k < spans.len() ==> spans[j].1 < spans[k].0,
        decreases n - i,
    {
        let c = s[i];
        let blank = is_space(c);
        proof {
            let t = s@.take(i + 1);
            assert(t.drop_last() =~= s@.take(i as int));
            assert(t.last() == s@[i as int]);
            if i > 0 {
                assert(s@.take(i as int).last() == s@[i - 1]);
            }
        }
        if blank {
            if inside {
                let ghost prior = spans@;
                spans.push((start, i));
                assert(texts_of(s@, spans@) =~= texts_of(s@, prior).push(
                    s@.subrange(start as int, i as int),
                ));
                inside = false;
            }
        } else {
            if !inside {
                assert forall|k: int| 0 <= k < spans.len() implies (#[trigger] spans[k]).1 < i by {
                    assert(is_word_span(s@, (spans[k].0 as int, spans[k].1 as int)));
                }
                start = i;
                inside = true;
                assert(s@.subrange(start as int, i + 1) =~= seq![s@[i as int]]);
            } else {
                let ghost done = texts_of(s@, spans@);
                let ghost run = s@.subrange(start as int, i as int);
                assert(done.push(run).drop_last() =~= done);
                assert(run.push(s@[i as int]) =~= s@.subrange(start as int, i + 1));
            }
        }
        i += 1;
    }
    assert(s@.take(n as int) =~= s@);
    if inside {
        let ghost prior = spans@;
        spans.push((start, n));
        assert(texts_of(s@, spans@) =~= texts_of(s@, prior).push(
            s@.subrange(start as int, n as int),
        ));
    }
    spans
}

} // verus!
