//! One frame's reading: the species named on screen and whether a lure is
//! active, parsed from the recognized text lines.

use crate::text::{
    chars_of, contains, correct, corrected, has_substring, is_word_span, lowercase, matches_at,
    split_words, texts_of, to_lower, words,
};
use vstd::prelude::*;
use vstd::string::*;
use vstd::utf8::*;

verus! {

/// The least length, in bytes, that a species name must exceed.
pub const NAME_MIN_LEN: usize = 1;

/// What one captured frame shows.
#[derive(Debug)]
pub struct Reading {
    /// Candidate species, in the order in which the parser met them.
    pub names: Vec<String>,
    /// A lure is active.
    pub lure: bool,
}

/// A `Reading` as plain values.
pub struct ReadingView {
    pub names: Seq<Seq<char>>,
    pub lure: bool,
}

/// The texts of a list of strings.
pub open spec fn texts(v: Seq<String>) -> Seq<Seq<char>> {
    Seq::new(v.len(), |i: int| v[i]@)
}

impl View for Reading {
    type V = ReadingView;

    open spec fn view(&self) -> ReadingView {
        ReadingView { names: texts(self.names@), lure: self.lure }
    }
}

/// The views of a batch of readings.
pub open spec fn views(rs: Seq<Reading>) -> Seq<ReadingView> {
    Seq::new(rs.len(), |i: int| rs[i]@)
}

/// The word that announces an active lure.
pub open spec fn lure_word() -> Seq<char> {
    seq!['l', 'u', 'r', 'e']
}

/// A word that announces a level; the recognizer confuses the three.
pub open spec fn is_level_marker(w: Seq<char>) -> bool {
    w == seq!['l', 'v', '.'] || w == seq!['n', 'v', '.'] || w == seq!['n', 'i', 'v', '.']
}

/// The length of a word in bytes of UTF-8.
pub open spec fn byte_len(w: Seq<char>) -> nat {
    encode_utf8(w).len()
}

/// The names among the words of one line: each word that stands directly
/// before a level marker and is longer than `min_len`, from left to right.
pub open spec fn names_in(ws: Seq<Seq<char>>, min_len: nat) -> Seq<Seq<char>>
    decreases ws.len(),
{
    if ws.len() < 2 {
        Seq::empty()
    } else {
        let rest = names_in(ws.drop_last(), min_len);
        let candidate = ws[ws.len() - 2];
        if is_level_marker(ws.last()) && byte_len(candidate) > min_len {
            rest.push(candidate)
        } else {
            rest
        }
    }
}

/// The reading of one line that is already in lower case.
pub open spec fn scanned(lowered: Seq<char>, min_len: nat) -> ReadingView {
    let line = corrected(lowered);
    ReadingView { names: names_in(words(line), min_len), lure: contains(line, lure_word()) }
}

/// The reading of a frame: the names of its lines one after the other, and
/// a lure as soon as one line shows it. Absent lines count for nothing.
pub open spec fn parsed(lines: Seq<Option<Seq<char>>>, min_len: nat) -> ReadingView
    decreases lines.len(),
{
    if lines.len() == 0 {
        ReadingView { names: Seq::empty(), lure: false }
    } else {
        let rest = parsed(lines.drop_last(), min_len);
        match lines.last() {
            Some(line) => {
                let here = scanned(lowercase(line), min_len);
                ReadingView { names: rest.names + here.names, lure: rest.lure || here.lure }
            },
            None => rest,
        }
    }
}

/// The recognized lines of a frame as plain values.
pub open spec fn line_texts(lines: Seq<Option<String>>) -> Seq<Option<Seq<char>>> {
    Seq::new(
        lines.len(),
        |i: int|
            match lines[i] {
                Some(s) => Some(s@),
                None => None,
            },
    )
}

/// Tests whether the characters of `s` from `a` up to `b` are a level marker.
fn marker_at(s: &Vec<char>, a: usize, b: usize) -> (r: bool)
    requires
        a <= b <= s.len(),
    ensures
        r == is_level_marker(s@.subrange(a as int, b as int)),
{
    let lv: Vec<char> = vec!['l', 'v', '.'];
    let nv: Vec<char> = vec!['n', 'v', '.'];
    let niv: Vec<char> = vec!['n', 'i', 'v', '.'];
    assert(lv@ =~= seq!['l', 'v', '.']);
    assert(nv@ =~= seq!['n', 'v', '.']);
    assert(niv@ =~= seq!['n', 'i', 'v', '.']);
    let width: usize = b - a;
    proof {
        let w = s@.subrange(a as int, b as int);
        assert(w.len() == width);
        assert(seq!['l', 'v', '.'].len() == 3);
        assert(seq!['n', 'v', '.'].len() == 3);
        assert(seq!['n', 'i', 'v', '.'].len() == 4);
        if width == 3 {
            assert(w =~= s@.subrange(a as int, a + 3));
        }
        if width == 4 {
            assert(w =~= s@.subrange(a as int, a + 4));
        }
    }
    if width == 3 {
        matches_at(s, &lv, a) || matches_at(s, &nv, a)
    } else if width == 4 {
        matches_at(s, &niv, a)
    } else {
        false
    }
}

/// Reads one line that is already in lower case: corrects the known
/// misreading, looks for the lure word and collects the names.
pub fn scan_line(lowered: &str, min_len: usize) -> (r: Reading)
    ensures
        r@ == scanned(lowered@, min_len as nat),
{
    let fixed = correct(lowered);
    let chars = chars_of(fixed.as_str());
    let lure_pat: Vec<char> = vec!['l', 'u', 'r', 'e'];
    assert(lure_pat@ =~= lure_word());
    let lure = has_substring(&chars, &lure_pat);
    let spans = split_words(&chars);
    let ghost ws = words(chars@);
    let mut names: Vec<String> = Vec::new();
    if spans.len() < 2 {
        assert(texts(names@) =~= names_in(ws, min_len as nat));
        return Reading { names, lure };
    }
    let mut k: usize = 1;
    assert(texts(names@) =~= names_in(ws.take(1), min_len as nat));
    while k < spans.len()
        invariant
            1 <= k <= spans.len(),
            chars@ == fixed@,
            ws == words(chars@),
            texts_of(chars@, spans@) == ws,
            forall|j: int|
                0 <= j < spans.len() ==> is_word_span(
                    chars@,
                    ((#[trigger] spans[j]).0 as int, spans[j].1 as int),
                ),
            texts(names@) == names_in(ws.take(k as int), min_len as nat),
        decreases spans.len() - k,
    {
        let (a, b) = spans[k];
        let (pa, pb) = spans[k - 1];
        proof {
            assert(is_word_span(chars@, (spans[k as int].0 as int, spans[k as int].1 as int)));
            assert(is_word_span(chars@, (spans[k - 1].0 as int, spans[k - 1].1 as int)));
            let t = ws.take(k + 1);
            assert(t.drop_last() =~= ws.take(k as int));
            assert(t.last() == chars@.subrange(a as int, b as int));
            assert(t[t.len() - 2] == chars@.subrange(pa as int, pb as int));
        }
        if marker_at(&chars, a, b) {
            let candidate = fixed.as_str().substring_char(pa, pb);
            if candidate.as_bytes().len() > min_len {
                let ghost prior = names@;
                names.push(candidate.to_owned());
                assert(texts(names@) =~= texts(prior).push(candidate@));
            }
        }
        k += 1;
    }
    assert(ws.take(k as int) =~= ws);
    Reading { names, lure }
}

/// Parses the recognized text lines of one frame into a reading. Every line
/// that is present is put in lower case and scanned; names keep the order of
/// the lines.
pub fn get_mons(lines: &Vec<Option<String>>, min_len: usize) -> (r: Reading)
    ensures
        r@ == parsed(line_texts(lines@), min_len as nat),
{
    let mut names: Vec<String> = Vec::new();
    let mut lure: bool = false;
    let ghost all = line_texts(lines@);
    let mut i: usize = 0;
    assert(texts(names@) =~= parsed(all.take(0), min_len as nat).names);
    while i < lines.len()
        invariant
            i <= lines.len(),
            all == line_texts(lines@),
            texts(names@) == parsed(all.take(i as int), min_len as nat).names,
            lure == parsed(all.take(i as int), min_len as nat).lure,
        decreases lines.len() - i,
    {
        proof {
            let t = all.take(i + 1);
            assert(t.drop_last() =~= all.take(i as int));
            assert(t.last() == all[i as int]);
        }
        match &lines[i] {
            Some(line) => {
                let lowered = to_lower(line.as_str());
                let mut here = scan_line(lowered.as_str(), min_len);
                if here.lure {
                    lure = true;
                }
                let ghost prior = names@;
                let ghost added = here.names@;
                names.append(&mut here.names);
                assert(texts(names@) =~= texts(prior) + texts(added));
            },
            None => {},
        }
        i += 1;
    }
    assert(all.take(lines.len() as int) =~= all);
    Reading { names, lure }
}

} // verus!
