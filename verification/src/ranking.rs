//! The species met most often, for the presentation of a session.

use crate::stats::{as_map, distinct_names, names_species, position_of, MonStats};
use crate::text::chars_of;
use vstd::prelude::*;
use vstd::string::*;

verus! {

/// A species with its count.
pub type Entry = (Seq<char>, nat);

/// `a` and `b` agree on their first `i` characters.
pub open spec fn agree_up_to(a: Seq<char>, b: Seq<char>, i: int) -> bool {
    &&& 0 <= i <= a.len()
    &&& i <= b.len()
    &&& forall|j: int| 0 <= j < i ==> a[j] == b[j]
}

/// `a` stands before `b` in the dictionary, characters compared by their
/// code points: at the first place where they differ `a` has ended or has
/// the lesser character.
pub open spec fn name_before(a: Seq<char>, b: Seq<char>) -> bool {
    exists|i: int| #[trigger]
        agree_up_to(a, b, i) && i < b.len() && (i == a.len() || a[i] < b[i])
}

/// `a` is shown before `b`: it was met more often, or as often and its name
/// stands first in the dictionary.
pub open spec fn ranks_before(a: Entry, b: Entry) -> bool {
    a.1 > b.1 || (a.1 == b.1 && name_before(a.0, b.0))
}

/// `top` lists the species of `m` that are shown first, at most `limit` of
/// them: each with its count, in the order in which they are shown, and no
/// species that is left out would be shown before one that is listed.
pub open spec fn is_top(m: Map<Seq<char>, nat>, top: Seq<Entry>, limit: nat) -> bool {
    &&& top.len() <= limit
    &&& forall|i: int|
        0 <= i < top.len() ==> m.contains_key((#[trigger] top[i]).0) && m[top[i].0] == top[i].1
    &&& forall|i: int, j: int|
        0 <= i < j < top.len() ==> ranks_before(#[trigger] top[i], #[trigger] top[j])
    &&& forall|k: Seq<char>| #[trigger]
        m.contains_key(k) ==> listed(top, k) || (top.len() == limit && forall|i: int|
            0 <= i < top.len() ==> ranks_before(#[trigger] top[i], (k, m[k])))
}

/// The species `k` stands in the list.
pub open spec fn listed(top: Seq<Entry>, k: Seq<char>) -> bool {
    exists|i: int| 0 <= i < top.len() && (#[trigger] top[i]).0 == k
}

/// The entries of a list as plain values.
pub open spec fn entry_views(e: Seq<(String, u32)>) -> Seq<Entry> {
    Seq::new(e.len(), |i: int| (e[i].0@, e[i].1 as nat))
}

/// Dictionary order is transitive.
pub proof fn lemma_name_before_transitive(a: Seq<char>, b: Seq<char>, c: Seq<char>)
    requires
        name_before(a, b),
        name_before(b, c),
    ensures
        name_before(a, c),
{
    let i = choose|i: int| #[trigger]
        agree_up_to(a, b, i) && i < b.len() && (i == a.len() || a[i] < b[i]);
    let j = choose|j: int| #[trigger]
        agree_up_to(b, c, j) && j < c.len() && (j == b.len() || b[j] < c[j]);
    let k = if i <= j {
        i
    } else {
        j
    };
    assert(agree_up_to(a, c, k));
}

/// The order in which species are shown is transitive.
pub proof fn lemma_ranks_before_transitive(a: Entry, b: Entry, c: Entry)
    requires
        ranks_before(a, b),
        ranks_before(b, c),
    ensures
        ranks_before(a, c),
{
    if a.1 == b.1 && b.1 == c.1 {
        lemma_name_before_transitive(a.0, b.0, c.0);
    }
}

/// No entry is shown before itself, and of two entries at most one is shown
/// before the other.
pub proof fn lemma_ranks_before_asymmetric(a: Entry, b: Entry)
    ensures
        !ranks_before(a, a),
        !(ranks_before(a, b) && ranks_before(b, a)),
{
    if name_before(a.0, a.0) {
        let i = choose|i: int| #[trigger]
            agree_up_to(a.0, a.0, i) && i < a.0.len() && (i == a.0.len() || a.0[i] < a.0[i]);
        assert(false);
    }
    if ranks_before(a, b) && ranks_before(b, a) {
        lemma_ranks_before_transitive(a, b, a);
    }
}

/// Two lists of the species shown first agree as far as both reach.
proof fn lemma_tops_agree(m: Map<Seq<char>, nat>, a: Seq<Entry>, b: Seq<Entry>, limit: nat, i: int)
    requires
        is_top(m, a, limit),
        is_top(m, b, limit),
        0 <= i < a.len(),
        i < b.len(),
    ensures
        forall|j: int| 0 <= j <= i ==> a[j] == b[j],
    decreases i,
{
    if i > 0 {
        lemma_tops_agree(m, a, b, limit, i - 1);
    }
    lemma_shown_no_later(m, a, b, limit, i);
    lemma_shown_no_later(m, b, a, limit, i);
    lemma_ranks_before_asymmetric(a[i], b[i]);
}

/// Where two lists of the species shown first agree before position `i`, the
/// entry of the one at `i` is that of the other or is shown after it.
proof fn lemma_shown_no_later(
    m: Map<Seq<char>, nat>,
    a: Seq<Entry>,
    b: Seq<Entry>,
    limit: nat,
    i: int,
)
    requires
        is_top(m, a, limit),
        is_top(m, b, limit),
        0 <= i < a.len(),
        i < b.len(),
        forall|j: int| 0 <= j < i ==> a[j] == b[j],
    ensures
        a[i] == b[i] || ranks_before(b[i], a[i]),
{
    let k = a[i].0;
    assert(m.contains_key(k) && m[k] == a[i].1);
    assert(a[i] == (k, m[k]));
    if listed(b, k) {
        let j = choose|j: int| 0 <= j < b.len() && (#[trigger] b[j]).0 == k;
        assert(m[b[j].0] == b[j].1);
        assert(b[j] == a[i]);
        if j < i {
            assert(a[j] == b[j]);
            assert(ranks_before(a[j], a[i]));
            lemma_ranks_before_asymmetric(a[i], a[i]);
        } else if j > i {
            assert(ranks_before(b[i], b[j]));
        }
    } else {
        assert(ranks_before(b[i], (k, m[k])));
    }
}

/// A mapping has one list of the species shown first, and no other.
pub proof fn law_top_is_unique(m: Map<Seq<char>, nat>, a: Seq<Entry>, b: Seq<Entry>, limit: nat)
    requires
        is_top(m, a, limit),
        is_top(m, b, limit),
    ensures
        a == b,
{
    if a.len() <= b.len() {
        lemma_tops_same_length(m, a, b, limit);
    } else {
        lemma_tops_same_length(m, b, a, limit);
    }
    if a.len() > 0 {
        lemma_tops_agree(m, a, b, limit, a.len() - 1);
    }
    assert(a =~= b);
}

/// Of two lists of the species shown first, the shorter is as long as the
/// longer.
proof fn lemma_tops_same_length(m: Map<Seq<char>, nat>, a: Seq<Entry>, b: Seq<Entry>, limit: nat)
    requires
        is_top(m, a, limit),
        is_top(m, b, limit),
        a.len() <= b.len(),
    ensures
        a.len() == b.len(),
{
    if a.len() < b.len() {
        let n = a.len() as int;
        if n > 0 {
            lemma_tops_agree(m, a, b, limit, n - 1);
        }
        let k = b[n].0;
        assert(m.contains_key(k));
        if listed(a, k) {
            let j = choose|j: int| 0 <= j < a.len() && (#[trigger] a[j]).0 == k;
            assert(a[j] == b[j]);
            assert(m[b[j].0] == b[j].1);
            assert(m[b[n].0] == b[n].1);
            assert(b[j] == b[n]);
            assert(ranks_before(b[j], b[n]));
            lemma_ranks_before_asymmetric(b[n], b[n]);
        }
    }
}

/// Tests whether `a` stands before `b` in the dictionary. Of two different
/// names one stands before the other.
pub fn stands_before(a: &Vec<char>, b: &Vec<char>) -> (r: bool)
    ensures
        r == name_before(a@, b@),
        !r && a@ != b@ ==> name_before(b@, a@),
{
    let mut i: usize = 0;
    while i < a.len() && i < b.len() && a[i] == b[i]
        invariant
            agree_up_to(a@, b@, i as int),
        decreases a.len() - i,
    {
        i += 1;
    }
    let r = i < b.len() && (i == a.len() || a[i] < b[i]);
    proof {
        if !r {
            if name_before(a@, b@) {
                let w = choose|w: int| #[trigger]
                    agree_up_to(a@, b@, w) && w < b.len() && (w == a.len() || a@[w] < b@[w]);
                assert(false);
            }
            if a@ != b@ {
                if i == b.len() && i == a.len() {
                    assert(a@ =~= b@);
                }
                assert(agree_up_to(b@, a@, i as int));
                if i < b.len() {
                    assert(i < a.len());
                    assert(a@[i as int] != b@[i as int]);
                    assert(b@[i as int] < a@[i as int]);
                }
                assert(i < a.len());
            }
        }
    }
    r
}

/// Tests whether the entry `a` is shown before the entry `b`.
fn shown_before(a: &(String, u32), b: &(String, u32)) -> (r: bool)
    ensures
        r == ranks_before((a.0@, a.1 as nat), (b.0@, b.1 as nat)),
        !r && a.0@ != b.0@ ==> ranks_before((b.0@, b.1 as nat), (a.0@, a.1 as nat)),
{
    if a.1 != b.1 {
        a.1 > b.1
    } else {
        let x = chars_of(a.0.as_str());
        let y = chars_of(b.0.as_str());
        stands_before(&x, &y)
    }
}

/// Among the entries that are shown after the entry at `after` (all entries
/// where that is `None`), finds the one that is shown first.
fn next_shown(e: &Vec<(String, u32)>, after: Option<usize>) -> (r: Option<usize>)
    requires
        distinct_names(e@),
        after matches Some(a) ==> a < e.len(),
    ensures
        match r {
            Some(b) => {
                &&& b < e.len()
                &&& follows(e@, after, b as int)
                &&& forall|j: int|
                    0 <= j < e.len() && j != b && follows(e@, after, j) ==> ranks_before(
                        #[trigger] entry_views(e@)[b as int],
                        entry_views(e@)[j],
                    )
            },
            None => forall|j: int| 0 <= j < e.len() ==> !follows(e@, after, j),
        },
{
    let ghost ev = entry_views(e@);
    let mut best: Option<usize> = None;
    let mut j: usize = 0;
    while j < e.len()
        invariant
            j <= e.len(),
            ev == entry_views(e@),
            distinct_names(e@),
            after matches Some(a) ==> a < e.len(),
            match best {
                Some(b) => {
                    &&& b < j
                    &&& follows(e@, after, b as int)
                    &&& forall|c: int|
                        0 <= c < j && c != b && follows(e@, after, c) ==> ranks_before(
                            ev[b as int],
                            #[trigger] ev[c],
                        )
                },
                None => forall|c: int| 0 <= c < j ==> !follows(e@, after, c),
            },
        decreases e.len() - j,
    {
        let candidate = match after {
            Some(a) => shown_before(&e[a], &e[j]),
            None => true,
        };
        assert(candidate == follows(e@, after, j as int));
        if candidate {
            match best {
                Some(b) => {
                    if shown_before(&e[j], &e[b]) {
                        assert forall|c: int|
                            0 <= c < j + 1 && c != j && follows(e@, after, c) implies ranks_before(
                            ev[j as int],
                            #[trigger] ev[c],
                        ) by {
                            if c != b {
                                lemma_ranks_before_transitive(ev[j as int], ev[b as int], ev[c]);
                            }
                        }
                        best = Some(j);
                    } else {
                        assert(e@[j as int].0@ != e@[b as int].0@);
                    }
                },
                None => {
                    best = Some(j);
                },
            }
        }
        j += 1;
    }
    best
}

/// The entry at `j` is shown after the entry at `after`; every entry is where
/// `after` is `None`.
spec fn follows(e: Seq<(String, u32)>, after: Option<usize>, j: int) -> bool {
    match after {
        Some(a) => ranks_before(entry_views(e)[a as int], entry_views(e)[j]),
        None => true,
    }
}

/// The position `c` is among those picked.
spec fn is_picked(picked: Seq<usize>, c: int) -> bool {
    exists|i: int| 0 <= i < picked.len() && #[trigger] picked[i] == c
}

/// Every entry picked so far is shown before the entry at `c`.
spec fn behind_all(ev: Seq<Entry>, picked: Seq<usize>, c: int) -> bool {
    forall|i: int| 0 <= i < picked.len() ==> ranks_before(ev[#[trigger] picked[i] as int], ev[c])
}

impl MonStats {
    /// The species that are shown first, at most `limit` of them: those met
    /// most often, and among species met equally often those whose name
    /// stands first in the dictionary.
    pub fn top(&self, limit: usize) -> (top: Vec<(String, u32)>)
        requires
            self.wf(),
        ensures
            is_top(self@, entry_views(top@), limit as nat),
    {
        let e = self.entries();
        proof {
            self.lemma_listing();
        }
        let ghost ev = entry_views(e@);
        let ghost m = self@;
        let mut top: Vec<(String, u32)> = Vec::new();
        let mut picked: Vec<usize> = Vec::new();
        let mut last: Option<usize> = None;
        let mut full: bool = false;
        while top.len() < limit && !full
            invariant
                distinct_names(e@),
                ev == entry_views(e@),
                m == as_map(e@),
                top.len() <= limit,
                picked.len() == top.len(),
                last is None <==> top.len() == 0,
                last matches Some(a) ==> a == picked[picked.len() - 1],
                forall|i: int| 0 <= i < picked.len() ==> (#[trigger] picked[i]) < e.len(),
                forall|i: int|
                    0 <= i < top.len() ==> (#[trigger] entry_views(top@)[i]) == ev[picked[i] as int],
                forall|i: int, j: int|
                    0 <= i < j < top.len() ==> ranks_before(
                        ev[#[trigger] picked[i] as int],
                        ev[#[trigger] picked[j] as int],
                    ),
                forall|c: int|
                    0 <= c < e.len() ==> #[trigger] is_picked(picked@, c) || behind_all(
                        ev,
                        picked@,
                        c,
                    ),
                full ==> forall|c: int| 0 <= c < e.len() ==> #[trigger] is_picked(picked@, c),
            decreases
                    (limit - top.len()) + if full {
                        0int
                    } else {
                        1int
                    },
        {
            match next_shown(e, last) {
                Some(b) => {
                    let ghost old_picked = picked@;
                    let ghost old_top = top@;
                    let ghost prior_last = last;
                    let n = picked.len();
                    proof {
                        assert forall|i: int| 0 <= i < n implies ranks_before(
                            ev[#[trigger] old_picked[i] as int],
                            ev[b as int],
                        ) by {
                            if i < n - 1 {
                                lemma_ranks_before_transitive(
                                    ev[old_picked[i] as int],
                                    ev[old_picked[n - 1] as int],
                                    ev[b as int],
                                );
                            }
                        }
                    }
                    top.push((e[b].0.clone(), e[b].1));
                    picked.push(b);
                    last = Some(b);
                    proof {
                        assert(forall|i: int| 0 <= i < n ==> picked[i] == old_picked[i]);
                        assert(picked[n as int] == b);
                        assert forall|i: int| 0 <= i < top.len() implies (#[trigger] entry_views(
                            top@,
                        )[i]) == ev[picked[i] as int] by {
                            if i < n {
                                assert(entry_views(old_top)[i] == ev[old_picked[i] as int]);
                                assert(top@[i] == old_top[i]);
                            }
                        }
                        assert forall|c: int| 0 <= c < e.len() implies #[trigger] is_picked(
                            picked@,
                            c,
                        ) || behind_all(ev, picked@, c) by {
                            if c == b {
                                assert(picked[n as int] == c);
                            } else if is_picked(old_picked, c) {
                                let i = choose|i: int|
                                    0 <= i < old_picked.len() && #[trigger] old_picked[i] == c;
                                assert(picked[i] == c);
                            } else {
                                assert(behind_all(ev, old_picked, c));
                                if n > 0 {
                                    assert(ranks_before(ev[old_picked[n - 1] as int], ev[c]));
                                }
                                assert(follows(e@, prior_last, c));
                                assert(ranks_before(ev[b as int], ev[c]));
                                assert forall|i: int| 0 <= i < picked.len() implies ranks_before(
                                    ev[#[trigger] picked[i] as int],
                                    ev[c],
                                ) by {
                                    if i < n {
                                        assert(picked[i] == old_picked[i]);
                                    }
                                }
                            }
                        }
                    }
                },
                None => {
                    proof {
                        assert forall|c: int| 0 <= c < e.len() implies #[trigger] is_picked(
                            picked@,
                            c,
                        ) by {
                            assert(!follows(e@, last, c));
                            if picked.len() > 0 {
                                assert(!ranks_before(ev[picked[picked.len() - 1] as int], ev[c]));
                            }
                            assert(is_picked(picked@, c) || behind_all(ev, picked@, c));
                        }
                    }
                    full = true;
                },
            }
        }
        proof {
            let tv = entry_views(top@);
            assert forall|i: int| 0 <= i < tv.len() implies m.contains_key((#[trigger] tv[i]).0)
                && m[tv[i].0] == tv[i].1 by {
                let p = picked[i] as int;
                assert(tv[i] == ev[p]);
                assert(e@[p].0@ == tv[i].0);
                assert(names_species(e@, tv[i].0));
                assert(position_of(e@, tv[i].0) == p);
            }
            assert forall|i: int, j: int| 0 <= i < j < tv.len() implies ranks_before(
                #[trigger] tv[i],
                #[trigger] tv[j],
            ) by {
                assert(ranks_before(ev[picked[i] as int], ev[picked[j] as int]));
            }
            assert forall|k: Seq<char>| #[trigger] m.contains_key(k) implies listed(tv, k) || (
            tv.len() == limit && forall|i: int|
                0 <= i < tv.len() ==> ranks_before(#[trigger] tv[i], (k, m[k]))) by {
                let c = position_of(e@, k);
                assert(e@[c].0@ == k);
                assert(ev[c] == (k, m[k]));
                if is_picked(picked@, c) {
                    let i = choose|i: int| 0 <= i < picked.len() && #[trigger] picked[i] == c;
                    assert(tv[i] == ev[c]);
                    assert(listed(tv, k));
                } else {
                    assert(!full);
                    assert(behind_all(ev, picked@, c));
                    assert forall|i: int| 0 <= i < tv.len() implies ranks_before(
                        #[trigger] tv[i],
                        (k, m[k]),
                    ) by {
                        assert(ranks_before(ev[picked[i] as int], ev[c]));
                    }
                }
            }
        }
        top
    }

    /// The five species that are shown first.
    pub fn top_five(&self) -> (top: Vec<(String, u32)>)
        requires
            self.wf(),
        ensures
            is_top(self@, entry_views(top@), 5),
    {
        self.top(5)
    }
}

} // verus!
