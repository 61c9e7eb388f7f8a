//! Per-species encounter counts.

use crate::reading::texts;
use crate::text::{chars_of, same_text};
use vstd::prelude::*;
use vstd::string::*;

verus! {

/// How often `k` occurs in `names`.
pub open spec fn occurrences(names: Seq<Seq<char>>, k: Seq<char>) -> nat
    decreases names.len(),
{
    if names.len() == 0 {
        0
    } else {
        occurrences(names.drop_last(), k) + if names.last() == k {
            1nat
        } else {
            0nat
        }
    }
}

/// The count that `m` holds for `k`; a species that `m` does not know counts
/// zero.
pub open spec fn count_in(m: Map<Seq<char>, nat>, k: Seq<char>) -> nat {
    if m.contains_key(k) {
        m[k]
    } else {
        0
    }
}

/// Every count of `m` can take the occurrences of `names` on top.
pub open spec fn has_room(m: Map<Seq<char>, nat>, names: Seq<Seq<char>>) -> bool {
    forall|k: Seq<char>| count_in(m, k) + #[trigger] occurrences(names, k) <= u32::MAX
}

/// `m` after each occurrence of a species in `names` has raised the count of
/// that species by one.
pub open spec fn tallied(m: Map<Seq<char>, nat>, names: Seq<Seq<char>>) -> Map<Seq<char>, nat> {
    Map::new(
        |k: Seq<char>| m.contains_key(k) || names.contains(k),
        |k: Seq<char>| count_in(m, k) + occurrences(names, k),
    )
}

/// A species occurs in a list exactly when its number of occurrences is not
/// zero.
pub proof fn lemma_occurrences_contains(names: Seq<Seq<char>>, k: Seq<char>)
    ensures
        names.contains(k) <==> occurrences(names, k) > 0,
    decreases names.len(),
{
    if names.len() > 0 {
        let head = names.drop_last();
        lemma_occurrences_contains(head, k);
        if names.last() == k {
            assert(names[names.len() - 1] == k);
        } else if names.contains(k) {
            let i = choose|i: int| 0 <= i < names.len() && names[i] == k;
            assert(head[i] == k);
        } else if head.contains(k) {
            let i = choose|i: int| 0 <= i < head.len() && head[i] == k;
            assert(names[i] == k);
        }
    }
}

/// A list holds at least as many occurrences of a species as any of its
/// beginnings does.
pub proof fn lemma_occurrences_prefix(names: Seq<Seq<char>>, i: int, k: Seq<char>)
    requires
        0 <= i <= names.len(),
    ensures
        occurrences(names.take(i), k) <= occurrences(names, k),
    decreases names.len() - i,
{
    if i < names.len() {
        lemma_occurrences_prefix(names, i + 1, k);
        assert(names.take(i + 1).drop_last() =~= names.take(i));
    } else {
        assert(names.take(i) =~= names);
    }
}

/// Counting one more name is counting the names before it and then raising
/// the count of that name by one.
pub proof fn lemma_tallied_step(m: Map<Seq<char>, nat>, names: Seq<Seq<char>>, i: int)
    requires
        0 <= i < names.len(),
        has_room(m, names),
    ensures
        count_in(tallied(m, names.take(i)), names[i]) < u32::MAX,
        tallied(m, names.take(i + 1)) == tallied(m, names.take(i)).insert(
            names[i],
            count_in(tallied(m, names.take(i)), names[i]) + 1,
        ),
{
    let before = names.take(i);
    let after = names.take(i + 1);
    let k = names[i];
    assert(after.drop_last() =~= before);
    assert(after.last() == k);
    assert forall|x: Seq<char>| after.contains(x) == (before.contains(x) || x == k) by {
        lemma_occurrences_contains(after, x);
        lemma_occurrences_contains(before, x);
    }
    assert forall|x: Seq<char>|
        count_in(m, x) + occurrences(before, x) <= count_in(m, x) + #[trigger] occurrences(
            after,
            x,
        ) <= u32::MAX by {
        lemma_occurrences_prefix(names, i + 1, x);
    }
    lemma_occurrences_contains(before, k);
    assert(occurrences(after, k) == occurrences(before, k) + 1);
    assert(count_in(m, k) + occurrences(after, k) <= u32::MAX);
    assert(count_in(tallied(m, before), k) == count_in(m, k) + occurrences(before, k));
    assert(tallied(m, after) =~= tallied(m, before).insert(
        k,
        count_in(tallied(m, before), k) + 1,
    ));
}

/// The species counts of a session. Each species has at most one entry.
#[derive(Debug)]
pub struct MonStats {
    entries: Vec<(String, u32)>,
}

/// No two entries are for the same species.
pub open spec fn distinct_names(e: Seq<(String, u32)>) -> bool {
    forall|i: int, j: int|
        0 <= i < e.len() && 0 <= j < e.len() && (#[trigger] e[i]).0@ == (#[trigger] e[j]).0@ ==> i
            == j
}

/// Some entry of `e` is for the species `k`.
pub open spec fn names_species(e: Seq<(String, u32)>, k: Seq<char>) -> bool {
    exists|i: int| 0 <= i < e.len() && (#[trigger] e[i]).0@ == k
}

/// The position of an entry of `e` for the species `k`.
pub open spec fn position_of(e: Seq<(String, u32)>, k: Seq<char>) -> int {
    choose|i: int| 0 <= i < e.len() && (#[trigger] e[i]).0@ == k
}

/// The mapping that a list of entries stands for.
pub open spec fn as_map(e: Seq<(String, u32)>) -> Map<Seq<char>, nat> {
    Map::new(|k: Seq<char>| names_species(e, k), |k: Seq<char>| e[position_of(e, k)].1 as nat)
}

/// A list without repeated species stands for a mapping of as many species
/// as it has entries.
pub proof fn lemma_as_map_size(e: Seq<(String, u32)>)
    requires
        distinct_names(e),
    ensures
        as_map(e).dom().finite(),
        as_map(e).dom().len() == e.len(),
    decreases e.len(),
{
    if e.len() == 0 {
        assert(as_map(e).dom() =~= Set::<Seq<char>>::empty());
    } else {
        let head = e.drop_last();
        let k = e.last().0@;
        assert(forall|i: int| 0 <= i < head.len() ==> head[i] == e[i]);
        lemma_as_map_size(head);
        assert(!as_map(head).dom().contains(k)) by {
            if names_species(head, k) {
                let i = position_of(head, k);
                assert(e[i].0@ == e[e.len() - 1].0@);
            }
        }
        assert(as_map(e).dom() =~= as_map(head).dom().insert(k)) by {
            assert forall|x: Seq<char>| names_species(e, x) == (names_species(head, x) || x
                == k) by {
                if names_species(head, x) {
                    let i = position_of(head, x);
                    assert(e[i].0@ == x);
                }
                if names_species(e, x) && x != k {
                    let i = position_of(e, x);
                    assert(head[i].0@ == x);
                }
                if x == k {
                    assert(e[e.len() - 1].0@ == x);
                }
            }
        }
    }
}

impl View for MonStats {
    type V = Map<Seq<char>, nat>;

    closed spec fn view(&self) -> Map<Seq<char>, nat> {
        as_map(self.entries@)
    }
}

impl MonStats {
    /// Each species has at most one entry.
    pub closed spec fn wf(&self) -> bool {
        distinct_names(self.entries@)
    }

    /// The entries in the order in which their species were first counted.
    pub closed spec fn listing(&self) -> Seq<(String, u32)> {
        self.entries@
    }

    /// The listing holds each species of the mapping once, with its count.
    pub proof fn lemma_listing(&self)
        requires
            self.wf(),
        ensures
            distinct_names(self.listing()),
            self@ == as_map(self.listing()),
    {
    }

    /// The entries, in the order in which their species were first counted.
    pub fn entries(&self) -> (e: &Vec<(String, u32)>)
        ensures
            e@ == self.listing(),
    {
        &self.entries
    }

    /// No species counted yet.
    pub fn new() -> (s: MonStats)
        ensures
            s.wf(),
            s@ == Map::<Seq<char>, nat>::empty(),
            s.listing().len() == 0,
    {
        let s = MonStats { entries: Vec::new() };
        assert(s@ =~= Map::<Seq<char>, nat>::empty());
        s
    }

    /// Where the entry for `name` stands, if there is one.
    fn find(&self, name: &str) -> (r: Option<usize>)
        ensures
            match r {
                Some(i) => i < self.entries.len() && self.entries[i as int].0@ == name@,
                None => !names_species(self.entries@, name@),
            },
    {
        let wanted = chars_of(name);
        let mut i: usize = 0;
        while i < self.entries.len()
            invariant
                i <= self.entries.len(),
                wanted@ == name@,
                forall|j: int| 0 <= j < i ==> (#[trigger] self.entries[j]).0@ != name@,
            decreases self.entries.len() - i,
        {
            let have = chars_of(self.entries[i].0.as_str());
            if same_text(&have, &wanted) {
                return Some(i);
            }
            i += 1;
        }
        None
    }

    /// The count of a species, or `None` where it was never counted.
    pub fn get(&self, name: &str) -> (r: Option<u32>)
        requires
            self.wf(),
        ensures
            match r {
                Some(n) => self@.contains_key(name@) && self@[name@] == n,
                None => !self@.contains_key(name@),
            },
    {
        match self.find(name) {
            Some(i) => {
                assert(names_species(self.entries@, name@));
                Some(self.entries[i].1)
            },
            None => None,
        }
    }

    /// The number of species counted.
    pub fn len(&self) -> (n: usize)
        requires
            self.wf(),
        ensures
            self@.dom().finite(),
            n == self@.dom().len(),
            n == self.listing().len(),
    {
        proof {
            lemma_as_map_size(self.entries@);
        }
        self.entries.len()
    }

    /// Sets the count of a species, whether it was counted before or not.
    pub fn set(&mut self, name: &str, count: u32)
        requires
            old(self).wf(),
        ensures
            final(self).wf(),
            final(self)@ == old(self)@.insert(name@, count as nat),
    {
        let ghost before = self.entries@;
        match self.find(name) {
            Some(i) => {
                self.entries.set(i, (name.to_owned(), count));
                proof {
                    let after = self.entries@;
                    assert forall|k: Seq<char>| names_species(after, k) == names_species(
                        before,
                        k,
                    ) by {
                        if names_species(before, k) {
                            let j = position_of(before, k);
                            assert(after[j].0@ == k);
                        }
                        if names_species(after, k) {
                            let j = position_of(after, k);
                            assert(before[j].0@ == k);
                        }
                    }
                    assert(names_species(before, name@));
                    assert(as_map(after) =~= as_map(before).insert(name@, count as nat));
                }
            },
            None => {
                self.entries.push((name.to_owned(), count));
                proof {
                    let after = self.entries@;
                    let last = before.len() as int;
                    assert(after[last].0@ == name@);
                    assert forall|k: Seq<char>| names_species(after, k) == (names_species(
                        before,
                        k,
                    ) || k == name@) by {
                        if names_species(before, k) {
                            let j = position_of(before, k);
                            assert(after[j].0@ == k);
                        }
                        if names_species(after, k) && k != name@ {
                            let j = position_of(after, k);
                            assert(before[j].0@ == k);
                        }
                    }
                    assert forall|k: Seq<char>| names_species(before, k) implies after[position_of(
                        after,
                        k,
                    )].1 == before[position_of(before, k)].1 by {
                        let j = position_of(before, k);
                        assert(after[j].0@ == k);
                    }
                    assert(as_map(after) =~= as_map(before).insert(name@, count as nat));
                }
            },
        }
    }

    /// The count of a species; one that was never counted counts zero.
    pub fn count(&self, name: &str) -> (n: u32)
        requires
            self.wf(),
        ensures
            n == count_in(self@, name@),
    {
        match self.get(name) {
            Some(n) => n,
            None => 0,
        }
    }

    /// Counts one more encounter of a species.
    pub fn record(&mut self, name: &str)
        requires
            old(self).wf(),
            count_in(old(self)@, name@) < u32::MAX,
        ensures
            final(self).wf(),
            final(self)@ == old(self)@.insert(name@, count_in(old(self)@, name@) + 1),
    {
        let n = self.count(name);
        self.set(name, n + 1);
    }

    /// Counts one more encounter for each name of the list; a name that
    /// stands there several times is counted as often.
    pub fn tally(&mut self, names: &Vec<String>)
        requires
            old(self).wf(),
            has_room(old(self)@, texts(names@)),
        ensures
            final(self).wf(),
            final(self)@ == tallied(old(self)@, texts(names@)),
    {
        let ghost start = self@;
        let ghost all = texts(names@);
        let mut i: usize = 0;
        assert(tallied(start, all.take(0)) =~= start) by {
            assert forall|k: Seq<char>| !all.take(0).contains(k) by {}
        }
        while i < names.len()
            invariant
                i <= names.len(),
                all == texts(names@),
                has_room(start, all),
                self.wf(),
                self@ == tallied(start, all.take(i as int)),
            decreases names.len() - i,
        {
            proof {
                lemma_tallied_step(start, all, i as int);
            }
            self.record(names[i].as_str());
            i += 1;
        }
        assert(all.take(names.len() as int) =~= all);
    }

    /// Tests whether every count can take the occurrences of `names` on top.
    pub fn has_room_for(&self, names: &Vec<String>) -> (r: bool)
        requires
            self.wf(),
        ensures
            r == has_room(self@, texts(names@)),
    {
        let ghost all = texts(names@);
        let mut i: usize = 0;
        while i < names.len()
            invariant
                i <= names.len(),
                self.wf(),
                all == texts(names@),
                forall|j: int|
                    0 <= j < i ==> count_in(self@, all[j]) + occurrences(all, #[trigger] all[j])
                        <= u32::MAX,
            decreases names.len() - i,
        {
            let name = names[i].as_str();
            let held: u32 = self.count(name);
            let more: usize = count_occurrences(names, name);
            if more > (u32::MAX - held) as usize {
                assert(count_in(self@, all[i as int]) + occurrences(all, all[i as int])
                    > u32::MAX);
                return false;
            }
            i += 1;
        }
        proof {
            assert forall|k: Seq<char>| count_in(self@, k) + #[trigger] occurrences(all, k)
                <= u32::MAX by {
                lemma_occurrences_contains(all, k);
                if all.contains(k) {
                    let j = choose|j: int| 0 <= j < all.len() && all[j] == k;
                    assert(count_in(self@, all[j]) + occurrences(all, all[j]) <= u32::MAX);
                }
            }
        }
        true
    }
}

/// Counts how often a name stands in a list.
pub fn count_occurrences(names: &Vec<String>, name: &str) -> (n: usize)
    ensures
        n == occurrences(texts(names@), name@),
{
    let ghost all = texts(names@);
    let wanted = chars_of(name);
    let mut n: usize = 0;
    let mut i: usize = 0;
    while i < names.len()
        invariant
            i <= names.len(),
            all == texts(names@),
            wanted@ == name@,
            n <= i,
            n == occurrences(all.take(i as int), name@),
        decreases names.len() - i,
    {
        proof {
            assert(all.take(i + 1).drop_last() =~= all.take(i as int));
            assert(all.take(i + 1).last() == names[i as int]@);
        }
        let have = chars_of(names[i].as_str());
        if same_text(&have, &wanted) {
            n += 1;
        }
        i += 1;
    }
    assert(all.take(names.len() as int) =~= all);
    n
}

} // verus!
