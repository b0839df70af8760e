//! The table of preprocessor definitions: names mapped to replacement text.
use vstd::prelude::*;

use crate::text::{chars_eq, chars_of};

verus! {

/// Preprocessor definitions, each name present at most once.
#[derive(Debug)]
pub struct Definitions {
    entries: Vec<(Vec<char>, String)>,
}

/// Whether some entry has the name `k`.
pub open spec fn has_name(e: Seq<(Vec<char>, String)>, k: Seq<char>) -> bool {
    exists|i: int| 0 <= i < e.len() && (#[trigger] e[i]).0@ == k
}

/// No name occurs twice.
pub open spec fn names_unique(e: Seq<(Vec<char>, String)>) -> bool {
    forall|i: int, j: int| 0 <= i < e.len() && 0 <= j < e.len() && i != j ==> (#[trigger] e[i]).0@
        != (#[trigger] e[j]).0@
}

/// The position of the entry named `k`.
pub open spec fn name_index(e: Seq<(Vec<char>, String)>, k: Seq<char>) -> int {
    choose|i: int| 0 <= i < e.len() && (#[trigger] e[i]).0@ == k
}

/// The map that a list of entries stands for.
pub open spec fn entries_map(e: Seq<(Vec<char>, String)>) -> Map<Seq<char>, Seq<char>> {
    Map::new(|k: Seq<char>| has_name(e, k), |k: Seq<char>| e[name_index(e, k)].1@)
}

/// With unique names, the entry at `i` gives the value of its name.
pub proof fn lemma_entry_value(e: Seq<(Vec<char>, String)>, i: int)
    requires
        names_unique(e),
        0 <= i < e.len(),
    ensures
        entries_map(e).contains_key(e[i].0@),
        entries_map(e)[e[i].0@] == e[i].1@,
{
    assert(has_name(e, e[i].0@));
    let j = name_index(e, e[i].0@);
    assert(0 <= j < e.len() && e[j].0@ == e[i].0@);
}

impl View for Definitions {
    type V = Map<Seq<char>, Seq<char>>;

    closed spec fn view(&self) -> Map<Seq<char>, Seq<char>> {
        entries_map(self.entries@)
    }
}

impl Definitions {
    #[verifier::type_invariant]
    closed spec fn inv(self) -> bool {
        names_unique(self.entries@)
    }

    /// No definitions.
    pub fn new() -> (r: Self)
        ensures
            r@ == Map::<Seq<char>, Seq<char>>::empty(),
    {
        let r = Definitions { entries: Vec::new() };
        assert(r@ =~= Map::<Seq<char>, Seq<char>>::empty());
        r
    }

    /// The position of the entry named `k`, if any.
    fn find(&self, k: &[char]) -> (r: Option<usize>)
        ensures
            match r {
                Some(i) => i < self.entries@.len() && self.entries@[i as int].0@ == k@,
                None => !has_name(self.entries@, k@),
            },
    {
        let mut i: usize = 0;
        while i < self.entries.len()
            invariant
                i <= self.entries@.len(),
                forall|j: int| 0 <= j < i ==> (#[trigger] self.entries@[j]).0@ != k@,
            decreases self.entries.len() - i,
        {
            if chars_eq(self.entries[i].0.as_slice(), k) {
                return Some(i);
            }
            i = i + 1;
        }
        None
    }

    /// Whether `k` is defined.
    pub fn contains_key(&self, k: &[char]) -> (r: bool)
        ensures
            r == self@.contains_key(k@),
    {
        self.find(k).is_some()
    }

    /// The text that `k` is defined as.
    pub fn get(&self, k: &[char]) -> (r: Option<&String>)
        ensures
            match r {
                Some(v) => self@.contains_key(k@) && v@ == self@[k@],
                None => !self@.contains_key(k@),
            },
    {
        proof {
            use_type_invariant(self);
        }
        match self.find(k) {
            Some(i) => {
                proof {
                    lemma_entry_value(self.entries@, i as int);
                }
                Some(&self.entries[i].1)
            },
            None => None,
        }
    }

    /// Defines `k` as `v`, replacing an earlier definition of `k`.
    pub fn insert(&mut self, k: String, v: String)
        ensures
            final(self)@ == old(self)@.insert(k@, v@),
    {
        proof {
            use_type_invariant(&*self);
        }
        let key = chars_of(k.as_str());
        let found = self.find(key.as_slice());
        let mut entries: Vec<(Vec<char>, String)> = Vec::new();
        std::mem::swap(&mut entries, &mut self.entries);
        let ghost old_e = entries@;
        match found {
            Some(i) => {
                entries.set(i, (key, v));
                proof {
                    let e = entries@;
                    assert(names_unique(e)) by {
                        assert forall|a: int, b: int|
                            0 <= a < e.len() && 0 <= b < e.len() && a != b implies (#[trigger] e[a]).0@
                            != (#[trigger] e[b]).0@ by {
                            assert(old_e[a].0@ != old_e[b].0@);
                        }
                    }
                    assert forall|kk: Seq<char>|
                        #![trigger entries_map(e).contains_key(kk)]
                        entries_map(e).contains_key(kk) == entries_map(old_e).insert(
                            k@,
                            v@,
                        ).contains_key(kk) by {
                        if has_name(old_e, kk) {
                            let j = name_index(old_e, kk);
                            if j == i as int {
                                assert(e[i as int].0@ == kk);
                            } else {
                                assert(e[j] == old_e[j]);
                            }
                        }
                        if has_name(e, kk) {
                            let j = name_index(e, kk);
                            if j != i as int {
                                assert(old_e[j] == e[j]);
                            }
                        }
                    }
                    assert forall|kk: Seq<char>| #[trigger]
                        entries_map(e).contains_key(kk) implies entries_map(e)[kk]
                        == entries_map(old_e).insert(k@, v@)[kk] by {
                        let j = name_index(e, kk);
                        lemma_entry_value(e, j);
                        if j != i as int {
                            assert(old_e[j] == e[j]);
                            lemma_entry_value(old_e, j);
                        }
                    }
                    assert(entries_map(e) =~= entries_map(old_e).insert(k@, v@));
                }
            },
            None => {
                entries.push((key, v));
                proof {
                    let e = entries@;
                    let n = old_e.len() as int;
                    assert(e[n].0@ == k@);
                    assert(names_unique(e)) by {
                        assert forall|a: int, b: int|
                            0 <= a < e.len() && 0 <= b < e.len() && a != b implies (#[trigger] e[a]).0@
                            != (#[trigger] e[b]).0@ by {
                            if a == n {
                                assert(old_e[b] == e[b]);
                            } else if b == n {
                                assert(old_e[a] == e[a]);
                            } else {
                                assert(old_e[a] == e[a] && old_e[b] == e[b]);
                            }
                        }
                    }
                    assert forall|kk: Seq<char>|
                        #![trigger entries_map(e).contains_key(kk)]
                        entries_map(e).contains_key(kk) == entries_map(old_e).insert(
                            k@,
                            v@,
                        ).contains_key(kk) by {
                        if has_name(old_e, kk) {
                            let j = name_index(old_e, kk);
                            assert(e[j] == old_e[j]);
                        }
                        if has_name(e, kk) && kk != k@ {
                            let j = name_index(e, kk);
                            assert(old_e[j] == e[j]);
                        }
                    }
                    assert forall|kk: Seq<char>| #[trigger]
                        entries_map(e).contains_key(kk) implies entries_map(e)[kk]
                        == entries_map(old_e).insert(k@, v@)[kk] by {
                        let j = name_index(e, kk);
                        lemma_entry_value(e, j);
                        if j != n {
                            assert(old_e[j] == e[j]);
                            lemma_entry_value(old_e, j);
                        }
                    }
                    assert(entries_map(e) =~= entries_map(old_e).insert(k@, v@));
                }
            },
        }
        self.entries = entries;
    }

    /// A copy of the table.
    pub fn duplicate(&self) -> (r: Self)
        ensures
            r@ == self@,
    {
        proof {
            use_type_invariant(self);
        }
        let mut entries: Vec<(Vec<char>, String)> = Vec::new();
        let mut i: usize = 0;
        while i < self.entries.len()
            invariant
                i <= self.entries@.len(),
                entries@.len() == i,
                forall|j: int|
                    0 <= j < i ==> (#[trigger] entries@[j]).0@ == self.entries@[j].0@
                        && entries@[j].1@ == self.entries@[j].1@,
            decreases self.entries.len() - i,
        {
            let k = crate::text::sub_chars(self.entries[i].0.as_slice(), 0, self.entries[i].0.len());
            assert(k@ =~= self.entries@[i as int].0@);
            let v = self.entries[i].1.clone();
            entries.push((k, v));
            i = i + 1;
        }
        let ghost e = entries@;
        let ghost o = self.entries@;
        assert(names_unique(e)) by {
            assert forall|a: int, b: int|
                0 <= a < e.len() && 0 <= b < e.len() && a != b implies (#[trigger] e[a]).0@
                != (#[trigger] e[b]).0@ by {
                assert(o[a].0@ != o[b].0@);
            }
        }
        let r = Definitions { entries };
        proof {
            assert forall|kk: Seq<char>|
                #![trigger entries_map(e).contains_key(kk)]
                entries_map(e).contains_key(kk) == entries_map(o).contains_key(kk) by {
                if has_name(o, kk) {
                    let j = name_index(o, kk);
                    assert(e[j].0@ == kk);
                }
                if has_name(e, kk) {
                    let j = name_index(e, kk);
                    assert(o[j].0@ == kk);
                }
            }
            assert forall|kk: Seq<char>| #[trigger]
                entries_map(e).contains_key(kk) implies entries_map(e)[kk] == entries_map(o)[kk] by {
                let j = name_index(e, kk);
                lemma_entry_value(e, j);
                lemma_entry_value(o, j);
            }
            assert(entries_map(e) =~= entries_map(o));
        }
        r
    }
}

} // verus!
