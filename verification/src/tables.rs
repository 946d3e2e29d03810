//! Small association tables keyed by strings, kept in insertion order. A
//! lookup returns the most recently inserted binding for a key, so inserting
//! an existing key acts as an overwrite without disturbing other entries.

use vstd::prelude::*;
use crate::strutil::str_eq;

verus! {

/// The most recent binding for `k` in an entry sequence, by segment-list value.
pub open spec fn assoc_segs(s: Seq<(String, Vec<String>)>, k: Seq<char>) -> Option<Seq<Seq<char>>>
    decreases s.len(),
{
    if s.len() == 0 {
        None
    } else if s.last().0@ == k {
        Some(s.last().1.deep_view())
    } else {
        assoc_segs(s.drop_last(), k)
    }
}

/// The most recent binding for `k` in an entry sequence, by string value.
pub open spec fn assoc_str(s: Seq<(String, String)>, k: Seq<char>) -> Option<Seq<char>>
    decreases s.len(),
{
    if s.len() == 0 {
        None
    } else if s.last().0@ == k {
        Some(s.last().1@)
    } else {
        assoc_str(s.drop_last(), k)
    }
}

/// A table from document or category ids to lists of path segments.
pub struct SegTable {
    pub entries: Vec<(String, Vec<String>)>,
}

impl SegTable {
    pub open spec fn spec_get(self, k: Seq<char>) -> Option<Seq<Seq<char>>> {
        assoc_segs(self.entries@, k)
    }

    pub open spec fn spec_contains(self, k: Seq<char>) -> bool {
        self.spec_get(k) is Some
    }

    /// The keys, in insertion order.
    pub open spec fn spec_keys(self) -> Seq<Seq<char>> {
        self.entries@.map_values(|p: (String, Vec<String>)| p.0@)
    }

    /// The values, in insertion order.
    pub open spec fn spec_values(self) -> Seq<Seq<Seq<char>>> {
        self.entries@.map_values(|p: (String, Vec<String>)| p.1.deep_view())
    }

    pub fn new() -> (r: SegTable)
        ensures
            r.entries@ =~= Seq::<(String, Vec<String>)>::empty(),
    {
        SegTable { entries: Vec::new() }
    }

    pub fn len(&self) -> (r: usize)
        ensures
            r == self.entries@.len(),
    {
        self.entries.len()
    }

    pub fn insert(&mut self, k: String, v: Vec<String>)
        ensures
            final(self).entries@ == old(self).entries@.push((k, v)),
    {
        self.entries.push((k, v));
    }

    pub fn get(&self, k: &str) -> (r: Option<&Vec<String>>)
        ensures
            match r {
                Some(v) => self.spec_get(k@) == Some(v.deep_view()),
                None => self.spec_get(k@) is None,
            },
    {
        let n = self.entries.len();
        let mut i: usize = n;
        proof {
            assert(self.entries@.take(n as int) =~= self.entries@);
        }
        while i > 0
            invariant
                i <= n,
                n == self.entries@.len(),
                assoc_segs(self.entries@, k@) == assoc_segs(self.entries@.take(i as int), k@),
            decreases i,
        {
            i = i - 1;
            let entry = &self.entries[i];
            proof {
                assert(self.entries@.take(i + 1).last() == self.entries@[i as int]);
                assert(self.entries@.take(i + 1).drop_last() =~= self.entries@.take(i as int));
            }
            if str_eq(entry.0.as_str(), k) {
                return Some(&self.entries[i].1);
            }
        }
        proof {
            assert(self.entries@.take(0) =~= Seq::<(String, Vec<String>)>::empty());
        }
        None
    }

    pub fn contains(&self, k: &str) -> (r: bool)
        ensures
            r == self.spec_contains(k@),
    {
        match self.get(k) {
            Some(_) => true,
            None => false,
        }
    }
}

/// A table from document ids to their titles.
pub struct TitleTable {
    pub entries: Vec<(String, String)>,
}

impl TitleTable {
    pub open spec fn spec_get(self, k: Seq<char>) -> Option<Seq<char>> {
        assoc_str(self.entries@, k)
    }

    pub open spec fn spec_contains(self, k: Seq<char>) -> bool {
        self.spec_get(k) is Some
    }

    pub fn new() -> (r: TitleTable)
        ensures
            r.entries@ =~= Seq::<(String, String)>::empty(),
    {
        TitleTable { entries: Vec::new() }
    }

    pub fn insert(&mut self, k: String, v: String)
        ensures
            final(self).entries@ == old(self).entries@.push((k, v)),
    {
        self.entries.push((k, v));
    }

    pub fn get(&self, k: &str) -> (r: Option<&String>)
        ensures
            match r {
                Some(v) => self.spec_get(k@) == Some(v@),
                None => self.spec_get(k@) is None,
            },
    {
        let n = self.entries.len();
        let mut i: usize = n;
        proof {
            assert(self.entries@.take(n as int) =~= self.entries@);
        }
        while i > 0
            invariant
                i <= n,
                n == self.entries@.len(),
                assoc_str(self.entries@, k@) == assoc_str(self.entries@.take(i as int), k@),
            decreases i,
        {
            i = i - 1;
            let entry = &self.entries[i];
            proof {
                assert(self.entries@.take(i + 1).last() == self.entries@[i as int]);
                assert(self.entries@.take(i + 1).drop_last() =~= self.entries@.take(i as int));
            }
            if str_eq(entry.0.as_str(), k) {
                return Some(&self.entries[i].1);
            }
        }
        proof {
            assert(self.entries@.take(0) =~= Seq::<(String, String)>::empty());
        }
        None
    }
}

/// A key is bound exactly when some entry carries it.
pub proof fn lemma_assoc_segs_some(s: Seq<(String, Vec<String>)>, k: Seq<char>)
    ensures
        (assoc_segs(s, k) is Some) <==> (exists|i: int| 0 <= i < s.len() && s[i].0@ == k),
    decreases s.len(),
{
    if s.len() > 0 {
        lemma_assoc_segs_some(s.drop_last(), k);
        if s.last().0@ == k {
            assert(s[s.len() - 1].0@ == k);
        } else {
            if exists|i: int| 0 <= i < s.len() && s[i].0@ == k {
                let i = choose|i: int| 0 <= i < s.len() && s[i].0@ == k;
                assert(i < s.len() - 1);
                assert(s.drop_last()[i] == s[i]);
            }
            if exists|i: int| 0 <= i < s.drop_last().len() && s.drop_last()[i].0@ == k {
                let i = choose|i: int| 0 <= i < s.drop_last().len() && s.drop_last()[i].0@ == k;
                assert(s[i] == s.drop_last()[i]);
            }
        }
    }
}

} // verus!
