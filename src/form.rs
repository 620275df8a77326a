//! An ordered map of text fields, used for URL-encoded and multipart bodies.
use vstd::prelude::*;
use crate::assoc::{keys_distinct, last_with_key, lemma_map_of_dom, lemma_map_of_index, lemma_map_of_update, map_of};
use crate::text::{replace_all, replace_str, str_eq};

verus! {

pub open spec fn pair_view(e: (String, String)) -> (Seq<char>, Seq<char>) {
    (e.0@, e.1@)
}

/// Text fields in insertion order. Every constructor and method keeps the
/// keys distinct (see their contracts); the view reads a later pair over an
/// earlier one.
pub struct FormMap {
    entries: Vec<(String, String)>,
}

impl View for FormMap {
    type V = Map<Seq<char>, Seq<char>>;

    closed spec fn view(&self) -> Map<Seq<char>, Seq<char>> {
        map_of(self.pairs())
    }
}

impl FormMap {
    /// The fields in the order they were first inserted.
    pub closed spec fn pairs(&self) -> Seq<(Seq<char>, Seq<char>)> {
        self.entries@.map_values(|e: (String, String)| pair_view(e))
    }

    pub fn new() -> (r: FormMap)
        ensures
            r@ == Map::<Seq<char>, Seq<char>>::empty(),
            r.pairs() == Seq::<(Seq<char>, Seq<char>)>::empty(),
            keys_distinct(r.pairs()),
    {
        let r = FormMap { entries: Vec::new() };
        assert(r.pairs() =~= Seq::<(Seq<char>, Seq<char>)>::empty());
        r
    }

    pub fn len(&self) -> (n: usize)
        ensures
            n == self.pairs().len(),
    {
        self.entries.len()
    }

    /// Position of the last pair whose key is `key`.
    fn find(&self, key: &str) -> (r: Option<usize>)
        ensures
            match r {
                Some(i) => i < self.pairs().len() && self.pairs()[i as int].0 == key@
                    && last_with_key(self.pairs(), i as int),
                None => !self@.contains_key(key@),
            },
    {
        let mut i: usize = self.entries.len();
        while i > 0
            invariant
                i <= self.entries@.len(),
                forall|j: int| i <= j < self.entries@.len() ==> self.pairs()[j].0 != key@,
            decreases i,
        {
            i = i - 1;
            if str_eq(self.entries[i].0.as_str(), key) {
                return Some(i);
            }
        }
        proof {
            lemma_map_of_dom(self.pairs(), key@);
        }
        None
    }

    /// Sets `key` to `value`, keeping the key's place when it is present.
    pub fn insert(&mut self, key: String, value: String)
        ensures
            final(self)@ == old(self)@.insert(key@, value@),
            keys_distinct(old(self).pairs()) ==> keys_distinct(final(self).pairs()),
    {
        match self.find(key.as_str()) {
            Some(i) => {
                let ghost before = self.pairs();
                self.entries.set(i, (key, value));
                proof {
                    assert(self.pairs() =~= before.update(i as int, (before[i as int].0, value@)));
                    lemma_map_of_update(before, i as int, value@);
                }
            },
            None => {
                let ghost before = self.pairs();
                let ghost k = key@;
                self.entries.push((key, value));
                proof {
                    assert(self.pairs() =~= before.push((k, value@)));
                    assert(self.pairs().drop_last() =~= before);
                    lemma_map_of_dom(before, k);
                }
            },
        }
    }

    /// The value held under `key`.
    pub fn get(&self, key: &str) -> (r: Option<&String>)
        ensures
            match r {
                Some(v) => self@.contains_key(key@) && self@[key@] == v@,
                None => !self@.contains_key(key@),
            },
    {
        match self.find(key) {
            Some(i) => {
                proof {
                    lemma_map_of_index(self.pairs(), i as int);
                }
                Some(&self.entries[i].1)
            },
            None => None,
        }
    }

    /// The fields in insertion order.
    pub fn entries(&self) -> (r: &Vec<(String, String)>)
        ensures
            r@.map_values(|e: (String, String)| pair_view(e)) == self.pairs(),
    {
        &self.entries
    }

    /// Adds every field of `other`; on a shared key the value of `other` wins.
    pub fn extend(&mut self, other: FormMap)
        ensures
            final(self)@ == old(self)@.union_prefer_right(other@),
            keys_distinct(old(self).pairs()) ==> keys_distinct(final(self).pairs()),
    {
        let ghost start = self@;
        let ghost d0 = keys_distinct(self.pairs());
        let n = other.entries.len();
        let mut i: usize = 0;
        while i < n
            invariant
                n == other.entries@.len(),
                i <= n,
                self@ == start.union_prefer_right(map_of(other.pairs().take(i as int))),
                d0 ==> keys_distinct(self.pairs()),
            decreases n - i,
        {
            let k = other.entries[i].0.clone();
            let v = other.entries[i].1.clone();
            self.insert(k, v);
            proof {
                assert(other.pairs().take(i as int + 1).drop_last() =~= other.pairs().take(i as int));
                assert(self@ =~= start.union_prefer_right(map_of(other.pairs().take(i as int + 1))));
            }
            i = i + 1;
        }
        proof {
            assert(other.pairs().take(n as int) =~= other.pairs());
        }
    }

    /// Adds the fields of `earlier` whose keys this map lacks; on a shared key
    /// the value already here wins.
    pub fn merge_under(&mut self, earlier: FormMap)
        ensures
            final(self)@ == earlier@.union_prefer_right(old(self)@),
            keys_distinct(old(self).pairs()) ==> keys_distinct(final(self).pairs()),
    {
        let ghost start = self@;
        let ghost d0 = keys_distinct(self.pairs());
        let ghost ep = earlier.pairs();
        let n = earlier.entries.len();
        let mut missing: Vec<bool> = Vec::new();
        let mut j: usize = 0;
        while j < n
            invariant
                n == earlier.entries@.len(),
                ep == earlier.pairs(),
                j <= n,
                missing@.len() == j,
                self@ == start,
                d0 ==> keys_distinct(self.pairs()),
                forall|t: int| 0 <= t < j ==> #[trigger] missing@[t] == !start.contains_key(ep[t].0),
            decreases n - j,
        {
            let absent = self.get(earlier.entries[j].0.as_str()).is_none();
            missing.push(absent);
            j = j + 1;
        }
        let mut i: usize = 0;
        proof {
            assert(ep.take(0) =~= Seq::<(Seq<char>, Seq<char>)>::empty());
            assert(map_of(ep.take(0)).union_prefer_right(start) =~= start);
        }
        while i < n
            invariant
                n == earlier.entries@.len(),
                ep == earlier.pairs(),
                i <= n,
                missing@.len() == n,
                forall|t: int| 0 <= t < n ==> #[trigger] missing@[t] == !start.contains_key(ep[t].0),
                self@ == map_of(ep.take(i as int)).union_prefer_right(start),
                d0 ==> keys_distinct(self.pairs()),
            decreases n - i,
        {
            let ghost k = ep[i as int].0;
            let ghost v = ep[i as int].1;
            proof {
                assert(ep.take(i as int + 1).drop_last() =~= ep.take(i as int));
                assert(ep.take(i as int + 1).last() == (k, v));
            }
            if missing[i] {
                let key = earlier.entries[i].0.clone();
                let value = earlier.entries[i].1.clone();
                self.insert(key, value);
                proof {
                    assert(self@ =~= map_of(ep.take(i as int + 1)).union_prefer_right(start));
                }
            } else {
                proof {
                    assert(self@ =~= map_of(ep.take(i as int + 1)).union_prefer_right(start));
                }
            }
            i = i + 1;
        }
        proof {
            assert(ep.take(n as int) =~= ep);
        }
    }

    /// A copy of the fields in which every value has each `FUZZ` replaced by
    /// `line`; keys are left alone.
    pub fn replace_fuzz(&self, line: &str) -> (r: FormMap)
        ensures
            r.pairs().len() == self.pairs().len(),
            forall|i: int| 0 <= i < r.pairs().len() ==> #[trigger] r.pairs()[i] == (self.pairs()[i].0,
                replace_all(self.pairs()[i].1, fuzz_word(), line@)),
            r@.dom() == self@.dom(),
            forall|k: Seq<char>| #[trigger] r@.contains_key(k) ==> r@[k] == replace_all(self@[k], fuzz_word(), line@),
            keys_distinct(self.pairs()) ==> keys_distinct(r.pairs()),
    {
        proof {
            reveal_strlit("FUZZ");
        }
        let mut out: Vec<(String, String)> = Vec::new();
        let n = self.entries.len();
        let mut i: usize = 0;
        while i < n
            invariant
                n == self.entries@.len(),
                i <= n,
                out@.len() == i,
                FUZZ@.len() == 4,
                forall|j: int| 0 <= j < i ==> #[trigger] pair_view(out@[j]) == (self.pairs()[j].0,
                    replace_all(self.pairs()[j].1, fuzz_word(), line@)),
            decreases n - i,
        {
            let k = self.entries[i].0.clone();
            let v = replace_str(self.entries[i].1.as_str(), FUZZ, line);
            out.push((k, v));
            i = i + 1;
        }
        let r = FormMap { entries: out };
        proof {
            let f = |v: Seq<char>| replace_all(v, fuzz_word(), line@);
            assert(r.pairs() =~= self.pairs().map_values(|e: (Seq<char>, Seq<char>)| (e.0, f(e.1))));
            lemma_map_values_of(self.pairs(), f);
            assert forall|a: int, b: int| 0 <= a < b < r.pairs().len() implies r.pairs()[a].0 == self.pairs()[a].0
                && r.pairs()[b].0 == self.pairs()[b].0 by {}
        }
        r
    }
}

/// The placeholder that payloads replace.
pub const FUZZ: &'static str = "FUZZ";

pub open spec fn fuzz_word() -> Seq<char> {
    FUZZ@
}

pub proof fn lemma_map_values_of(s: Seq<(Seq<char>, Seq<char>)>, f: spec_fn(Seq<char>) -> Seq<char>)
    ensures
        map_of(s.map_values(|e: (Seq<char>, Seq<char>)| (e.0, f(e.1)))).dom() == map_of(s).dom(),
        forall|k: Seq<char>| #[trigger] map_of(s).contains_key(k) ==> map_of(
            s.map_values(|e: (Seq<char>, Seq<char>)| (e.0, f(e.1))),
        )[k] == f(map_of(s)[k]),
    decreases s.len(),
{
    let t = s.map_values(|e: (Seq<char>, Seq<char>)| (e.0, f(e.1)));
    if s.len() > 0 {
        lemma_map_values_of(s.drop_last(), f);
        assert(t.drop_last() =~= s.drop_last().map_values(|e: (Seq<char>, Seq<char>)| (e.0, f(e.1))));
        assert(map_of(t).dom() =~= map_of(s).dom());
    }
}

} // verus!
