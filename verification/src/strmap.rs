use vstd::prelude::*;
use vstd::string::StringExecFns;

verus! {

/// The map that a sequence of (key, value) entries stands for: a later entry
/// for a key replaces an earlier one.
pub open spec fn entries_view<V>(s: Seq<(String, V)>) -> Map<Seq<char>, V>
    decreases s.len(),
{
    if s.len() == 0 {
        Map::empty()
    } else {
        entries_view(s.drop_last()).insert(s.last().0@, s.last().1)
    }
}

/// No two entries share a key.
pub open spec fn distinct_keys<V>(s: Seq<(String, V)>) -> bool {
    forall|i: int, j: int| 0 <= i < j < s.len() ==> #[trigger] s[i].0@ != #[trigger] s[j].0@
}

pub proof fn lemma_entries_view_domain<V>(s: Seq<(String, V)>, k: Seq<char>)
    ensures
        entries_view(s).contains_key(k) <==> exists|i: int| 0 <= i < s.len() && #[trigger] s[i].0@ == k,
    decreases s.len(),
{
    if s.len() > 0 {
        lemma_entries_view_domain(s.drop_last(), k);
        if entries_view(s).contains_key(k) && s.last().0@ != k {
            let i = choose|i: int| 0 <= i < s.len() - 1 && #[trigger] s.drop_last()[i].0@ == k;
            assert(s[i].0@ == k);
        }
        if exists|i: int| 0 <= i < s.len() && #[trigger] s[i].0@ == k {
            let i = choose|i: int| 0 <= i < s.len() && #[trigger] s[i].0@ == k;
            if i < s.len() - 1 {
                assert(s.drop_last()[i].0@ == k);
            }
        }
    }
}

pub proof fn lemma_entries_view_value<V>(s: Seq<(String, V)>, i: int)
    requires
        distinct_keys(s),
        0 <= i < s.len(),
    ensures
        entries_view(s).contains_key(s[i].0@),
        entries_view(s)[s[i].0@] == s[i].1,
    decreases s.len(),
{
    if i < s.len() - 1 {
        let t = s.drop_last();
        assert(t[i] == s[i]);
        assert(distinct_keys(t)) by {
            assert forall|a: int, b: int| 0 <= a < b < t.len() implies #[trigger] t[a].0@ != #[trigger] t[b].0@ by {
                assert(t[a] == s[a] && t[b] == s[b]);
            }
        }
        lemma_entries_view_value(t, i);
        assert(s[i].0@ != s[s.len() - 1].0@);
    }
}

pub proof fn lemma_entries_view_update<V>(s: Seq<(String, V)>, i: int, v: V)
    requires
        distinct_keys(s),
        0 <= i < s.len(),
    ensures
        entries_view(s.update(i, (s[i].0, v))) == entries_view(s).insert(s[i].0@, v),
        distinct_keys(s.update(i, (s[i].0, v))),
    decreases s.len(),
{
    let u = s.update(i, (s[i].0, v));
    assert(distinct_keys(u)) by {
        assert forall|a: int, b: int| 0 <= a < b < u.len() implies #[trigger] u[a].0@ != #[trigger] u[b].0@ by {
            assert(u[a].0 == s[a].0 && u[b].0 == s[b].0);
        }
    }
    let t = s.drop_last();
    assert(distinct_keys(t)) by {
        assert forall|a: int, b: int| 0 <= a < b < t.len() implies #[trigger] t[a].0@ != #[trigger] t[b].0@ by {
            assert(t[a] == s[a] && t[b] == s[b]);
        }
    }
    if i == s.len() - 1 {
        assert(u.drop_last() == t);
        lemma_entries_view_domain(t, s[i].0@);
        if entries_view(t).contains_key(s[i].0@) {
            let j = choose|j: int| 0 <= j < t.len() && #[trigger] t[j].0@ == s[i].0@;
            assert(s[j].0@ == s[i].0@);
        }
        assert(entries_view(u) =~= entries_view(s).insert(s[i].0@, v));
    } else {
        lemma_entries_view_update(t, i, v);
        assert(u.drop_last() == t.update(i, (t[i].0, v)));
        assert(s[i].0@ != s.last().0@);
        assert(entries_view(u) =~= entries_view(s).insert(s[i].0@, v));
    }
}

/// A map from names to values, kept as a list of entries with distinct keys.
/// A `HashMap` keyed by `String` would do the same work, but vstd models a
/// hash map's contents only for keys known to obey its key model (integers,
/// `bool` and boxes of them), and `String` is not among them, so nothing
/// could be proved of one here.
#[derive(Debug)]
pub struct StrMap<V> {
    entries: Vec<(String, V)>,
}

impl<V> StrMap<V> {
    pub closed spec fn view(&self) -> Map<Seq<char>, V> {
        entries_view(self.entries@)
    }

    pub closed spec fn wf(&self) -> bool {
        distinct_keys(self.entries@)
    }

    pub fn new() -> (r: Self)
        ensures
            r.wf(),
            r.view() == Map::<Seq<char>, V>::empty(),
    {
        StrMap { entries: Vec::new() }
    }

    /// The index of the entry for `key`, if there is one.
    fn find(&self, key: &String) -> (r: Option<usize>)
        requires
            self.wf(),
        ensures
            match r {
                Some(i) => i < self.entries@.len() && self.entries@[i as int].0@ == key@,
                None => !self.view().contains_key(key@),
            },
    {
        let mut i: usize = 0;
        while i < self.entries.len()
            invariant
                i <= self.entries@.len(),
                forall|j: int| 0 <= j < i ==> #[trigger] self.entries@[j].0@ != key@,
            decreases self.entries@.len() - i,
        {
            if self.entries[i].0 == *key {
                return Some(i);
            }
            i = i + 1;
        }
        proof {
            lemma_entries_view_domain(self.entries@, key@);
        }
        None
    }

    pub fn contains_key(&self, key: &str) -> (r: bool)
        requires
            self.wf(),
        ensures
            r == self.view().contains_key(key@),
    {
        let k = String::from_str(key);
        match self.find(&k) {
            Some(i) => {
                proof {
                    lemma_entries_view_value(self.entries@, i as int);
                }
                true
            },
            None => false,
        }
    }

    pub fn get(&self, key: &str) -> (r: Option<&V>)
        requires
            self.wf(),
        ensures
            match r {
                Some(v) => self.view().contains_key(key@) && *v == self.view()[key@],
                None => !self.view().contains_key(key@),
            },
    {
        let k = String::from_str(key);
        match self.find(&k) {
            Some(i) => {
                proof {
                    lemma_entries_view_value(self.entries@, i as int);
                }
                Some(&self.entries[i].1)
            },
            None => None,
        }
    }

    /// Sets the value of `key`; gives back the value it had, if any.
    pub fn insert(&mut self, key: &str, v: V) -> (r: Option<V>)
        requires
            old(self).wf(),
        ensures
            final(self).wf(),
            final(self).view() == old(self).view().insert(key@, v),
            match r {
                Some(p) => old(self).view().contains_key(key@) && p == old(self).view()[key@],
                None => !old(self).view().contains_key(key@),
            },
    {
        let k = String::from_str(key);
        match self.find(&k) {
            Some(i) => {
                proof {
                    lemma_entries_view_value(self.entries@, i as int);
                    lemma_entries_view_update(self.entries@, i as int, v);
                }
                let ghost s = self.entries@;
                let mut slot = v;
                std::mem::swap(&mut self.entries[i].1, &mut slot);
                assert(self.entries@ == s.update(i as int, (s[i as int].0, v)));
                Some(slot)
            },
            None => {
                let ghost s = self.entries@;
                self.entries.push((k, v));
                assert(self.entries@.drop_last() == s);
                proof {
                    lemma_entries_view_domain(s, key@);
                    assert forall|a: int, b: int| 0 <= a < b < self.entries@.len() implies
                        #[trigger] self.entries@[a].0@ != #[trigger] self.entries@[b].0@ by {
                        if b == s.len() {
                            assert(s[a].0@ == self.entries@[a].0@);
                        } else {
                            assert(s[a] == self.entries@[a] && s[b] == self.entries@[b]);
                        }
                    }
                }
                None
            },
        }
    }
}

} // verus!
