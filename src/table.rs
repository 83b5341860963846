use vstd::prelude::*;

verus! {

/// No two entries share a key.
pub open spec fn keys_unique<D>(s: Seq<(String, D)>) -> bool {
    forall|i: int, j: int|
        0 <= i < s.len() && 0 <= j < s.len() && i != j ==> #[trigger] s[i].0@ != #[trigger] s[j].0@
}

pub open spec fn has_key<D>(s: Seq<(String, D)>, k: Seq<char>) -> bool {
    exists|i: int| 0 <= i < s.len() && #[trigger] s[i].0@ == k
}

pub open spec fn key_index<D>(s: Seq<(String, D)>, k: Seq<char>) -> int {
    choose|i: int| 0 <= i < s.len() && #[trigger] s[i].0@ == k
}

/// The map from key to value that a sequence of entries with unique keys
/// stands for.
pub open spec fn table_map<D>(s: Seq<(String, D)>) -> Map<Seq<char>, D> {
    Map::new(|k: Seq<char>| has_key(s, k), |k: Seq<char>| s[key_index(s, k)].1)
}

/// The keys of a sequence of entries, in order.
pub open spec fn key_seq<D>(s: Seq<(String, D)>) -> Seq<String> {
    s.map_values(|e: (String, D)| e.0)
}

proof fn lemma_key_index<D>(s: Seq<(String, D)>, j: int)
    requires
        keys_unique(s),
        0 <= j < s.len(),
    ensures
        has_key(s, s[j].0@),
        key_index(s, s[j].0@) == j,
{
    assert(s[j].0@ == s[j].0@);
    let i = key_index(s, s[j].0@);
    assert(s[i].0@ == s[j].0@);
}

proof fn lemma_push<D>(s: Seq<(String, D)>, k: String, v: D)
    requires
        keys_unique(s),
        !has_key(s, k@),
    ensures
        keys_unique(s.push((k, v))),
        table_map(s.push((k, v))) == table_map(s).insert(k@, v),
{
    let t = s.push((k, v));
    assert forall|i: int, j: int|
        0 <= i < t.len() && 0 <= j < t.len() && i != j implies #[trigger] t[i].0@ != #[trigger] t[j].0@ by {
        if i == s.len() {
            assert(s[j].0@ == t[j].0@);
        } else if j == s.len() {
            assert(s[i].0@ == t[i].0@);
        } else {
            assert(s[i] == t[i] && s[j] == t[j]);
        }
    }
    assert forall|x: Seq<char>| has_key(t, x) == (has_key(s, x) || x == k@) by {
        if has_key(t, x) {
            let i = choose|i: int| 0 <= i < t.len() && #[trigger] t[i].0@ == x;
            if i < s.len() {
                assert(s[i].0@ == x);
            }
        }
        if has_key(s, x) {
            let i = choose|i: int| 0 <= i < s.len() && #[trigger] s[i].0@ == x;
            assert(t[i].0@ == x);
        }
        if x == k@ {
            assert(t[s.len() as int].0@ == x);
        }
    }
    assert forall|x: Seq<char>| #[trigger] has_key(t, x) implies table_map(t)[x] == table_map(s).insert(k@, v)[x] by {
        if x == k@ {
            lemma_key_index(t, s.len() as int);
        } else {
            let i = key_index(s, x);
            lemma_key_index(s, i);
            assert(t[i] == s[i]);
            lemma_key_index(t, i);
        }
    }
    assert(table_map(t) =~= table_map(s).insert(k@, v));
}

proof fn lemma_remove<D>(s: Seq<(String, D)>, i: int)
    requires
        keys_unique(s),
        0 <= i < s.len(),
    ensures
        keys_unique(s.remove(i)),
        table_map(s.remove(i)) == table_map(s).remove(s[i].0@),
        key_seq(s.remove(i)) == key_seq(s).remove(i),
{
    let t = s.remove(i);
    let k = s[i].0@;
    assert forall|a: int| 0 <= a < t.len() implies #[trigger] t[a] == s[if a < i { a } else { a + 1 }] by {}
    assert forall|a: int, b: int|
        0 <= a < t.len() && 0 <= b < t.len() && a != b implies #[trigger] t[a].0@ != #[trigger] t[b].0@ by {
        let a2 = if a < i { a } else { a + 1 };
        let b2 = if b < i { b } else { b + 1 };
        assert(t[a] == s[a2] && t[b] == s[b2]);
    }
    assert forall|x: Seq<char>| has_key(t, x) == (has_key(s, x) && x != k) by {
        if has_key(t, x) {
            let a = choose|a: int| 0 <= a < t.len() && #[trigger] t[a].0@ == x;
            let a2 = if a < i { a } else { a + 1 };
            assert(t[a] == s[a2]);
            assert(s[a2].0@ == x);
        }
        if has_key(s, x) && x != k {
            let a = choose|a: int| 0 <= a < s.len() && #[trigger] s[a].0@ == x;
            if a < i {
                assert(t[a] == s[a]);
            } else {
                assert(t[a - 1] == s[a]);
            }
        }
    }
    assert forall|x: Seq<char>| #[trigger] has_key(t, x) implies table_map(t)[x] == table_map(s)[x] by {
        let a = key_index(t, x);
        lemma_key_index(t, a);
        let a2 = if a < i { a } else { a + 1 };
        assert(t[a] == s[a2]);
        lemma_key_index(s, a2);
    }
    assert(table_map(t) =~= table_map(s).remove(k));
    assert(key_seq(t) =~= key_seq(s).remove(i));
}

/// Entries keyed by name, each name at most once.
pub struct Table<D> {
    entries: Vec<(String, D)>,
}

impl<D> View for Table<D> {
    type V = Map<Seq<char>, D>;

    closed spec fn view(&self) -> Map<Seq<char>, D> {
        table_map(self.entries@)
    }
}

impl<D> Table<D> {
    pub closed spec fn wf(&self) -> bool {
        keys_unique(self.entries@)
    }

    /// The keys, in the order in which they are held.
    pub closed spec fn keys(&self) -> Seq<String> {
        key_seq(self.entries@)
    }

    pub proof fn lemma_keys(&self)
        requires
            self.wf(),
        ensures
            forall|k: Seq<char>|
                self@.contains_key(k) <==> exists|i: int|
                    0 <= i < self.keys().len() && #[trigger] self.keys()[i]@ == k,
    {
        assert forall|k: Seq<char>| self@.contains_key(k) implies exists|i: int|
            0 <= i < self.keys().len() && #[trigger] self.keys()[i]@ == k by {
            let i = choose|i: int| 0 <= i < self.entries@.len() && #[trigger] self.entries@[i].0@ == k;
            assert(self.keys()[i]@ == k);
        }
        assert forall|k: Seq<char>| (exists|i: int|
            0 <= i < self.keys().len() && #[trigger] self.keys()[i]@ == k) implies self@.contains_key(k) by {
            let i = choose|i: int| 0 <= i < self.keys().len() && #[trigger] self.keys()[i]@ == k;
            assert(self.entries@[i].0@ == k);
        }
    }

    pub fn new() -> (t: Table<D>)
        ensures
            t.wf(),
            t@ == Map::<Seq<char>, D>::empty(),
    {
        let t = Table { entries: Vec::new() };
        assert(t@ =~= Map::<Seq<char>, D>::empty());
        t
    }

    /// The position of the entry under `key`, if there is one.
    fn find(&self, key: &String) -> (r: Option<usize>)
        requires
            self.wf(),
        ensures
            r is None <==> !self@.contains_key(key@),
            r matches Some(i) ==> i < self.entries@.len() && self.entries@[i as int].0@ == key@,
    {
        let mut i: usize = 0;
        while i < self.entries.len()
            invariant
                i <= self.entries@.len(),
                forall|j: int| 0 <= j < i ==> #[trigger] self.entries@[j].0@ != key@,
            decreases self.entries@.len() - i,
        {
            if self.entries[i].0 == *key {
                return Some(i);
            }
            i = i + 1;
        }
        None
    }

    /// Puts `value` under `key`, replacing what was there.
    pub fn insert(&mut self, key: String, value: D)
        requires
            old(self).wf(),
        ensures
            final(self).wf(),
            final(self)@ == old(self)@.insert(key@, value),
    {
        match self.find(&key) {
            Some(i) => {
                let ghost before = self.entries@;
                proof {
                    lemma_remove(before, i as int);
                }
                self.entries.remove(i);
                proof {
                    lemma_push(self.entries@, key, value);
                }
                self.entries.push((key, value));
                assert(self@ =~= old(self)@.insert(key@, value));
            },
            None => {
                proof {
                    lemma_push(self.entries@, key, value);
                }
                self.entries.push((key, value));
            },
        }
    }

    /// Takes out the entry under `key`, if there is one.
    pub fn remove(&mut self, key: &String) -> (r: Option<D>)
        requires
            old(self).wf(),
        ensures
            final(self).wf(),
            final(self)@ == old(self)@.remove(key@),
            old(self)@.contains_key(key@) ==> r == Some(old(self)@[key@]),
            !old(self)@.contains_key(key@) ==> r is None,
    {
        match self.find(key) {
            Some(i) => {
                proof {
                    lemma_remove(self.entries@, i as int);
                    lemma_key_index(self.entries@, i as int);
                }
                let (_, v) = self.entries.remove(i);
                Some(v)
            },
            None => {
                assert(self@ =~= old(self)@.remove(key@));
                None
            },
        }
    }

    /// The value under `key`, if there is one.
    pub fn get(&self, key: &String) -> (r: Option<&D>)
        requires
            self.wf(),
        ensures
            self@.contains_key(key@) ==> r == Some(&self@[key@]),
            !self@.contains_key(key@) ==> r is None,
    {
        match self.find(key) {
            Some(i) => {
                proof {
                    lemma_key_index(self.entries@, i as int);
                }
                Some(&self.entries[i].1)
            },
            None => None,
        }
    }

    /// A copy of every key.
    pub fn key_list(&self) -> (r: Vec<String>)
        requires
            self.wf(),
        ensures
            r@ == self.keys(),
    {
        let mut r: Vec<String> = Vec::new();
        let mut i: usize = 0;
        while i < self.entries.len()
            invariant
                i <= self.entries@.len(),
                r@ == key_seq(self.entries@).take(i as int),
            decreases self.entries@.len() - i,
        {
            r.push(self.entries[i].0.clone());
            assert(r@ =~= key_seq(self.entries@).take(i + 1));
            i = i + 1;
        }
        assert(r@ =~= key_seq(self.entries@));
        r
    }
}

} // verus!
