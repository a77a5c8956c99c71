//! A finite map keyed by account e-mail address, kept as a list of
//! `(email, value)` pairs with no e-mail occurring twice.

use vstd::prelude::*;

verus! {

/// No two pairs of `s` share an e-mail address.
pub open spec fn keys_distinct<V>(s: Seq<(String, V)>) -> bool {
    forall|i: int, j: int| 0 <= i < s.len() && 0 <= j < s.len() && i != j ==> #[trigger] s[i].0@ != #[trigger] s[j].0@
}

/// Some pair of `s` carries the e-mail `k`.
pub open spec fn has_key<V>(s: Seq<(String, V)>, k: Seq<char>) -> bool {
    exists|i: int| 0 <= i < s.len() && #[trigger] s[i].0@ == k
}

/// The position of the pair that carries `k` (meaningful when `has_key(s, k)`).
pub open spec fn key_index<V>(s: Seq<(String, V)>, k: Seq<char>) -> int {
    choose|i: int| 0 <= i < s.len() && #[trigger] s[i].0@ == k
}

/// The map that a list of pairs with distinct e-mails denotes.
pub open spec fn pairs_to_map<V>(s: Seq<(String, V)>) -> Map<Seq<char>, V> {
    Map::new(|k: Seq<char>| has_key(s, k), |k: Seq<char>| s[key_index(s, k)].1)
}

/// A map from e-mail addresses (by their characters) to values.
#[derive(Debug)]
pub struct EmailMap<V> {
    entries: Vec<(String, V)>,
}

impl<V> View for EmailMap<V> {
    type V = Map<Seq<char>, V>;

    closed spec fn view(&self) -> Map<Seq<char>, V> {
        pairs_to_map(self.entries@)
    }
}

/// In a list with distinct e-mails, the pair at position `i` is the one
/// that carries its e-mail.
proof fn lemma_key_index_unique<V>(s: Seq<(String, V)>, i: int)
    requires
        keys_distinct(s),
        0 <= i < s.len(),
    ensures
        has_key(s, s[i].0@),
        key_index(s, s[i].0@) == i,
{
    let k = s[i].0@;
    assert(has_key(s, k));
    let j = key_index(s, k);
    assert(s[j].0@ == k);
}

impl<V> EmailMap<V> {
    #[verifier::type_invariant]
    closed spec fn inv(self) -> bool {
        keys_distinct(self.entries@)
    }

    /// The empty map.
    pub fn new() -> (r: Self)
        ensures
            r@ == Map::<Seq<char>, V>::empty(),
    {
        let r = EmailMap { entries: Vec::new() };
        assert(r@ =~= Map::<Seq<char>, V>::empty());
        r
    }

    /// The `(email, value)` pairs, no e-mail twice, in no particular order.
    pub fn entries(&self) -> (r: &[(String, V)])
        ensures
            keys_distinct(r@),
            pairs_to_map(r@) == self@,
    {
        proof {
            use_type_invariant(self);
        }
        self.entries.as_slice()
    }

    /// The position of the pair for `key`, if there is one.
    fn position(&self, key: &String) -> (r: Option<usize>)
        ensures
            match r {
                Some(i) => i < self.entries@.len() && self.entries@[i as int].0@ == key@,
                None => !has_key(self.entries@, key@),
            },
    {
        let mut i: usize = 0;
        while i < self.entries.len()
            invariant
                i <= self.entries@.len(),
                forall|j: int| 0 <= j < i ==> #[trigger] self.entries@[j].0@ != key@,
            decreases self.entries@.len() - i,
        {
            if self.entries[i].0 == *key {
                return Some(i);
            }
            i = i + 1;
        }
        None
    }

    /// Whether `key` has a value.
    pub fn contains_key(&self, key: &String) -> (r: bool)
        ensures
            r == self@.contains_key(key@),
    {
        self.position(key).is_some()
    }

    /// The value stored for `key`, if any.
    pub fn get(&self, key: &String) -> (r: Option<&V>)
        ensures
            match r {
                Some(v) => self@.contains_key(key@) && *v == self@[key@],
                None => !self@.contains_key(key@),
            },
    {
        proof {
            use_type_invariant(self);
        }
        match self.position(key) {
            Some(i) => {
                proof {
                    lemma_key_index_unique(self.entries@, i as int);
                }
                Some(&self.entries[i].1)
            },
            None => None,
        }
    }

    /// Stores `value` for `key`, replacing any value stored before.
    pub fn insert(&mut self, key: String, value: V)
        ensures
            final(self)@ == old(self)@.insert(key@, value),
    {
        proof {
            use_type_invariant(&*self);
        }
        let ghost old_entries = self.entries@;
        let ghost k = key@;
        match self.position(&key) {
            Some(i) => {
                let mut entries = Vec::new();
                std::mem::swap(&mut entries, &mut self.entries);
                entries.set(i, (key, value));
                proof {
                    assert forall|a: int, b: int|
                        0 <= a < entries@.len() && 0 <= b < entries@.len() && a != b implies
                        #[trigger] entries@[a].0@ != #[trigger] entries@[b].0@ by {
                        if a != i && b != i {
                            assert(old_entries[a].0@ != old_entries[b].0@);
                        } else if a == i {
                            assert(old_entries[i as int].0@ != old_entries[b].0@);
                        } else {
                            assert(old_entries[a].0@ != old_entries[i as int].0@);
                        }
                    }
                    assert forall|kk: Seq<char>| #[trigger] has_key(entries@, kk) == has_key(old_entries, kk) by {
                        if has_key(old_entries, kk) {
                            let j = key_index(old_entries, kk);
                            assert(entries@[j].0@ == kk);
                        }
                        if has_key(entries@, kk) {
                            let j = key_index(entries@, kk);
                            assert(old_entries[j].0@ == kk);
                        }
                    }
                    assert forall|kk: Seq<char>| has_key(entries@, kk) implies
                        entries@[key_index(entries@, kk)].1 == (if kk == k { value } else { pairs_to_map(old_entries)[kk] }) by {
                        let j = key_index(entries@, kk);
                        lemma_key_index_unique(entries@, j);
                        if kk != k {
                            lemma_key_index_unique(old_entries, j);
                        } else {
                            lemma_key_index_unique(entries@, i as int);
                        }
                    }
                    assert(pairs_to_map(entries@) =~= pairs_to_map(old_entries).insert(k, value));
                }
                self.entries = entries;
            },
            None => {
                let mut entries = Vec::new();
                std::mem::swap(&mut entries, &mut self.entries);
                entries.push((key, value));
                proof {
                    let n: int = old_entries.len() as int;
                    assert forall|a: int, b: int|
                        0 <= a < entries@.len() && 0 <= b < entries@.len() && a != b implies
                        #[trigger] entries@[a].0@ != #[trigger] entries@[b].0@ by {
                        if a < n && b < n {
                            assert(old_entries[a].0@ != old_entries[b].0@);
                        } else if a == n {
                            assert(old_entries[b].0@ != k);
                        } else {
                            assert(old_entries[a].0@ != k);
                        }
                    }
                    assert forall|kk: Seq<char>| #[trigger] has_key(entries@, kk) == (has_key(old_entries, kk) || kk == k) by {
                        if has_key(old_entries, kk) {
                            let j = key_index(old_entries, kk);
                            assert(entries@[j].0@ == kk);
                        }
                        if kk == k {
                            assert(entries@[n].0@ == kk);
                        }
                        if has_key(entries@, kk) && kk != k {
                            let j = key_index(entries@, kk);
                            assert(old_entries[j].0@ == kk);
                        }
                    }
                    assert forall|kk: Seq<char>| has_key(entries@, kk) implies
                        entries@[key_index(entries@, kk)].1 == (if kk == k { value } else { pairs_to_map(old_entries)[kk] }) by {
                        let j = key_index(entries@, kk);
                        lemma_key_index_unique(entries@, j);
                        if kk != k {
                            lemma_key_index_unique(old_entries, j);
                        } else {
                            lemma_key_index_unique(entries@, n as int);
                        }
                    }
                    assert(pairs_to_map(entries@) =~= pairs_to_map(old_entries).insert(k, value));
                }
                self.entries = entries;
            },
        }
    }

    /// Takes out the value stored for `key`, if any.
    pub fn remove(&mut self, key: &String) -> (r: Option<V>)
        ensures
            final(self)@ == old(self)@.remove(key@),
            match r {
                Some(v) => old(self)@.contains_key(key@) && v == old(self)@[key@],
                None => !old(self)@.contains_key(key@),
            },
    {
        proof {
            use_type_invariant(&*self);
        }
        let ghost old_entries = self.entries@;
        let ghost k = key@;
        match self.position(key) {
            Some(i) => {
                let mut entries = Vec::new();
                std::mem::swap(&mut entries, &mut self.entries);
                let (_, v) = entries.remove(i);
                proof {
                    lemma_key_index_unique(old_entries, i as int);
                    assert forall|a: int| 0 <= a < entries@.len() implies
                        #[trigger] entries@[a] == old_entries[if a < i { a } else { a + 1 }] by {}
                    assert forall|a: int, b: int|
                        0 <= a < entries@.len() && 0 <= b < entries@.len() && a != b implies
                        #[trigger] entries@[a].0@ != #[trigger] entries@[b].0@ by {
                        let oa = if a < i { a } else { a + 1 };
                        let ob = if b < i { b } else { b + 1 };
                        assert(entries@[a] == old_entries[oa]);
                        assert(entries@[b] == old_entries[ob]);
                        assert(old_entries[oa].0@ != old_entries[ob].0@);
                    }
                    assert forall|kk: Seq<char>| #[trigger] has_key(entries@, kk) == (has_key(old_entries, kk) && kk != k) by {
                        if has_key(old_entries, kk) && kk != k {
                            let j = key_index(old_entries, kk);
                            assert(j != i);
                            let nj = if j < i { j } else { j - 1 };
                            assert(entries@[nj] == old_entries[j]);
                        }
                        if has_key(entries@, kk) {
                            let j = key_index(entries@, kk);
                            let oj = if j < i { j } else { j + 1 };
                            assert(entries@[j] == old_entries[oj]);
                            assert(oj != i);
                            assert(old_entries[oj].0@ != old_entries[i as int].0@);
                        }
                    }
                    assert forall|kk: Seq<char>| has_key(entries@, kk) implies
                        entries@[key_index(entries@, kk)].1 == pairs_to_map(old_entries)[kk] by {
                        let j = key_index(entries@, kk);
                        let oj = if j < i { j } else { j + 1 };
                        assert(entries@[j] == old_entries[oj]);
                        lemma_key_index_unique(old_entries, oj);
                    }
                    assert(pairs_to_map(entries@) =~= pairs_to_map(old_entries).remove(k));
                }
                self.entries = entries;
                Some(v)
            },
            None => {
                proof {
                    assert(pairs_to_map(old_entries) =~= pairs_to_map(old_entries).remove(k));
                }
                None
            },
        }
    }
}

} // verus!
