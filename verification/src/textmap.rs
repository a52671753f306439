//! A map from text to values, kept in the order of its keys.

use crate::text;
use vstd::prelude::*;

verus! {

/// A map with text keys whose entries stand in increasing order of the keys.
pub struct TextMap<V> {
    entries: Vec<(String, V)>,
}

/// The keys increase.
pub open spec fn increasing<V>(s: Seq<(String, V)>) -> bool {
    forall|i: int, j: int| 0 <= i < j < s.len() ==> text::text_lt(#[trigger] s[i].0@, #[trigger] s[j].0@)
}

/// An entry with key `k` stands at index `i`.
pub open spec fn key_at<V>(s: Seq<(String, V)>, k: Seq<char>, i: int) -> bool {
    0 <= i < s.len() && s[i].0@ == k
}

/// The map with the given entries.
pub open spec fn map_of<V>(s: Seq<(String, V)>) -> Map<Seq<char>, V> {
    Map::new(
        |k: Seq<char>| exists|i: int| key_at(s, k, i),
        |k: Seq<char>| s[choose|i: int| key_at(s, k, i)].1,
    )
}

/// The texts held by a map of strings.
pub open spec fn text_values(m: TextMap<String>) -> Map<Seq<char>, Seq<char>> {
    m@.map_values(|s: String| s@)
}

/// In increasing order a key stands at one place only.
pub proof fn lemma_key_once<V>(s: Seq<(String, V)>, i: int, j: int)
    requires
        increasing(s),
        0 <= i < s.len(),
        0 <= j < s.len(),
        s[i].0@ == s[j].0@,
    ensures
        i == j,
{
    text::lemma_text_lt_irreflexive(s[i].0@);
    if i < j {
        assert(text::text_lt(s[i].0@, s[j].0@));
    }
    if j < i {
        assert(text::text_lt(s[j].0@, s[i].0@));
    }
}

/// The map sends the key at an index to the value there.
pub proof fn lemma_map_at<V>(s: Seq<(String, V)>, i: int)
    requires
        increasing(s),
        0 <= i < s.len(),
    ensures
        map_of(s).contains_key(s[i].0@),
        map_of(s)[s[i].0@] == s[i].1,
{
    let k = s[i].0@;
    assert(key_at(s, k, i));
    let j = choose|j: int| key_at(s, k, j);
    lemma_key_once(s, i, j);
}

/// A map has as many keys as it has entries.
proof fn lemma_map_len<V>(s: Seq<(String, V)>)
    requires
        increasing(s),
    ensures
        map_of(s).dom().finite(),
        map_of(s).dom().len() == s.len(),
{
    let keys = s.map_values(|e: (String, V)| e.0@);
    assert forall|i: int, j: int| 0 <= i < keys.len() && 0 <= j < keys.len() && i != j implies keys[i]
        != keys[j] by {
        if s[i].0@ == s[j].0@ {
            lemma_key_once(s, i, j);
        }
    }
    assert forall|k: Seq<char>| keys.to_set().contains(k) == map_of(s).dom().contains(k) by {
        if keys.contains(k) {
            let i = choose|i: int| 0 <= i < keys.len() && keys[i] == k;
            assert(key_at(s, k, i));
        }
        if map_of(s).contains_key(k) {
            let i = choose|i: int| key_at(s, k, i);
            assert(keys[i] == k);
        }
    }
    assert(keys.to_set() =~= map_of(s).dom());
    keys.unique_seq_to_set();
}

impl<V> TextMap<V> {
    #[verifier::type_invariant]
    spec fn ordered(self) -> bool {
        increasing(self.entries@)
    }

    /// The entries in order.
    pub closed spec fn seq(self) -> Seq<(String, V)> {
        self.entries@
    }

    /// The map without entries.
    pub fn new() -> (r: Self)
        ensures
            r@ == Map::<Seq<char>, V>::empty(),
            r.seq().len() == 0,
    {
        let r = TextMap { entries: Vec::new() };
        assert(r@ =~= Map::<Seq<char>, V>::empty());
        r
    }

    /// The entries, in increasing order of their keys.
    pub fn entries(&self) -> (r: &Vec<(String, V)>)
        ensures
            r@ == self.seq(),
            increasing(r@),
            self@ == map_of(r@),
    {
        proof {
            use_type_invariant(self);
        }
        &self.entries
    }

    fn place(&self, key: &str) -> (r: usize)
        ensures
            r <= self.entries@.len(),
            forall|i: int| 0 <= i < r ==> text::text_lt(#[trigger] self.entries@[i].0@, key@),
            r < self.entries@.len() ==> text::text_le(key@, self.entries@[r as int].0@),
    {
        let mut i: usize = 0;
        while i < self.entries.len() && text::less(self.entries[i].0.as_str(), key)
            invariant
                i <= self.entries@.len(),
                forall|j: int| 0 <= j < i ==> text::text_lt(#[trigger] self.entries@[j].0@, key@),
            ensures
                i <= self.entries@.len(),
                forall|j: int| 0 <= j < i ==> text::text_lt(#[trigger] self.entries@[j].0@, key@),
                i < self.entries@.len() ==> text::text_le(key@, self.entries@[i as int].0@),
            decreases self.entries@.len() - i,
        {
            i = i + 1;
        }
        i
    }

    /// The value at `key`.
    pub fn get(&self, key: &str) -> (r: Option<&V>)
        ensures
            match r {
                Some(v) => self@.contains_key(key@) && self@[key@] == *v,
                None => !self@.contains_key(key@),
            },
    {
        proof {
            use_type_invariant(self);
        }
        let i = self.place(key);
        if i < self.entries.len() && text::same(self.entries[i].0.as_str(), key) {
            proof {
                lemma_map_at(self.entries@, i as int);
            }
            Some(&self.entries[i].1)
        } else {
            proof {
                lemma_absent(self.entries@, key@, i as int);
            }
            None
        }
    }

    /// Whether `key` has a value.
    pub fn contains_key(&self, key: &str) -> (r: bool)
        ensures
            r == self@.contains_key(key@),
    {
        self.get(key).is_some()
    }

    /// The number of entries.
    pub fn len(&self) -> (r: usize)
        ensures
            r == self.seq().len(),
            self@.dom().finite(),
            r == self@.dom().len(),
    {
        proof {
            use_type_invariant(self);
            lemma_map_len(self.entries@);
        }
        self.entries.len()
    }

    /// The entries, in increasing order of their keys.
    pub fn into_entries(self) -> (r: Vec<(String, V)>)
        ensures
            r@ == self.seq(),
            increasing(r@),
            self@ == map_of(r@),
    {
        proof {
            use_type_invariant(&self);
        }
        self.entries
    }

    /// Takes the entry at `key` out.
    pub fn remove(&mut self, key: &str) -> (r: Option<V>)
        ensures
            final(self)@ == old(self)@.remove(key@),
            match r {
                Some(v) => old(self)@.contains_key(key@) && old(self)@[key@] == v,
                None => !old(self)@.contains_key(key@),
            },
    {
        proof {
            use_type_invariant(&*self);
        }
        let i = self.place(key);
        let ghost before = self.entries@;
        if i < self.entries.len() && text::same(self.entries[i].0.as_str(), key) {
            let mut entries: Vec<(String, V)> = Vec::new();
            std::mem::swap(&mut entries, &mut self.entries);
            let e = entries.remove(i);
            proof {
                lemma_taken(before, i as int);
                lemma_map_at(before, i as int);
            }
            self.entries = entries;
            Some(e.1)
        } else {
            proof {
                lemma_absent(before, key@, i as int);
                assert(map_of(before).remove(key@) =~= map_of(before));
            }
            None
        }
    }

    /// Puts `value` at `key`, in place of what was there.
    pub fn insert(&mut self, key: String, value: V)
        ensures
            final(self)@ == old(self)@.insert(key@, value),
    {
        proof {
            use_type_invariant(&*self);
        }
        let i = self.place(key.as_str());
        let ghost before = self.entries@;
        let mut entries: Vec<(String, V)> = Vec::new();
        std::mem::swap(&mut entries, &mut self.entries);
        if i < entries.len() && text::same(entries[i].0.as_str(), key.as_str()) {
            let ghost k = key@;
            entries.set(i, (key, value));
            proof {
                lemma_replaced(before, i as int, k, entries@);
                assert(map_of(entries@) =~= map_of(before).insert(k, value));
            }
        } else {
            proof {
                lemma_absent(before, key@, i as int);
                lemma_put(before, i as int, (key, value));
            }
            entries.insert(i, (key, value));
        }
        self.entries = entries;
    }
}

impl<V> View for TextMap<V> {
    type V = Map<Seq<char>, V>;

    open spec fn view(&self) -> Map<Seq<char>, V> {
        map_of(self.seq())
    }
}

proof fn lemma_absent<V>(s: Seq<(String, V)>, k: Seq<char>, i: int)
    requires
        increasing(s),
        0 <= i <= s.len(),
        forall|j: int| 0 <= j < i ==> text::text_lt(#[trigger] s[j].0@, k),
        i < s.len() ==> text::text_le(k, s[i].0@) && s[i].0@ != k,
    ensures
        !map_of(s).contains_key(k),
        forall|j: int| i <= j < s.len() ==> text::text_lt(k, #[trigger] s[j].0@),
{
    text::lemma_text_lt_irreflexive(k);
    assert forall|j: int| i <= j < s.len() implies text::text_lt(k, #[trigger] s[j].0@) by {
        text::lemma_text_lt_total(k, s[i].0@);
        if i < j {
            assert(text::text_lt(s[i].0@, s[j].0@));
            text::lemma_text_lt_transitive(k, s[i].0@, s[j].0@);
        }
    }
    assert forall|j: int| !key_at(s, k, j) by {
        if key_at(s, k, j) {
            if j < i {
                assert(text::text_lt(s[j].0@, k));
            } else {
                assert(text::text_lt(k, s[j].0@));
            }
        }
    }
}

proof fn lemma_replaced<V>(s: Seq<(String, V)>, i: int, k: Seq<char>, t: Seq<(String, V)>)
    requires
        increasing(s),
        0 <= i < s.len(),
        s[i].0@ == k,
        t == s.update(i, t[i]),
        t[i].0@ == k,
    ensures
        increasing(t),
        map_of(t) == map_of(s).insert(k, t[i].1),
{
    assert forall|a: int, b: int| 0 <= a < b < t.len() implies text::text_lt(
        #[trigger] t[a].0@,
        #[trigger] t[b].0@,
    ) by {
        assert(t[a].0@ == s[a].0@);
        assert(t[b].0@ == s[b].0@);
    }
    let m = map_of(s).insert(k, t[i].1);
    lemma_map_at(t, i);
    assert forall|x: Seq<char>| map_of(t).contains_key(x) == m.contains_key(x) by {
        if map_of(t).contains_key(x) {
            let j = choose|j: int| key_at(t, x, j);
            assert(key_at(s, x, j));
        }
        if m.contains_key(x) && x != k {
            let j = choose|j: int| key_at(s, x, j);
            assert(key_at(t, x, j));
        }
    }
    assert forall|x: Seq<char>| map_of(t).contains_key(x) implies map_of(t)[x] == m[x] by {
        let j = choose|j: int| key_at(t, x, j);
        lemma_map_at(t, j);
        lemma_map_at(s, j);
        if x == k {
            lemma_key_once(t, i, j);
        }
    }
    assert(map_of(t) =~= m);
}

proof fn lemma_taken<V>(s: Seq<(String, V)>, i: int)
    requires
        increasing(s),
        0 <= i < s.len(),
    ensures
        increasing(s.remove(i)),
        map_of(s.remove(i)) == map_of(s).remove(s[i].0@),
{
    let t = s.remove(i);
    let k = s[i].0@;
    assert forall|a: int, b: int| 0 <= a < b < t.len() implies text::text_lt(
        #[trigger] t[a].0@,
        #[trigger] t[b].0@,
    ) by {
        let sa = if a < i { a } else { a + 1 };
        let sb = if b < i { b } else { b + 1 };
        assert(text::text_lt(s[sa].0@, s[sb].0@));
    }
    let m = map_of(s).remove(k);
    assert forall|x: Seq<char>| map_of(t).contains_key(x) == m.contains_key(x) by {
        if map_of(t).contains_key(x) {
            let j = choose|j: int| key_at(t, x, j);
            let sj = if j < i { j } else { j + 1 };
            assert(key_at(s, x, sj));
            if x == k {
                lemma_key_once(s, sj, i);
            }
        }
        if m.contains_key(x) {
            let j = choose|j: int| key_at(s, x, j);
            let tj = if j < i { j } else { j - 1 };
            assert(key_at(t, x, tj));
        }
    }
    assert forall|x: Seq<char>| map_of(t).contains_key(x) implies map_of(t)[x] == m[x] by {
        let j = choose|j: int| key_at(t, x, j);
        let sj = if j < i { j } else { j + 1 };
        lemma_map_at(t, j);
        lemma_map_at(s, sj);
        if x == k {
            lemma_key_once(s, sj, i);
        }
    }
    assert(map_of(t) =~= m);
}

proof fn lemma_put<V>(s: Seq<(String, V)>, i: int, e: (String, V))
    requires
        increasing(s),
        0 <= i <= s.len(),
        forall|j: int| 0 <= j < i ==> text::text_lt(#[trigger] s[j].0@, e.0@),
        forall|j: int| i <= j < s.len() ==> text::text_lt(e.0@, #[trigger] s[j].0@),
    ensures
        increasing(s.insert(i, e)),
        map_of(s.insert(i, e)) == map_of(s).insert(e.0@, e.1),
{
    let t = s.insert(i, e);
    let k = e.0@;
    assert forall|a: int, b: int| 0 <= a < b < t.len() implies text::text_lt(
        #[trigger] t[a].0@,
        #[trigger] t[b].0@,
    ) by {
        let sa = if a < i { a } else { a - 1 };
        let sb = if b < i { b } else { b - 1 };
        if a == i {
            assert(text::text_lt(k, s[sb].0@));
        } else if b == i {
            assert(text::text_lt(s[sa].0@, k));
        } else {
            assert(text::text_lt(s[sa].0@, s[sb].0@));
        }
    }
    text::lemma_text_lt_irreflexive(k);
    let m = map_of(s).insert(k, e.1);
    assert(t[i] == e);
    lemma_map_at(t, i);
    assert forall|x: Seq<char>| map_of(t).contains_key(x) == m.contains_key(x) by {
        if map_of(t).contains_key(x) && x != k {
            let j = choose|j: int| key_at(t, x, j);
            if j < i {
                assert(key_at(s, x, j));
            } else {
                assert(key_at(s, x, j - 1));
            }
        }
        if m.contains_key(x) && x != k {
            let j = choose|j: int| key_at(s, x, j);
            if j < i {
                assert(key_at(t, x, j));
            } else {
                assert(key_at(t, x, j + 1));
            }
        }
    }
    assert forall|x: Seq<char>| map_of(t).contains_key(x) implies map_of(t)[x] == m[x] by {
        let j = choose|j: int| key_at(t, x, j);
        lemma_map_at(t, j);
        if j < i {
            lemma_map_at(s, j);
            assert(text::text_lt(s[j].0@, k));
        } else if j > i {
            lemma_map_at(s, j - 1);
            assert(text::text_lt(k, s[j - 1].0@));
        }
    }
    assert(map_of(t) =~= m);
}

impl Clone for TextMap<String> {
    fn clone(&self) -> (r: Self)
        ensures
            r.seq() == self.seq(),
    {
        proof {
            use_type_invariant(self);
        }
        let mut out: Vec<(String, String)> = Vec::new();
        let mut i: usize = 0;
        while i < self.entries.len()
            invariant
                i <= self.entries@.len(),
                out@ == self.entries@.take(i as int),
            decreases self.entries@.len() - i,
        {
            out.push((self.entries[i].0.clone(), self.entries[i].1.clone()));
            i = i + 1;
            assert(out@ =~= self.entries@.take(i as int));
        }
        assert(out@ =~= self.entries@);
        TextMap { entries: out }
    }
}

} // verus!
