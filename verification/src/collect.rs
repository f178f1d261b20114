//! Sets and maps with texts as keys.
use crate::text;
use crate::text::{list_contains, text_eq};
use vstd::prelude::*;

verus! {

/// A set of texts.
#[derive(Debug)]
pub struct TextSet {
    items: Vec<String>,
}

impl View for TextSet {
    type V = Set<Seq<char>>;

    closed spec fn view(&self) -> Set<Seq<char>> {
        text::texts(self.items@).to_set()
    }
}

impl TextSet {
    #[verifier::type_invariant]
    spec fn distinct(self) -> bool {
        text::texts(self.items@).no_duplicates()
    }

    /// The empty set.
    pub fn new() -> (r: TextSet)
        ensures
            r@ == Set::<Seq<char>>::empty(),
    {
        let items: Vec<String> = Vec::new();
        assert(text::texts(items@).to_set() =~= Set::<Seq<char>>::empty());
        TextSet { items }
    }

    /// Whether the set holds `s`.
    pub fn contains(&self, s: &str) -> (r: bool)
        ensures
            r == self@.contains(s@),
    {
        list_contains(&self.items, s)
    }

    /// Whether the set is empty.
    pub fn is_empty(&self) -> (r: bool)
        ensures
            r == (self@ =~= Set::<Seq<char>>::empty()),
    {
        let r = self.items.len() == 0;
        proof {
            if r {
                assert(self@ =~= Set::<Seq<char>>::empty());
            } else {
                assert(text::texts(self.items@)[0] == self.items@[0]@);
                assert(self@.contains(self.items@[0]@));
            }
        }
        r
    }

    /// The number of texts in the set.
    pub fn len(&self) -> (r: usize)
        ensures
            self@.finite(),
            r == self@.len(),
    {
        proof {
            use_type_invariant(self);
            text::texts(self.items@).unique_seq_to_set();
        }
        self.items.len()
    }

    /// Puts `s` into the set; true where it was not there before.
    pub fn insert(&mut self, s: String) -> (fresh: bool)
        ensures
            final(self)@ == old(self)@.insert(s@),
            fresh == !old(self)@.contains(s@),
    {
        proof {
            use_type_invariant(&*self);
        }
        if self.contains(s.as_str()) {
            assert(self@ =~= old(self)@.insert(s@));
            return false;
        }
        let ghost before = text::texts(self.items@);
        let ghost it = s@;
        let mut items: Vec<String> = Vec::new();
        std::mem::swap(&mut items, &mut self.items);
        items.push(s);
        proof {
            assert(text::texts(items@) =~= before.push(it));
            assert forall|x: Seq<char>|
                #[trigger] before.push(it).contains(x) == (before.contains(x) || x == it) by {
                if before.contains(x) {
                    let k = choose|k: int| 0 <= k < before.len() && before[k] == x;
                    assert(before.push(it)[k] == x);
                }
                assert(before.push(it)[before.len() as int] == it);
            }
            assert(text::texts(items@).to_set() =~= before.to_set().insert(it));
        }
        self.items = items;
        true
    }

    /// The texts of the set, each once.
    pub fn items(&self) -> (r: &Vec<String>)
        ensures
            text::texts(r@).no_duplicates(),
            text::texts(r@).to_set() == self@,
    {
        proof {
            use_type_invariant(self);
        }
        &self.items
    }

    /// The texts of the set that pass a test: those in `other` or those not in it.
    fn picked(&self, other: &TextSet, inside: bool) -> (r: TextSet)
        ensures
            r@ == self@.filter(|s: Seq<char>| other@.contains(s) == inside),
    {
        let list = self.items();
        let mut out = TextSet::new();
        let mut i: usize = 0;
        while i < list.len()
            invariant
                i <= list@.len(),
                text::texts(list@).to_set() == self@,
                forall|s: Seq<char>| #[trigger]
                    out@.contains(s) <==> (text::texts(list@).take(i as int).contains(s)
                        && other@.contains(s) == inside),
            decreases list@.len() - i,
        {
            let ghost all = text::texts(list@);
            let ghost before = out@;
            let ghost it = list@[i as int]@;
            if other.contains(list[i].as_str()) == inside {
                out.insert(list[i].clone());
            }
            proof {
                assert(all.take(i + 1) =~= all.take(i as int).push(it));
                assert forall|s: Seq<char>| #[trigger] all.take(i + 1).contains(s) == (all.take(
                    i as int,
                ).contains(s) || s == it) by {
                    if all.take(i as int).contains(s) {
                        let k = choose|k: int| 0 <= k < i && all.take(i as int)[k] == s;
                        assert(all.take(i + 1)[k] == s);
                    }
                    assert(all.take(i + 1)[i as int] == it);
                }
            }
            i = i + 1;
        }
        proof {
            assert(text::texts(list@).take(i as int) =~= text::texts(list@));
            assert(out@ =~= self@.filter(|s: Seq<char>| other@.contains(s) == inside));
        }
        out
    }

    /// The texts of the set that are not in another one.
    pub fn without(&self, other: &TextSet) -> (r: TextSet)
        ensures
            r@ == self@.difference(other@),
    {
        let r = self.picked(other, false);
        assert(r@ =~= self@.difference(other@));
        r
    }

    /// The texts of the set that are also in another one.
    pub fn common(&self, other: &TextSet) -> (r: TextSet)
        ensures
            r@ == self@.intersect(other@),
    {
        let r = self.picked(other, true);
        assert(r@ =~= self@.intersect(other@));
        r
    }

    /// The texts of the set and those of another one.
    pub fn with(&self, other: &TextSet) -> (r: TextSet)
        ensures
            r@ == self@.union(other@),
    {
        let mut out = self.copy();
        let list = other.items();
        let mut i: usize = 0;
        while i < list.len()
            invariant
                i <= list@.len(),
                text::texts(list@).to_set() == other@,
                forall|s: Seq<char>| #[trigger]
                    out@.contains(s) <==> (self@.contains(s) || text::texts(list@).take(
                        i as int,
                    ).contains(s)),
            decreases list@.len() - i,
        {
            let ghost all = text::texts(list@);
            let ghost it = list@[i as int]@;
            out.insert(list[i].clone());
            proof {
                assert(all.take(i + 1) =~= all.take(i as int).push(it));
                assert forall|s: Seq<char>| #[trigger] all.take(i + 1).contains(s) == (all.take(
                    i as int,
                ).contains(s) || s == it) by {
                    if all.take(i as int).contains(s) {
                        let k = choose|k: int| 0 <= k < i && all.take(i as int)[k] == s;
                        assert(all.take(i + 1)[k] == s);
                    }
                    assert(all.take(i + 1)[i as int] == it);
                }
            }
            i = i + 1;
        }
        proof {
            assert(text::texts(list@).take(i as int) =~= text::texts(list@));
            assert(out@ =~= self@.union(other@));
        }
        out
    }

    /// A copy of the set.
    pub fn copy(&self) -> (r: TextSet)
        ensures
            r@ == self@,
    {
        proof {
            use_type_invariant(self);
        }
        let items = text::copy_list(&self.items);
        TextSet { items }
    }
}

/// A map with texts as keys.
#[derive(Debug)]
pub struct TextMap<V> {
    entries: Vec<(String, V)>,
}

/// The keys of entries.
spec fn keys_of<V>(entries: Seq<(String, V)>) -> Seq<Seq<char>> {
    entries.map_values(|e: (String, V)| e.0@)
}

/// The map that entries make.
spec fn map_of<V>(entries: Seq<(String, V)>) -> Map<Seq<char>, V> {
    Map::new(
        |k: Seq<char>| keys_of(entries).contains(k),
        |k: Seq<char>| entries[keys_of(entries).index_of(k)].1,
    )
}

/// An entry with a key that no other has is the one that the map holds under it.
proof fn lemma_map_at<V>(entries: Seq<(String, V)>, at: int)
    requires
        keys_of(entries).no_duplicates(),
        0 <= at < entries.len(),
    ensures
        map_of(entries).contains_key(entries[at].0@),
        map_of(entries)[entries[at].0@] == entries[at].1,
{
    let keys = keys_of(entries);
    assert(keys[at] == entries[at].0@);
    assert(keys.contains(keys[at]));
    assert(keys.index_of(keys[at]) == at);
}

/// An entry behind the others adds its key to the map.
proof fn lemma_map_push<V>(entries: Seq<(String, V)>, entry: (String, V))
    requires
        keys_of(entries).no_duplicates(),
        !keys_of(entries).contains(entry.0@),
    ensures
        keys_of(entries.push(entry)).no_duplicates(),
        map_of(entries.push(entry)) == map_of(entries).insert(entry.0@, entry.1),
{
    let all = entries.push(entry);
    let keys = keys_of(all);
    let before = keys_of(entries);
    assert(keys =~= before.push(entry.0@));
    assert forall|i: int, j: int| 0 <= i < j < keys.len() implies keys[i] != keys[j] by {
        if j == before.len() {
            assert(before.contains(before[i]));
        }
    }
    assert forall|k: Seq<char>| #[trigger] keys.contains(k) == (before.contains(k) || k
        == entry.0@) by {
        if before.contains(k) {
            let i = choose|i: int| 0 <= i < before.len() && before[i] == k;
            assert(keys[i] == k);
        }
        assert(keys[before.len() as int] == entry.0@);
    }
    assert forall|k: Seq<char>| #[trigger] keys.contains(k) implies map_of(all)[k] == map_of(
        entries,
    ).insert(entry.0@, entry.1)[k] by {
        if k == entry.0@ {
            lemma_map_at(all, entries.len() as int);
        } else {
            let i = choose|i: int| 0 <= i < before.len() && before[i] == k;
            lemma_map_at(all, i);
            lemma_map_at(entries, i);
        }
    }
    assert(map_of(all) =~= map_of(entries).insert(entry.0@, entry.1));
}

/// Without one of its entries a map lacks the key of that entry.
proof fn lemma_map_remove<V>(entries: Seq<(String, V)>, at: int)
    requires
        keys_of(entries).no_duplicates(),
        0 <= at < entries.len(),
    ensures
        keys_of(entries.remove(at)).no_duplicates(),
        map_of(entries.remove(at)) == map_of(entries).remove(entries[at].0@),
{
    let rest = entries.remove(at);
    let keys = keys_of(entries);
    let left = keys_of(rest);
    let gone = entries[at].0@;
    assert(left =~= keys.remove(at));
    assert forall|i: int, j: int| 0 <= i < j < left.len() implies left[i] != left[j] by {
        let a = if i < at { i } else { i + 1 };
        let b = if j < at { j } else { j + 1 };
        assert(left[i] == keys[a] && left[j] == keys[b]);
    }
    assert forall|k: Seq<char>| #[trigger] left.contains(k) == (keys.contains(k) && k != gone) by {
        if left.contains(k) {
            let i = choose|i: int| 0 <= i < left.len() && left[i] == k;
            let a = if i < at { i } else { i + 1 };
            assert(keys[a] == k);
            assert(keys[at] == gone);
        }
        if keys.contains(k) && k != gone {
            let i = choose|i: int| 0 <= i < keys.len() && keys[i] == k;
            assert(keys[at] == gone);
            let a = if i < at { i } else { i - 1 };
            assert(left[a] == k);
        }
    }
    assert forall|k: Seq<char>| #[trigger] left.contains(k) implies map_of(rest)[k] == map_of(
        entries,
    )[k] by {
        let i = choose|i: int| 0 <= i < left.len() && left[i] == k;
        let a = if i < at { i } else { i + 1 };
        lemma_map_at(rest, i);
        lemma_map_at(entries, a);
    }
    assert(map_of(rest) =~= map_of(entries).remove(gone));
}

impl<V> View for TextMap<V> {
    type V = Map<Seq<char>, V>;

    closed spec fn view(&self) -> Map<Seq<char>, V> {
        map_of(self.entries@)
    }
}

impl<V> TextMap<V> {
    #[verifier::type_invariant]
    spec fn has_distinct_keys(self) -> bool {
        keys_of(self.entries@).no_duplicates()
    }

    /// The empty map.
    pub fn new() -> (r: TextMap<V>)
        ensures
            r@ == Map::<Seq<char>, V>::empty(),
    {
        let r = TextMap { entries: Vec::new() };
        assert(map_of(r.entries@) =~= Map::<Seq<char>, V>::empty());
        r
    }

    /// The position of a key.
    fn position(&self, key: &str) -> (r: Option<usize>)
        ensures
            match r {
                Some(at) => at < self.entries@.len() && self.entries@[at as int].0@ == key@,
                None => !keys_of(self.entries@).contains(key@),
            },
    {
        let mut i: usize = 0;
        while i < self.entries.len()
            invariant
                i <= self.entries@.len(),
                forall|k: int| 0 <= k < i ==> #[trigger] keys_of(self.entries@)[k] != key@,
            decreases self.entries@.len() - i,
        {
            if text_eq(self.entries[i].0.as_str(), key) {
                return Some(i);
            }
            i = i + 1;
        }
        None
    }

    /// The value under a key.
    pub fn get(&self, key: &str) -> (r: Option<&V>)
        ensures
            match r {
                Some(v) => self@.contains_key(key@) && *v == self@[key@],
                None => !self@.contains_key(key@),
            },
    {
        proof {
            use_type_invariant(self);
        }
        match self.position(key) {
            Some(at) => {
                proof {
                    lemma_map_at(self.entries@, at as int);
                }
                Some(&self.entries[at].1)
            },
            None => None,
        }
    }

    /// Whether the map holds a key.
    pub fn contains(&self, key: &str) -> (r: bool)
        ensures
            r == self@.contains_key(key@),
    {
        self.get(key).is_some()
    }

    /// Takes the value under a key out of the map.
    pub fn remove(&mut self, key: &str) -> (r: Option<V>)
        ensures
            final(self)@ == old(self)@.remove(key@),
            match r {
                Some(v) => old(self)@.contains_key(key@) && v == old(self)@[key@],
                None => !old(self)@.contains_key(key@),
            },
    {
        proof {
            use_type_invariant(&*self);
        }
        match self.position(key) {
            Some(at) => {
                let ghost before = self.entries@;
                let mut entries: Vec<(String, V)> = Vec::new();
                std::mem::swap(&mut entries, &mut self.entries);
                proof {
                    lemma_map_at(before, at as int);
                    lemma_map_remove(before, at as int);
                }
                let (_, value) = entries.remove(at);
                self.entries = entries;
                Some(value)
            },
            None => {
                assert(self@ =~= old(self)@.remove(key@));
                None
            },
        }
    }

    /// Puts a value under a key, in place of the one that was there.
    pub fn insert(&mut self, key: String, value: V)
        ensures
            final(self)@ == old(self)@.insert(key@, value),
    {
        let ghost before = self@;
        let _ = self.remove(key.as_str());
        proof {
            use_type_invariant(&*self);
        }
        let ghost rest = self.entries@;
        let ghost entry = (key, value);
        let mut entries: Vec<(String, V)> = Vec::new();
        std::mem::swap(&mut entries, &mut self.entries);
        proof {
            assert(!map_of(rest).contains_key(key@));
            lemma_map_push(rest, entry);
            assert(map_of(rest).insert(key@, value) =~= before.insert(key@, value));
        }
        entries.push((key, value));
        self.entries = entries;
    }

    /// The keys of the map, each once.
    pub fn keys(&self) -> (r: Vec<String>)
        ensures
            text::texts(r@).no_duplicates(),
            text::texts(r@).to_set() == self@.dom(),
    {
        proof {
            use_type_invariant(self);
        }
        let mut out: Vec<String> = Vec::new();
        let mut i: usize = 0;
        while i < self.entries.len()
            invariant
                i <= self.entries@.len(),
                text::texts(out@) == keys_of(self.entries@).take(i as int),
            decreases self.entries@.len() - i,
        {
            let ghost before = text::texts(out@);
            out.push(self.entries[i].0.clone());
            assert(text::texts(out@) =~= before.push(self.entries@[i as int].0@));
            i = i + 1;
        }
        assert(text::texts(out@) =~= keys_of(self.entries@));
        assert(text::texts(out@).to_set() =~= self@.dom());
        out
    }
}

} // verus!
