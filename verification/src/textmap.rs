//! A map keyed by text: the latest value stored under a key is the one found.
use vstd::prelude::*;

verus! {

/// The value most recently stored under `key` in a list of insertions.
pub open spec fn latest<V>(entries: Seq<(Seq<char>, V)>, key: Seq<char>) -> Option<V>
    decreases entries.len(),
{
    if entries.len() == 0 {
        None
    } else if entries.last().0 == key {
        Some(entries.last().1)
    } else {
        latest(entries.drop_last(), key)
    }
}

/// The insertions of a text-to-text map, values taken as text.
pub open spec fn text_entries(entries: Seq<(Seq<char>, String)>) -> Seq<(Seq<char>, Seq<char>)> {
    entries.map_values(|e: (Seq<char>, String)| (e.0, e.1@))
}

/// Looking up text values agrees with looking up their owned strings.
pub proof fn lemma_latest_text(entries: Seq<(Seq<char>, String)>, key: Seq<char>)
    ensures
        latest(text_entries(entries), key) == match latest(entries, key) {
            Some(v) => Some(v@),
            None => None::<Seq<char>>,
        },
    decreases entries.len(),
{
    if entries.len() > 0 {
        assert(text_entries(entries).drop_last() =~= text_entries(entries.drop_last()));
        lemma_latest_text(entries.drop_last(), key);
    }
}

/// Text keys mapped to values; inserting under a present key replaces its value.
pub struct TextMap<V> {
    entries: Vec<(String, V)>,
}

impl<V> View for TextMap<V> {
    type V = Seq<(Seq<char>, V)>;

    /// The insertions made so far, keys taken as text.
    closed spec fn view(&self) -> Seq<(Seq<char>, V)> {
        self.entries@.map_values(|e: (String, V)| (e.0@, e.1))
    }
}

impl<V> TextMap<V> {
    /// The value currently stored under `key`.
    pub open spec fn lookup(&self, key: Seq<char>) -> Option<V> {
        latest(self@, key)
    }

    /// An empty map.
    pub fn new() -> (r: Self)
        ensures
            r@ == Seq::<(Seq<char>, V)>::empty(),
            forall|k: Seq<char>| #[trigger] r.lookup(k) is None,
    {
        let r = TextMap { entries: Vec::new() };
        assert(r@ =~= Seq::<(Seq<char>, V)>::empty());
        r
    }

    /// Stores `value` under `key`, replacing what was stored there.
    pub fn insert(&mut self, key: String, value: V)
        ensures
            final(self)@ == old(self)@.push((key@, value)),
            final(self).lookup(key@) == Some(value),
            forall|k: Seq<char>| k != key@ ==> #[trigger] final(self).lookup(k) == old(self).lookup(k),
    {
        let ghost k0 = key@;
        self.entries.push((key, value));
        assert(self@ =~= old(self)@.push((k0, value)));
        assert(self@.drop_last() =~= old(self)@);
    }

    /// The value stored under `key`, if any.
    pub fn get(&self, key: &str) -> (r: Option<&V>)
        ensures
            match r {
                Some(v) => self.lookup(key@) == Some(*v),
                None => self.lookup(key@) is None,
            },
    {
        let mut i = self.entries.len();
        assert(self@.take(i as int) =~= self@);
        while i > 0
            invariant
                i <= self.entries@.len(),
                self@.len() == self.entries@.len(),
                latest(self@, key@) == latest(self@.take(i as int), key@),
            decreases i,
        {
            let ghost prefix = self@.take(i as int);
            assert(prefix.drop_last() =~= self@.take(i - 1));
            assert(prefix.last() == self@[i - 1]);
            if crate::text::str_eq(self.entries[i - 1].0.as_str(), key) {
                return Some(&self.entries[i - 1].1);
            }
            i = i - 1;
        }
        assert(self@.take(0) =~= Seq::<(Seq<char>, V)>::empty());
        None
    }
}

/// A value found under a key was stored under that key.
pub proof fn lemma_latest_found<V>(entries: Seq<(Seq<char>, V)>, key: Seq<char>)
    ensures
        latest(entries, key) matches Some(v) ==> exists|j: int| 0 <= j < entries.len() && #[trigger] entries[j] == (key, v),
    decreases entries.len(),
{
    if entries.len() > 0 {
        let rest = entries.drop_last();
        lemma_latest_found(rest, key);
        if entries.last().0 == key {
            assert(entries[entries.len() - 1] == (key, entries.last().1));
        } else if latest(rest, key) is Some {
            let v = latest(rest, key).unwrap();
            let j = choose|j: int| 0 <= j < rest.len() && #[trigger] rest[j] == (key, v);
            assert(entries[j] == rest[j]);
        }
    }
}

} // verus!
