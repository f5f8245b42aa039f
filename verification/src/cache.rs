//! The cache store model: the last successfully processed content per
//! watcher, addressed by cache key. Reading a key that was never written is
//! a normal state, not an error. The file-backed store outside the library
//! mirrors this model one key per file.

use crate::text::str_eq;
use vstd::prelude::*;
use vstd::string::StringExecFns;

verus! {

/// An in-memory cache store: association list from cache key to content,
/// earliest entry winning, so that it denotes a map.
pub struct CacheStore {
    pub entries: Vec<(String, String)>,
}

/// The map an entry list denotes: the first entry for a key provides its
/// content.
pub open spec fn entries_map(es: Seq<(Seq<char>, Seq<char>)>) -> Map<Seq<char>, Seq<char>>
    decreases es.len(),
{
    if es.len() == 0 {
        Map::empty()
    } else {
        entries_map(es.subrange(1, es.len() as int)).insert(es[0].0, es[0].1)
    }
}

impl View for CacheStore {
    type V = Map<Seq<char>, Seq<char>>;

    open spec fn view(&self) -> Map<Seq<char>, Seq<char>> {
        entries_map(self.entries.deep_view())
    }
}

proof fn lemma_entries_map_found(es: Seq<(Seq<char>, Seq<char>)>, key: Seq<char>, i: int)
    requires
        0 <= i < es.len(),
        es[i].0 == key,
        forall|j: int| 0 <= j < i ==> es[j].0 != key,
    ensures
        entries_map(es).contains_key(key),
        entries_map(es)[key] == es[i].1,
    decreases es.len(),
{
    if i > 0 {
        let rest = es.subrange(1, es.len() as int);
        lemma_entries_map_found(rest, key, i - 1);
    }
}

proof fn lemma_entries_map_missing(es: Seq<(Seq<char>, Seq<char>)>, key: Seq<char>)
    requires
        forall|j: int| 0 <= j < es.len() ==> es[j].0 != key,
    ensures
        !entries_map(es).contains_key(key),
    decreases es.len(),
{
    if es.len() > 0 {
        lemma_entries_map_missing(es.subrange(1, es.len() as int), key);
    }
}

proof fn lemma_entries_map_replace(
    es: Seq<(Seq<char>, Seq<char>)>,
    key: Seq<char>,
    content: Seq<char>,
    i: int,
)
    requires
        0 <= i < es.len(),
        es[i].0 == key,
        forall|j: int| 0 <= j < i ==> es[j].0 != key,
    ensures
        entries_map(es.update(i, (key, content))) == entries_map(es).insert(key, content),
    decreases es.len(),
{
    let updated = es.update(i, (key, content));
    if i == 0 {
        assert(updated.subrange(1, updated.len() as int) =~= es.subrange(1, es.len() as int));
        assert(entries_map(updated) =~= entries_map(es).insert(key, content));
    } else {
        let rest = es.subrange(1, es.len() as int);
        lemma_entries_map_replace(rest, key, content, i - 1);
        assert(updated.subrange(1, updated.len() as int) =~= rest.update(i - 1, (key, content)));
        assert(updated[0] == es[0]);
        assert(entries_map(updated) =~= entries_map(es).insert(key, content));
    }
}

proof fn lemma_entries_map_push_fresh(
    es: Seq<(Seq<char>, Seq<char>)>,
    key: Seq<char>,
    content: Seq<char>,
)
    requires
        forall|j: int| 0 <= j < es.len() ==> es[j].0 != key,
    ensures
        entries_map(es.push((key, content))) == entries_map(es).insert(key, content),
    decreases es.len(),
{
    let pushed = es.push((key, content));
    if es.len() == 0 {
        assert(pushed.subrange(1, 1) =~= Seq::<(Seq<char>, Seq<char>)>::empty());
        assert(entries_map(Seq::<(Seq<char>, Seq<char>)>::empty()) == Map::<
            Seq<char>,
            Seq<char>,
        >::empty());
        assert(entries_map(pushed) =~= entries_map(es).insert(key, content));
    } else {
        let rest = es.subrange(1, es.len() as int);
        lemma_entries_map_push_fresh(rest, key, content);
        assert(pushed.subrange(1, pushed.len() as int) =~= rest.push((key, content)));
        assert(pushed[0] == es[0]);
        assert(entries_map(pushed) =~= entries_map(es).insert(key, content));
    }
}

impl CacheStore {
    /// A store with nothing cached.
    pub fn new() -> (r: CacheStore)
        ensures
            r@ == Map::<Seq<char>, Seq<char>>::empty(),
    {
        let r = CacheStore { entries: Vec::new() };
        proof {
            assert(r.entries.deep_view() =~= Seq::<(Seq<char>, Seq<char>)>::empty());
        }
        r
    }

    /// The cached content for `key`; `None` when the key was never written.
    pub fn read(&self, key: &str) -> (r: Option<String>)
        ensures
            match r {
                Some(content) => self@.contains_key(key@) && content@ == self@[key@],
                None => !self@.contains_key(key@),
            },
    {
        let mut i: usize = 0;
        while i < self.entries.len()
            invariant
                0 <= i <= self.entries@.len(),
                self.entries.deep_view().len() == self.entries@.len(),
                forall|j: int| 0 <= j < i ==> self.entries.deep_view()[j].0 != key@,
            decreases self.entries@.len() - i,
        {
            if str_eq(self.entries[i].0.as_str(), key) {
                proof {
                    lemma_entries_map_found(self.entries.deep_view(), key@, i as int);
                }
                return Some(self.entries[i].1.clone());
            }
            i = i + 1;
        }
        proof {
            lemma_entries_map_missing(self.entries.deep_view(), key@);
        }
        None
    }

    /// Overwrites the content for `key` with a full snapshot, creating the
    /// entry when absent.
    pub fn write(&mut self, key: &str, content: &str)
        ensures
            final(self)@ == old(self)@.insert(key@, content@),
    {
        let mut i: usize = 0;
        while i < self.entries.len()
            invariant
                self.entries == old(self).entries,
                0 <= i <= self.entries@.len(),
                self.entries.deep_view().len() == self.entries@.len(),
                forall|j: int| 0 <= j < i ==> self.entries.deep_view()[j].0 != key@,
            decreases self.entries@.len() - i,
        {
            if str_eq(self.entries[i].0.as_str(), key) {
                proof {
                    lemma_entries_map_replace(
                        self.entries.deep_view(),
                        key@,
                        content@,
                        i as int,
                    );
                }
                let pair = (String::from_str(key), String::from_str(content));
                self.entries.set(i, pair);
                proof {
                    assert(self.entries.deep_view() =~= old(self).entries.deep_view().update(
                        i as int,
                        (key@, content@),
                    ));
                }
                return ;
            }
            i = i + 1;
        }
        proof {
            lemma_entries_map_push_fresh(self.entries.deep_view(), key@, content@);
        }
        let pair = (String::from_str(key), String::from_str(content));
        self.entries.push(pair);
        proof {
            assert(self.entries.deep_view() =~= old(self).entries.deep_view().push(
                (key@, content@),
            ));
        }
    }
}

/// Writing a key and reading it back returns exactly the written content.
pub proof fn lemma_write_then_read(
    store: Map<Seq<char>, Seq<char>>,
    key: Seq<char>,
    content: Seq<char>,
)
    ensures
        store.insert(key, content).contains_key(key),
        store.insert(key, content)[key] == content,
{
}

} // verus!
