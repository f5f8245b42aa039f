//! The watcher registry: the ordered collection of watcher records, keyed
//! by identifier, with the mutation helpers the terminal surface and the
//! watch engine use. Mutations touch only the in-memory structure;
//! persisting is a separate, explicit step.

use crate::text::str_eq;
use crate::watcher::{Watcher, WatcherView};
use vstd::prelude::*;

verus! {

/// Why a stored registry could not be loaded.
#[derive(Debug)]
pub enum ConfigError {
    /// The stored text is not a registry document in the canonical form.
    Parse,
    /// The document read back, but the records break the registry
    /// invariant: a duplicated identifier or a cadence of zero.
    Invalid,
}

impl ConfigError {
    /// A short account of the failure, for reporting.
    pub fn message(&self) -> (r: String)
        ensures
            *self is Parse ==> r@ == "Failed to parse config file"@,
            *self is Invalid ==> r@ == "Config file holds an invalid registry"@,
    {
        match self {
            ConfigError::Parse => chars_to_string("Failed to parse config file"),
            ConfigError::Invalid => chars_to_string("Config file holds an invalid registry"),
        }
    }
}

/// Copies a string slice into an owned string.
fn chars_to_string(s: &str) -> (r: String)
    ensures
        r@ == s@,
{
    let cs = crate::text::chars_of(s);
    crate::text::string_from_chars(cs.as_slice())
}

/// The registry of watcher records, in insertion order.
#[derive(Debug)]
pub struct Config {
    pub watchers: Vec<Watcher>,
}

impl View for Config {
    type V = Seq<WatcherView>;

    open spec fn view(&self) -> Seq<WatcherView> {
        self.watchers.deep_view()
    }
}

/// A single record is well formed when its cadence is positive.
pub open spec fn wf_watcher(w: WatcherView) -> bool {
    w.check_interval > 0
}

/// The registry invariant: identifiers are unique and every record is well
/// formed.
pub open spec fn registry_wf(ws: Seq<WatcherView>) -> bool {
    &&& forall|i: int, j: int| 0 <= i < j < ws.len() ==> ws[i].id != ws[j].id
    &&& forall|i: int| 0 <= i < ws.len() ==> wf_watcher(#[trigger] ws[i])
}

/// Whether some record in `ws` carries the identifier `id`.
pub open spec fn has_id(ws: Seq<WatcherView>, id: Seq<char>) -> bool {
    exists|i: int| 0 <= i < ws.len() && ws[i].id == id
}

/// The position of the first record carrying `id`, or `-1` when none does.
pub open spec fn id_index(ws: Seq<WatcherView>, id: Seq<char>) -> int
    decreases ws.len(),
{
    if ws.len() == 0 {
        -1
    } else if ws[0].id == id {
        0
    } else {
        let r = id_index(ws.subrange(1, ws.len() as int), id);
        if r < 0 {
            -1
        } else {
            r + 1
        }
    }
}

pub proof fn lemma_id_index_bounds(ws: Seq<WatcherView>, id: Seq<char>)
    ensures
        -1 <= id_index(ws, id) < ws.len(),
        id_index(ws, id) >= 0 ==> ws[id_index(ws, id)].id == id,
    decreases ws.len(),
{
    if ws.len() > 0 && ws[0].id != id {
        lemma_id_index_bounds(ws.subrange(1, ws.len() as int), id);
    }
}

pub proof fn lemma_id_index_found(ws: Seq<WatcherView>, id: Seq<char>, i: int)
    requires
        0 <= i < ws.len(),
        ws[i].id == id,
        forall|j: int| 0 <= j < i ==> ws[j].id != id,
    ensures
        id_index(ws, id) == i,
    decreases ws.len(),
{
    if i > 0 {
        let rest = ws.subrange(1, ws.len() as int);
        lemma_id_index_found(rest, id, i - 1);
    }
}

pub proof fn lemma_id_index_missing(ws: Seq<WatcherView>, id: Seq<char>)
    requires
        forall|j: int| 0 <= j < ws.len() ==> ws[j].id != id,
    ensures
        id_index(ws, id) == -1,
    decreases ws.len(),
{
    if ws.len() > 0 {
        lemma_id_index_missing(ws.subrange(1, ws.len() as int), id);
    }
}

/// The enabled records of `ws`, in order.
pub open spec fn enabled_subset(ws: Seq<WatcherView>) -> Seq<WatcherView>
    decreases ws.len(),
{
    if ws.len() == 0 {
        Seq::empty()
    } else {
        let rest = enabled_subset(ws.subrange(1, ws.len() as int));
        if ws[0].enabled {
            seq![ws[0]] + rest
        } else {
            rest
        }
    }
}

impl Config {
    /// An empty registry.
    pub fn new() -> (r: Config)
        ensures
            r@ == Seq::<WatcherView>::empty(),
            registry_wf(r@),
    {
        let r = Config { watchers: Vec::new() };
        proof {
            assert(r@ =~= Seq::<WatcherView>::empty());
        }
        r
    }

    /// Appends a record, unless its identifier is already taken. Keeps the
    /// registry invariant.
    pub fn add_watcher(&mut self, w: Watcher) -> (r: bool)
        ensures
            r == !has_id(old(self)@, w@.id),
            r ==> final(self)@ == old(self)@.push(w@),
            !r ==> final(self)@ == old(self)@,
            registry_wf(old(self)@) && wf_watcher(w@) ==> registry_wf(final(self)@),
    {
        let n = self.watchers.len();
        let mut i: usize = 0;
        while i < n
            invariant
                n == self.watchers@.len(),
                0 <= i <= n,
                self@.len() == n,
                forall|j: int| 0 <= j < i ==> self@[j].id != w@.id,
            decreases n - i,
        {
            if str_eq(self.watchers[i].id.as_str(), w.id.as_str()) {
                proof {
                    assert(self@[i as int].id == w@.id);
                }
                return false;
            }
            i = i + 1;
        }
        proof {
            assert(!has_id(self@, w@.id));
        }
        self.watchers.push(w);
        proof {
            assert(self@ =~= old(self)@.push(w@));
        }
        true
    }

    /// Removes the record at `i`.
    pub fn remove_watcher(&mut self, i: usize)
        requires
            i < old(self)@.len(),
        ensures
            final(self)@ == old(self)@.remove(i as int),
            registry_wf(old(self)@) ==> registry_wf(final(self)@),
    {
        self.watchers.remove(i);
        proof {
            assert(self@ =~= old(self)@.remove(i as int));
            if registry_wf(old(self)@) {
                assert forall|a: int, b: int|
                    0 <= a < b < self@.len() implies self@[a].id != self@[b].id by {
                    let oa = if a < i {
                        a
                    } else {
                        a + 1
                    };
                    let ob = if b < i {
                        b
                    } else {
                        b + 1
                    };
                    assert(self@[a] == old(self)@[oa]);
                    assert(self@[b] == old(self)@[ob]);
                }
            }
        }
    }

    /// Flips whether the record at `i` is scheduled.
    pub fn toggle_watcher(&mut self, i: usize)
        requires
            i < old(self)@.len(),
        ensures
            final(self)@ == old(self)@.update(
                i as int,
                WatcherView { enabled: !old(self)@[i as int].enabled, ..old(self)@[i as int] },
            ),
            registry_wf(old(self)@) ==> registry_wf(final(self)@),
    {
        let mut w = self.watchers[i].clone();
        w.enabled = !w.enabled;
        self.watchers.set(i, w);
        proof {
            assert(self@ =~= old(self)@.update(
                i as int,
                WatcherView { enabled: !old(self)@[i as int].enabled, ..old(self)@[i as int] },
            ));
        }
    }

    /// Replaces the target, keywords and cadence of the record at `i`.
    pub fn edit_watcher(
        &mut self,
        i: usize,
        url: String,
        keywords: Vec<String>,
        check_interval: u64,
    )
        requires
            i < old(self)@.len(),
            check_interval > 0,
        ensures
            final(self)@ == old(self)@.update(
                i as int,
                WatcherView {
                    url: url@,
                    keywords: keywords.deep_view(),
                    check_interval: check_interval,
                    ..old(self)@[i as int]
                },
            ),
            registry_wf(old(self)@) ==> registry_wf(final(self)@),
    {
        let mut w = self.watchers[i].clone();
        w.url = url;
        w.keywords = keywords;
        w.check_interval = check_interval;
        self.watchers.set(i, w);
        proof {
            assert(self@ =~= old(self)@.update(
                i as int,
                WatcherView {
                    url: url@,
                    keywords: keywords.deep_view(),
                    check_interval: check_interval,
                    ..old(self)@[i as int]
                },
            ));
        }
    }

    /// Records a completed check: sets the timestamp of the first record
    /// carrying `id`, and leaves every other record alone. A registry
    /// without that identifier is left unchanged.
    pub fn update_last_checked(&mut self, id: &str, stamp: String)
        ensures
            id_index(old(self)@, id@) < 0 ==> final(self)@ == old(self)@,
            id_index(old(self)@, id@) >= 0 ==> final(self)@ == old(self)@.update(
                id_index(old(self)@, id@),
                WatcherView {
                    last_checked: Some(stamp@),
                    ..old(self)@[id_index(old(self)@, id@)]
                },
            ),
            registry_wf(old(self)@) ==> registry_wf(final(self)@),
    {
        let n = self.watchers.len();
        let mut i: usize = 0;
        while i < n
            invariant
                n == self@.len(),
                0 <= i <= n,
                self@ == old(self)@,
                forall|j: int| 0 <= j < i ==> self@[j].id != id@,
            decreases n - i,
        {
            if str_eq(self.watchers[i].id.as_str(), id) {
                proof {
                    lemma_id_index_found(old(self)@, id@, i as int);
                }
                let mut w = self.watchers[i].clone();
                w.last_checked = Some(stamp);
                self.watchers.set(i, w);
                proof {
                    assert(self@ =~= old(self)@.update(
                        i as int,
                        WatcherView {
                            last_checked: Some(stamp@),
                            ..old(self)@[i as int]
                        },
                    ));
                }
                return ;
            }
            i = i + 1;
        }
        proof {
            lemma_id_index_missing(old(self)@, id@);
        }
    }

    /// Whether the registry invariant holds: identifiers unique, every
    /// cadence positive.
    pub fn check_wf(&self) -> (r: bool)
        ensures
            r == registry_wf(self@),
    {
        let n = self.watchers.len();
        let mut i: usize = 0;
        while i < n
            invariant
                n == self@.len(),
                self@.len() == self.watchers@.len(),
                0 <= i <= n,
                forall|a: int, b: int| 0 <= a < b < i ==> self@[a].id != self@[b].id,
                forall|a: int| 0 <= a < i ==> wf_watcher(#[trigger] self@[a]),
            decreases n - i,
        {
            if self.watchers[i].check_interval == 0 {
                proof {
                    assert(!wf_watcher(self@[i as int]));
                }
                return false;
            }
            let mut j: usize = 0;
            while j < i
                invariant
                    n == self@.len(),
                    self@.len() == self.watchers@.len(),
                    0 <= j <= i < n,
                    forall|b: int| 0 <= b < j ==> self@[b].id != self@[i as int].id,
                decreases i - j,
            {
                if str_eq(self.watchers[j].id.as_str(), self.watchers[i].id.as_str()) {
                    proof {
                        assert(self@[j as int].id == self@[i as int].id);
                    }
                    return false;
                }
                j = j + 1;
            }
            i = i + 1;
        }
        true
    }

    /// The enabled records, in registry order.
    pub fn enabled_watchers(&self) -> (r: Vec<Watcher>)
        ensures
            r.deep_view() == enabled_subset(self@),
    {
        let mut out: Vec<Watcher> = Vec::new();
        let mut i: usize = 0;
        proof {
            assert(self@.subrange(0, self@.len() as int) =~= self@);
        }
        while i < self.watchers.len()
            invariant
                0 <= i <= self@.len(),
                self@.len() == self.watchers@.len(),
                out.deep_view() + enabled_subset(self@.subrange(i as int, self@.len() as int))
                    == enabled_subset(self@),
            decreases self@.len() - i,
        {
            let ghost suffix = self@.subrange(i as int, self@.len() as int);
            proof {
                assert(suffix[0] == self@[i as int]);
                assert(suffix.subrange(1, suffix.len() as int) =~= self@.subrange(
                    i + 1 as int,
                    self@.len() as int,
                ));
            }
            if self.watchers[i].enabled {
                let w = self.watchers[i].clone();
                let ghost old_deep = out.deep_view();
                out.push(w);
                proof {
                    assert(out.deep_view() =~= old_deep.push(w@));
                    assert(old_deep.push(w@) + enabled_subset(
                        self@.subrange(i + 1 as int, self@.len() as int),
                    ) =~= old_deep + (seq![self@[i as int]] + enabled_subset(
                        self@.subrange(i + 1 as int, self@.len() as int),
                    )));
                }
            }
            i = i + 1;
        }
        proof {
            assert(self@.subrange(self@.len() as int, self@.len() as int) =~= Seq::<
                WatcherView,
            >::empty());
            assert(out.deep_view() + Seq::<WatcherView>::empty() =~= out.deep_view());
        }
        out
    }
}

} // verus!
