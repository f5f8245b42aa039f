//! The watch engine's decision core: what one check cycle does with fetched
//! content, and what starting the engine does with a registry. The
//! surrounding shell performs the fetch, the wait and the delivery; every
//! decision between them is made here.

use crate::cache::CacheStore;
use crate::config::{enabled_subset, id_index, registry_wf, Config};
use crate::diff::spec_has_changed;
use crate::matcher::{find_keywords, spec_find_keywords, KeywordMatch};
use crate::text::str_eq;
use crate::watcher::{Watcher, WatcherView};
use vstd::prelude::*;

verus! {

/// Whether a cycle treats content as changed: a missing prior snapshot
/// always counts as changed; otherwise the change detector decides.
pub open spec fn spec_changed(prior: Option<Seq<char>>, current: Seq<char>) -> bool {
    match prior {
        None => true,
        Some(p) => spec_has_changed(p, current),
    }
}

/// The matched keywords with duplicates dropped, first occurrence first.
pub open spec fn dedup_keys(ms: Seq<(Seq<char>, Seq<char>)>) -> Seq<Seq<char>>
    decreases ms.len(),
{
    if ms.len() == 0 {
        Seq::empty()
    } else {
        let d = dedup_keys(ms.drop_last());
        if d.contains(ms.last().0) {
            d
        } else {
            d.push(ms.last().0)
        }
    }
}

/// The de-duplicated keyword list holds no keyword twice, and holds
/// exactly the keywords that some match carries.
pub proof fn lemma_dedup_keys_exact(ms: Seq<(Seq<char>, Seq<char>)>)
    ensures
        forall|a: int, b: int|
            0 <= a < b < dedup_keys(ms).len() ==> dedup_keys(ms)[a] != dedup_keys(ms)[b],
        forall|k: Seq<char>|
            #[trigger] dedup_keys(ms).contains(k) <==> exists|j: int|
                0 <= j < ms.len() && #[trigger] ms[j].0 == k,
    decreases ms.len(),
{
    if ms.len() > 0 {
        lemma_dedup_keys_exact(ms.drop_last());
        let d = dedup_keys(ms.drop_last());
        let x = ms.last().0;
        assert forall|k: Seq<char>| #[trigger] dedup_keys(ms).contains(k) implies exists|j: int|
            0 <= j < ms.len() && #[trigger] ms[j].0 == k by {
            if d.contains(k) {
                let j = choose|j: int| 0 <= j < ms.drop_last().len() && #[trigger] ms.drop_last()[j].0 == k;
                assert(ms[j].0 == k);
            } else {
                assert(k == x);
                assert(ms[ms.len() - 1].0 == k);
            }
        }
        assert forall|k: Seq<char>|
            (exists|j: int| 0 <= j < ms.len() && #[trigger] ms[j].0 == k) implies #[trigger] dedup_keys(
            ms,
        ).contains(k) by {
            let j = choose|j: int| 0 <= j < ms.len() && #[trigger] ms[j].0 == k;
            if j < ms.len() - 1 {
                assert(ms.drop_last()[j].0 == k);
                assert(d.contains(k));
                if !d.contains(x) {
                    let a = choose|a: int| 0 <= a < d.len() && d[a] == k;
                    assert(d.push(x)[a] == k);
                }
            } else {
                assert(k == x);
                if d.contains(x) {
                } else {
                    assert(d.push(x)[d.len() as int] == x);
                }
            }
        }
    }
}

/// Whether some string in `v` has the characters of `s`.
fn contains_str(v: &Vec<String>, s: &str) -> (r: bool)
    ensures
        r == v.deep_view().contains(s@),
{
    let mut i: usize = 0;
    while i < v.len()
        invariant
            0 <= i <= v@.len(),
            v.deep_view().len() == v@.len(),
            forall|j: int| 0 <= j < i ==> v.deep_view()[j] != s@,
        decreases v@.len() - i,
    {
        if str_eq(v[i].as_str(), s) {
            proof {
                assert(v.deep_view()[i as int] == s@);
            }
            return true;
        }
        i = i + 1;
    }
    proof {
        assert(!v.deep_view().contains(s@));
    }
    false
}

/// The de-duplicated keywords of a match list, in first-occurrence order.
pub fn dedup_matched_keywords(matches: &Vec<KeywordMatch>) -> (r: Vec<String>)
    ensures
        r.deep_view() == dedup_keys(matches@.map_values(|m: KeywordMatch| m.view())),
{
    let ghost ms = matches@.map_values(|m: KeywordMatch| m.view());
    let mut out: Vec<String> = Vec::new();
    let mut i: usize = 0;
    proof {
        assert(ms.subrange(0, 0) =~= Seq::<(Seq<char>, Seq<char>)>::empty());
    }
    while i < matches.len()
        invariant
            ms == matches@.map_values(|m: KeywordMatch| m.view()),
            ms.len() == matches@.len(),
            0 <= i <= matches@.len(),
            out.deep_view() == dedup_keys(ms.subrange(0, i as int)),
        decreases matches@.len() - i,
    {
        let ghost prefix = ms.subrange(0, i as int);
        let ghost next = ms.subrange(0, i + 1 as int);
        proof {
            assert(next.drop_last() =~= prefix);
            assert(next.last() == ms[i as int]);
        }
        if !contains_str(&out, matches[i].keyword.as_str()) {
            let ghost old_deep = out.deep_view();
            out.push(matches[i].keyword.clone());
            proof {
                assert(out.deep_view() =~= old_deep.push(ms[i as int].0));
            }
        }
        i = i + 1;
    }
    proof {
        assert(ms.subrange(0, ms.len() as int) =~= ms);
    }
    out
}

/// What one check cycle decided for a watcher.
pub struct CycleOutcome {
    /// Whether the content counts as changed against the prior snapshot.
    pub changed: bool,
    /// Every keyword occurrence found in the current content; empty when
    /// nothing changed.
    pub matches: Vec<KeywordMatch>,
    /// The matched keywords, de-duplicated, first occurrence first.
    pub matched_keywords: Vec<String>,
    /// Whether a notification is owed: something changed and matched.
    pub notify: bool,
    /// Whether the cache snapshot must be overwritten with the current
    /// content: exactly when the content counts as changed.
    pub write_cache: bool,
}

/// Decides one check cycle from plain values: the prior snapshot (absent for
/// a never-checked watcher), the freshly fetched content, and the watcher's
/// keywords. A missing prior snapshot always proceeds to scanning; an
/// unchanged content ends the cycle with nothing to do; a changed content is
/// scanned, notifies exactly when a keyword matched, and always advances the
/// snapshot.
pub fn check_cycle(prior: Option<&String>, current: &str, keywords: &[String]) -> (r:
    CycleOutcome)
    ensures
        r.changed == spec_changed(
            match prior {
                Some(p) => Some(p@),
                None => None,
            },
            current@,
        ),
        r.changed ==> r.matches@.map_values(|m: KeywordMatch| m.view()) == spec_find_keywords(
            current@,
            keywords@.map_values(|s: String| s@),
        ),
        !r.changed ==> r.matches@.len() == 0,
        r.write_cache == r.changed,
        r.notify == (r.changed && r.matches@.len() > 0),
        r.matched_keywords.deep_view() == dedup_keys(
            r.matches@.map_values(|m: KeywordMatch| m.view()),
        ),
{
    let changed = match prior {
        Some(p) => crate::diff::has_changed(p.as_str(), current),
        None => true,
    };
    if !changed {
        let matches: Vec<KeywordMatch> = Vec::new();
        let matched_keywords = dedup_matched_keywords(&matches);
        return CycleOutcome { changed, matches, matched_keywords, notify: false, write_cache: false };
    }
    let matches = find_keywords(current, keywords);
    let matched_keywords = dedup_matched_keywords(&matches);
    let notify = matches.len() > 0;
    CycleOutcome { changed, matches, matched_keywords, notify, write_cache: true }
}

/// Runs one check cycle against a cache store: reads the prior snapshot
/// under the watcher's cache key, decides the cycle, and advances the
/// snapshot exactly when the content counts as changed.
pub fn run_cycle(store: &mut CacheStore, cache_key: &str, current: &str, keywords: &[String]) -> (r:
    CycleOutcome)
    ensures
        r.changed == spec_changed(
            if old(store)@.contains_key(cache_key@) {
                Some(old(store)@[cache_key@])
            } else {
                None
            },
            current@,
        ),
        r.changed ==> r.matches@.map_values(|m: KeywordMatch| m.view()) == spec_find_keywords(
            current@,
            keywords@.map_values(|s: String| s@),
        ),
        !r.changed ==> r.matches@.len() == 0,
        r.write_cache == r.changed,
        r.notify == (r.changed && r.matches@.len() > 0),
        r.matched_keywords.deep_view() == dedup_keys(
            r.matches@.map_values(|m: KeywordMatch| m.view()),
        ),
        r.write_cache ==> final(store)@ == old(store)@.insert(cache_key@, current@),
        !r.write_cache ==> final(store)@ == old(store)@,
{
    let prior = store.read(cache_key);
    let outcome = check_cycle(prior.as_ref(), current, keywords);
    if outcome.write_cache {
        store.write(cache_key, current);
    }
    outcome
}

/// A watcher that was never checked always proceeds to keyword scanning on
/// its first cycle: a missing prior snapshot counts as changed, whatever the
/// fetched content holds.
pub proof fn lemma_first_cycle_always_scans(current: Seq<char>)
    ensures
        spec_changed(None, current),
{
}

/// What starting the engine does with a registry, decided at call time.
pub enum StartPlan {
    /// The registry holds no watchers at all: return at once, not an error.
    NoWatchers,
    /// Watchers exist but none is enabled: return at once, not an error.
    NoneEnabled,
    /// Run one independent task per listed watcher, in registry order.
    Run(Vec<Watcher>),
}

/// Collects the enabled subset of the registry as of this call: watchers
/// added later are not observed. An empty or fully disabled registry yields
/// a descriptive no-op plan.
pub fn plan_start(config: &Config) -> (r: StartPlan)
    ensures
        config@.len() == 0 ==> r is NoWatchers,
        config@.len() > 0 && enabled_subset(config@).len() == 0 ==> r is NoneEnabled,
        enabled_subset(config@).len() > 0 ==> (r matches StartPlan::Run(ws) && ws.deep_view()
            == enabled_subset(config@)),
{
    if config.watchers.len() == 0 {
        proof {
            assert(enabled_subset(config@).len() == 0);
        }
        return StartPlan::NoWatchers;
    }
    let enabled = config.enabled_watchers();
    if enabled.len() == 0 {
        return StartPlan::NoneEnabled;
    }
    StartPlan::Run(enabled)
}

/// Relies on `chrono::Utc::now` and `to_rfc3339`: the current moment
/// rendered as an RFC 3339 timestamp. The value depends on the clock, so
/// nothing is promised about it.
#[verifier::external_body]
fn now_timestamp() -> (r: String) {
    chrono::Utc::now().to_rfc3339()
}

/// Records a completed check for the watcher carrying `id`: stamps its
/// `last_checked` with the present moment and touches nothing else. What
/// the stamp holds depends on the clock; that some stamp was set does not.
pub fn record_check(config: &mut Config, id: &str)
    ensures
        id_index(old(config)@, id@) < 0 ==> final(config)@ == old(config)@,
        id_index(old(config)@, id@) >= 0 ==> {
            let i = id_index(old(config)@, id@);
            &&& final(config)@.len() == old(config)@.len()
            &&& final(config)@[i].last_checked is Some
            &&& final(config)@[i] == WatcherView {
                last_checked: final(config)@[i].last_checked,
                ..old(config)@[i]
            }
            &&& forall|k: int|
                0 <= k < old(config)@.len() && k != i ==> final(config)@[k] == old(config)@[k]
        },
        registry_wf(old(config)@) ==> registry_wf(final(config)@),
{
    proof {
        crate::config::lemma_id_index_bounds(config@, id@);
    }
    let stamp = now_timestamp();
    config.update_last_checked(id, stamp);
}

} // verus!
