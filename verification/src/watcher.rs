//! The watcher record: one monitored resource with its keywords, cadence
//! and cache address.

use vstd::prelude::*;
use vstd::string::StringExecFns;

verus! {

/// One monitored resource.
///
/// `check_interval` is the cadence in whole seconds and must stay positive;
/// `last_checked` holds the timestamp text of the last successful check, or
/// `None` for a watcher that has never completed one; `cache_path` is the
/// file name (not a full path) under which the content snapshot is cached,
/// derived from `id` once at creation.
#[derive(Debug)]
pub struct Watcher {
    pub id: String,
    pub url: String,
    pub keywords: Vec<String>,
    pub check_interval: u64,
    pub enabled: bool,
    pub last_checked: Option<String>,
    pub cache_path: String,
}

/// The mathematical value of a watcher record.
pub struct WatcherView {
    pub id: Seq<char>,
    pub url: Seq<char>,
    pub keywords: Seq<Seq<char>>,
    pub check_interval: u64,
    pub enabled: bool,
    pub last_checked: Option<Seq<char>>,
    pub cache_path: Seq<char>,
}

impl View for Watcher {
    type V = WatcherView;

    open spec fn view(&self) -> WatcherView {
        WatcherView {
            id: self.id@,
            url: self.url@,
            keywords: self.keywords.deep_view(),
            check_interval: self.check_interval,
            enabled: self.enabled,
            last_checked: match self.last_checked {
                Some(t) => Some(t@),
                None => None,
            },
            cache_path: self.cache_path@,
        }
    }
}

impl DeepView for Watcher {
    type V = WatcherView;

    open spec fn deep_view(&self) -> WatcherView {
        self.view()
    }
}

/// Relies on `uuid::Uuid::new_v4` and its hyphenated `Display` form: a
/// random version-4 identifier rendered as 36 characters. The value is
/// random, so nothing is promised beyond its length.
#[verifier::external_body]
fn fresh_id() -> (r: String)
    ensures
        r@.len() == 36,
{
    uuid::Uuid::new_v4().to_string()
}

impl Watcher {
    /// Creates an enabled watcher with a freshly drawn identifier, a cache
    /// file name derived from that identifier, and no check on record yet.
    pub fn new(url: String, keywords: Vec<String>, check_interval: u64) -> (r: Watcher)
        requires
            check_interval > 0,
        ensures
            r@.url == url@,
            r@.keywords == keywords.deep_view(),
            r@.check_interval == check_interval,
            r@.enabled,
            r@.last_checked is None,
            r@.id.len() == 36,
            r@.cache_path == r@.id + ".html"@,
    {
        let id = fresh_id();
        let cache_path = id.clone().concat(".html");
        Watcher {
            id,
            url,
            keywords,
            check_interval,
            enabled: true,
            last_checked: None,
            cache_path,
        }
    }
}

impl Clone for Watcher {
    /// A clone carries the same record value.
    fn clone(&self) -> (r: Self)
        ensures
            r@ == self@,
    {
        let r = Watcher {
            id: self.id.clone(),
            url: self.url.clone(),
            keywords: self.keywords.clone(),
            check_interval: self.check_interval,
            enabled: self.enabled,
            last_checked: match &self.last_checked {
                Some(t) => Some(t.clone()),
                None => None,
            },
            cache_path: self.cache_path.clone(),
        };
        proof {
            assert(r.keywords.deep_view() =~= self.keywords.deep_view());
        }
        r
    }
}

} // verus!
