//! Notification content: the title and body of the one-shot alert raised
//! when a changed page matches keywords. Delivery itself happens outside
//! the library; these functions fix exactly what is delivered.

use crate::matcher::KeywordMatch;
use crate::numbers::dec_digits;
use crate::text::{chars_of, join_strings, join_with_sep, push_all, string_from_chars};
use vstd::prelude::*;

verus! {

/// The notification title: the matched keywords joined with commas, framed
/// by the alert wording.
pub open spec fn title_of(keys: Seq<Seq<char>>) -> Seq<char> {
    "Web Watcher Alert: "@ + join_with_sep(keys, ", "@) + " found!"@
}

/// The notification body: the source and the first match's context; with
/// more than one match, the match count leads.
pub open spec fn body_of(url: Seq<char>, ms: Seq<(Seq<char>, Seq<char>)>) -> Seq<char>
    recommends
        ms.len() > 0,
{
    if ms.len() == 1 {
        "Found on "@ + url + "\n\n"@ + ms[0].1
    } else {
        "Found "@ + dec_digits(ms.len() as nat) + " matches on "@ + url + "\n\n"@ + ms[0].1
    }
}

/// Builds the alert title for a list of (de-duplicated) matched keywords.
pub fn notification_title(keywords: &Vec<String>) -> (r: String)
    ensures
        r@ == title_of(keywords.deep_view()),
{
    let mut out = chars_of("Web Watcher Alert: ");
    let joined = join_strings(keywords, ", ");
    let joined_chars = chars_of(joined.as_str());
    push_all(&mut out, joined_chars.as_slice());
    let tail = chars_of(" found!");
    push_all(&mut out, tail.as_slice());
    proof {
        assert(out@ =~= title_of(keywords.deep_view()));
    }
    string_from_chars(out.as_slice())
}

/// Builds the alert body for the matches of one cycle.
pub fn notification_body(url: &str, matches: &Vec<KeywordMatch>) -> (r: String)
    requires
        matches@.len() > 0,
    ensures
        r@ == body_of(url@, matches@.map_values(|m: KeywordMatch| m.view())),
{
    let ghost ms = matches@.map_values(|m: KeywordMatch| m.view());
    let url_chars = chars_of(url);
    let context_chars = chars_of(matches[0].context.as_str());
    let mut out: Vec<char> = Vec::new();
    if matches.len() == 1 {
        let lead = chars_of("Found on ");
        push_all(&mut out, lead.as_slice());
        push_all(&mut out, url_chars.as_slice());
        let gap = chars_of("\n\n");
        push_all(&mut out, gap.as_slice());
        push_all(&mut out, context_chars.as_slice());
        proof {
            assert(out@ =~= body_of(url@, ms));
        }
    } else {
        let lead = chars_of("Found ");
        push_all(&mut out, lead.as_slice());
        let count = crate::numbers::u64_to_dec_chars(matches.len() as u64);
        push_all(&mut out, count.as_slice());
        let mid = chars_of(" matches on ");
        push_all(&mut out, mid.as_slice());
        push_all(&mut out, url_chars.as_slice());
        let gap = chars_of("\n\n");
        push_all(&mut out, gap.as_slice());
        push_all(&mut out, context_chars.as_slice());
        proof {
            assert(out@ =~= body_of(url@, ms));
        }
    }
    string_from_chars(out.as_slice())
}

} // verus!
