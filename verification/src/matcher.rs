//! Keyword scanning: finds case-insensitive, non-overlapping occurrences of
//! each keyword in content and extracts a cleaned, length-bounded context
//! window around every occurrence.

use crate::text::{
    chars_eq, chars_of, clean_join, cleaned_lines, join_with, lower, lower_chars, push_all,
    slice_range, string_from_chars,
};
use vstd::prelude::*;

verus! {

/// One keyword occurrence: the keyword as configured and a cleaned excerpt
/// of the text around the occurrence.
pub struct KeywordMatch {
    pub keyword: String,
    pub context: String,
}

impl KeywordMatch {
    pub open spec fn view(self) -> (Seq<char>, Seq<char>) {
        (self.keyword@, self.context@)
    }
}

/// Whether the case-folded keyword occurs in the case-folded content at
/// position `i`.
pub open spec fn occurs_at(content: Seq<char>, kw: Seq<char>, i: int) -> bool {
    &&& 0 <= i
    &&& i + kw.len() <= content.len()
    &&& lower(content).subrange(i, i + kw.len()) == lower(kw)
}

/// The non-overlapping occurrence positions of `kw` in `content` at or after
/// `from`: the scan advances by one until a hit, then jumps past the hit.
pub open spec fn occurrences_from(content: Seq<char>, kw: Seq<char>, from: int) -> Seq<int>
    recommends
        kw.len() > 0,
    decreases content.len() - from,
    when 0 <= from && kw.len() > 0
{
    if from + kw.len() > content.len() {
        Seq::empty()
    } else if occurs_at(content, kw, from) {
        seq![from] + occurrences_from(content, kw, from + kw.len())
    } else {
        occurrences_from(content, kw, from + 1)
    }
}

/// Where the context window starts: up to 100 characters before the match.
pub open spec fn context_start(pos: int) -> int {
    if pos > 100 {
        pos - 100
    } else {
        0
    }
}

/// Where the context window ends: up to 100 characters after the match.
pub open spec fn context_end(content: Seq<char>, kwlen: int, pos: int) -> int {
    if pos + kwlen + 100 < content.len() {
        pos + kwlen + 100
    } else {
        content.len() as int
    }
}

/// The cleaned text of the context window: lines trimmed, empties dropped,
/// rejoined with single spaces.
pub open spec fn cleaned_window(content: Seq<char>, kwlen: int, pos: int) -> Seq<char> {
    join_with(
        cleaned_lines(content.subrange(context_start(pos), context_end(content, kwlen, pos))),
        ' ',
    )
}

/// The displayed context for a match of length `kwlen` at `pos`: the cleaned
/// window, truncated to 197 characters and wrapped in ellipsis markers when
/// it exceeds 200; otherwise with a leading marker when the window does not
/// start at the beginning of the content and a trailing one when it does not
/// end at its end.
pub open spec fn context_of(content: Seq<char>, kwlen: int, pos: int) -> Seq<char> {
    let cstart = context_start(pos);
    let cend = context_end(content, kwlen, pos);
    let cleaned = cleaned_window(content, kwlen, pos);
    if cleaned.len() > 200 {
        "..."@ + cleaned.subrange(0, 197) + "..."@
    } else if cstart > 0 && cend < content.len() {
        "..."@ + cleaned + "..."@
    } else if cstart > 0 {
        "..."@ + cleaned
    } else if cend < content.len() {
        cleaned + "..."@
    } else {
        cleaned
    }
}

/// No displayed context is ever longer than the truncation limit plus an
/// ellipsis marker on each side.
pub proof fn lemma_context_total_bound(content: Seq<char>, kwlen: int, pos: int)
    ensures
        context_of(content, kwlen, pos).len() <= 206,
{
    reveal_strlit("...");
}

/// A context whose cleaned window leaves room for both markers stays within
/// 200 characters.
pub proof fn lemma_context_within_limit(content: Seq<char>, kwlen: int, pos: int)
    requires
        cleaned_window(content, kwlen, pos).len() <= 194,
    ensures
        context_of(content, kwlen, pos).len() <= 200,
{
    reveal_strlit("...");
}

/// A context taken from the interior of longer content carries an ellipsis
/// marker on both ends.
pub proof fn lemma_context_interior_markers(content: Seq<char>, kwlen: int, pos: int)
    requires
        context_start(pos) > 0,
        context_end(content, kwlen, pos) < content.len(),
    ensures
        context_of(content, kwlen, pos).subrange(0, 3) == "..."@,
        context_of(content, kwlen, pos).subrange(
            context_of(content, kwlen, pos).len() - 3,
            context_of(content, kwlen, pos).len() as int,
        ) == "..."@,
{
    reveal_strlit("...");
    let ctx = context_of(content, kwlen, pos);
    let cleaned = cleaned_window(content, kwlen, pos);
    if cleaned.len() > 200 {
        assert(ctx.subrange(0, 3) =~= "..."@);
        assert(ctx.subrange(ctx.len() - 3, ctx.len() as int) =~= "..."@);
    } else {
        assert(ctx.subrange(0, 3) =~= "..."@);
        assert(ctx.subrange(ctx.len() - 3, ctx.len() as int) =~= "..."@);
    }
}

/// A context whose window starts at the very beginning of the content, and
/// which is not truncated, carries no leading ellipsis marker: it is the
/// cleaned window itself, with at most a trailing marker.
pub proof fn lemma_context_start_no_leading(content: Seq<char>, kwlen: int, pos: int)
    requires
        context_start(pos) == 0,
        cleaned_window(content, kwlen, pos).len() <= 200,
    ensures
        context_of(content, kwlen, pos) == cleaned_window(content, kwlen, pos) + (if context_end(
            content,
            kwlen,
            pos,
        ) < content.len() {
            "..."@
        } else {
            Seq::<char>::empty()
        }),
{
    let ctx = context_of(content, kwlen, pos);
    let cleaned = cleaned_window(content, kwlen, pos);
    if context_end(content, kwlen, pos) < content.len() {
        assert(ctx =~= cleaned + "..."@);
    } else {
        assert(cleaned + Seq::<char>::empty() =~= cleaned);
    }
}

/// The matches one keyword produces, in occurrence order. A keyword with no
/// characters produces no matches.
pub open spec fn matches_for_keyword(content: Seq<char>, kw: Seq<char>) -> Seq<
    (Seq<char>, Seq<char>),
> {
    if kw.len() == 0 {
        Seq::empty()
    } else {
        occurrences_from(content, kw, 0).map_values(
            |p: int| (kw, context_of(content, kw.len() as int, p)),
        )
    }
}

/// All matches, grouped by keyword in the order the keywords were given,
/// and within one keyword in left-to-right occurrence order.
pub open spec fn spec_find_keywords(content: Seq<char>, kws: Seq<Seq<char>>) -> Seq<
    (Seq<char>, Seq<char>),
>
    decreases kws.len(),
{
    if kws.len() == 0 {
        Seq::empty()
    } else {
        matches_for_keyword(content, kws[0]) + spec_find_keywords(
            content,
            kws.subrange(1, kws.len() as int),
        )
    }
}

/// Builds the displayed context for a match of length `kwlen` at `pos`.
fn build_context(content: &[char], kwlen: usize, pos: usize) -> (r: Vec<char>)
    requires
        0 <= pos,
        pos + kwlen <= content@.len(),
    ensures
        r@ == context_of(content@, kwlen as int, pos as int),
{
    let n = content.len();
    let cstart: usize = if pos > 100 {
        pos - 100
    } else {
        0
    };
    let cend: usize = if n - (pos + kwlen) > 100 {
        pos + kwlen + 100
    } else {
        n
    };
    let window = slice_range(content, cstart, cend);
    let cleaned = clean_join(window, ' ');
    let dots = chars_of("...");
    let mut out: Vec<char> = Vec::new();
    if cleaned.len() > 200 {
        push_all(&mut out, dots.as_slice());
        push_all(&mut out, slice_range(cleaned.as_slice(), 0, 197));
        push_all(&mut out, dots.as_slice());
        proof {
            assert(out@ =~= "..."@ + cleaned@.subrange(0, 197) + "..."@);
        }
    } else if cstart > 0 && cend < n {
        push_all(&mut out, dots.as_slice());
        push_all(&mut out, cleaned.as_slice());
        push_all(&mut out, dots.as_slice());
        proof {
            assert(out@ =~= "..."@ + cleaned@ + "..."@);
        }
    } else if cstart > 0 {
        push_all(&mut out, dots.as_slice());
        push_all(&mut out, cleaned.as_slice());
        proof {
            assert(out@ =~= "..."@ + cleaned@);
        }
    } else if cend < n {
        push_all(&mut out, cleaned.as_slice());
        push_all(&mut out, dots.as_slice());
        proof {
            assert(out@ =~= cleaned@ + "..."@);
        }
    } else {
        push_all(&mut out, cleaned.as_slice());
        proof {
            assert(out@ =~= cleaned@);
        }
    }
    out
}

/// Finds every keyword occurrence in `content`, case-insensitively, with a
/// cleaned context window per occurrence. Keywords are searched in the order
/// given; duplicates are searched independently; occurrences of one keyword
/// never overlap.
pub fn find_keywords(content: &str, keywords: &[String]) -> (r: Vec<KeywordMatch>)
    ensures
        r@.map_values(|m: KeywordMatch| m.view()) == spec_find_keywords(
            content@,
            keywords@.map_values(|s: String| s@),
        ),
{
    let ghost c = content@;
    let ghost kwviews = keywords@.map_values(|s: String| s@);
    let ghost target = spec_find_keywords(c, kwviews);
    let cchars = chars_of(content);
    let clower = lower_chars(cchars.as_slice());
    let n = cchars.len();
    let mut out: Vec<KeywordMatch> = Vec::new();
    let mut j: usize = 0;
    proof {
        assert(kwviews.subrange(0, kwviews.len() as int) =~= kwviews);
    }
    while j < keywords.len()
        invariant
            c == content@,
            kwviews == keywords@.map_values(|s: String| s@),
            kwviews.len() == keywords@.len(),
            target == spec_find_keywords(c, kwviews),
            cchars@ == c,
            clower@ == lower(c),
            n == c.len(),
            0 <= j <= keywords@.len(),
            out@.map_values(|m: KeywordMatch| m.view()) + spec_find_keywords(
                c,
                kwviews.subrange(j as int, kwviews.len() as int),
            ) == target,
        decreases keywords@.len() - j,
    {
        let ghost kw = kwviews[j as int];
        let ghost rest_target = spec_find_keywords(
            c,
            kwviews.subrange(j + 1 as int, kwviews.len() as int),
        );
        proof {
            let suffix = kwviews.subrange(j as int, kwviews.len() as int);
            assert(suffix[0] == kw);
            assert(suffix.subrange(1, suffix.len() as int) =~= kwviews.subrange(
                j + 1 as int,
                kwviews.len() as int,
            ));
        }
        let kchars = chars_of(keywords[j].as_str());
        let klen = kchars.len();
        if klen > 0 && klen <= n {
            let klower = lower_chars(kchars.as_slice());
            let ghost pairfn = |p: int| (kw, context_of(c, kw.len() as int, p));
            let mut from: usize = 0;
            proof {
                assert(matches_for_keyword(c, kw) == occurrences_from(c, kw, 0).map_values(
                    pairfn,
                ));
            }
            while from <= n - klen
                invariant
                    c == content@,
                    cchars@ == c,
                    clower@ == lower(c),
                    n == c.len(),
                    kw == kwviews[j as int],
                    kwviews == keywords@.map_values(|s: String| s@),
                    kwviews.len() == keywords@.len(),
                    0 <= j < kwviews.len(),
                    kchars@ == kw,
                    klower@ == lower(kw),
                    klen == kw.len(),
                    0 < klen <= n,
                    0 <= from <= n,
                    pairfn == (|p: int| (kw, context_of(c, kw.len() as int, p))),
                    rest_target == spec_find_keywords(
                        c,
                        kwviews.subrange(j + 1 as int, kwviews.len() as int),
                    ),
                    out@.map_values(|m: KeywordMatch| m.view()) + occurrences_from(
                        c,
                        kw,
                        from as int,
                    ).map_values(pairfn) + rest_target == target,
                decreases n - from,
            {
                let ghost occ = occurrences_from(c, kw, from as int);
                let hit = chars_eq(slice_range(clower.as_slice(), from, from + klen), klower.as_slice());
                proof {
                    assert(lower(c).subrange(from as int, from + klen) == clower@.subrange(
                        from as int,
                        from + klen,
                    ));
                    assert(hit == occurs_at(c, kw, from as int));
                }
                if hit {
                    let ctx = build_context(cchars.as_slice(), klen, from);
                    let m = KeywordMatch {
                        keyword: keywords[j].clone(),
                        context: string_from_chars(ctx.as_slice()),
                    };
                    proof {
                        assert(m.view() == pairfn(from as int));
                        assert(occ == seq![from as int] + occurrences_from(
                            c,
                            kw,
                            from + klen,
                        ));
                        assert(occ.map_values(pairfn) =~= seq![pairfn(from as int)]
                            + occurrences_from(c, kw, from + klen).map_values(pairfn));
                        assert(out@.push(m).map_values(|mm: KeywordMatch| mm.view()) =~= out@
                            .map_values(|mm: KeywordMatch| mm.view()).push(m.view()));
                        assert(out@.map_values(|mm: KeywordMatch| mm.view()).push(m.view())
                            + occurrences_from(c, kw, from + klen).map_values(pairfn) =~= out@
                            .map_values(|mm: KeywordMatch| mm.view()) + occ.map_values(pairfn));
                    }
                    out.push(m);
                    from = from + klen;
                } else {
                    proof {
                        assert(occ == occurrences_from(c, kw, from + 1));
                    }
                    from = from + 1;
                }
            }
            proof {
                assert(occurrences_from(c, kw, from as int) =~= Seq::<int>::empty());
                assert(occurrences_from(c, kw, from as int).map_values(pairfn) =~= Seq::<
                    (Seq<char>, Seq<char>),
                >::empty());
                assert(out@.map_values(|m: KeywordMatch| m.view()) + Seq::<
                    (Seq<char>, Seq<char>),
                >::empty() =~= out@.map_values(|m: KeywordMatch| m.view()));
                assert(matches_for_keyword(c, kw) == occurrences_from(c, kw, 0).map_values(
                    pairfn,
                ));
            }
        } else {
            proof {
                if kw.len() == 0 {
                    assert(matches_for_keyword(c, kw) =~= Seq::<(Seq<char>, Seq<char>)>::empty());
                } else {
                    assert(occurrences_from(c, kw, 0) =~= Seq::<int>::empty());
                    assert(matches_for_keyword(c, kw) =~= Seq::<(Seq<char>, Seq<char>)>::empty());
                }
                assert(out@.map_values(|m: KeywordMatch| m.view()) + Seq::<
                    (Seq<char>, Seq<char>),
                >::empty() =~= out@.map_values(|m: KeywordMatch| m.view()));
            }
        }
        j = j + 1;
    }
    proof {
        assert(kwviews.subrange(kwviews.len() as int, kwviews.len() as int) =~= Seq::<
            Seq<char>,
        >::empty());
    }
    out
}

} // verus!
