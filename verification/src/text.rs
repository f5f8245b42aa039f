//! Character-level utilities shared by change detection, keyword scanning
//! and the persistence format: whitespace classification, case folding,
//! trimming, line splitting and joining.

use vstd::prelude::*;
use vstd::slice::slice_subrange;
use vstd::string::StrSliceExecFns;

verus! {

/// The whitespace characters the library recognizes: the ASCII space and the
/// usual control characters that appear in fetched text.
pub open spec fn is_space_char(c: char) -> bool {
    c == ' ' || c == '\t' || c == '\n' || c == '\r' || c == '\u{b}' || c == '\u{c}'
}

pub fn is_space(c: char) -> (r: bool)
    ensures
        r == is_space_char(c),
{
    c == ' ' || c == '\t' || c == '\n' || c == '\r' || c == '\u{b}' || c == '\u{c}'
}

/// Case folding used for keyword matching: ASCII letters are mapped to their
/// lowercase form, every other character is left alone. Folding one character
/// to one character keeps every match position valid in the original text.
pub open spec fn lower_char(c: char) -> char {
    if 'A' <= c && c <= 'Z' {
        (((c as u32) + 32) as u8) as char
    } else {
        c
    }
}

pub fn to_lower_char(c: char) -> (r: char)
    ensures
        r == lower_char(c),
{
    if 'A' <= c && c <= 'Z' {
        (((c as u32) + 32) as u8) as char
    } else {
        c
    }
}

/// A sequence of characters, case folded.
pub open spec fn lower(s: Seq<char>) -> Seq<char> {
    s.map_values(|c: char| lower_char(c))
}

pub fn lower_chars(v: &[char]) -> (r: Vec<char>)
    ensures
        r@ == lower(v@),
{
    let mut out: Vec<char> = Vec::new();
    let mut i: usize = 0;
    while i < v.len()
        invariant
            0 <= i <= v@.len(),
            out@ == lower(v@.subrange(0, i as int)),
        decreases v@.len() - i,
    {
        out.push(to_lower_char(v[i]));
        proof {
            assert(lower(v@.subrange(0, i + 1 as int)) =~= lower(v@.subrange(0, i as int)).push(
                lower_char(v@[i as int]),
            ));
        }
        i = i + 1;
    }
    proof {
        assert(v@.subrange(0, v@.len() as int) =~= v@);
    }
    out
}

/// Collects the characters of a string slice.
pub fn chars_of(s: &str) -> (r: Vec<char>)
    ensures
        r@ == s@,
{
    let n = s.unicode_len();
    let mut out: Vec<char> = Vec::new();
    let mut i: usize = 0;
    while i < n
        invariant
            n == s@.len(),
            0 <= i <= n,
            out@ == s@.subrange(0, i as int),
        decreases n - i,
    {
        out.push(s.get_char(i));
        proof {
            assert(s@.subrange(0, i + 1 as int) =~= s@.subrange(0, i as int).push(s@[i as int]));
        }
        i = i + 1;
    }
    proof {
        assert(s@.subrange(0, s@.len() as int) =~= s@);
    }
    out
}

/// Relies on `core::iter::Iterator::collect` building a `String` from the
/// characters of the slice in order.
#[verifier::external_body]
pub fn string_from_chars(v: &[char]) -> (r: String)
    ensures
        r@ == v@,
{
    v.iter().collect()
}

/// Compares two character slices for equality.
pub fn chars_eq(a: &[char], b: &[char]) -> (r: bool)
    ensures
        r == (a@ == b@),
{
    if a.len() != b.len() {
        proof {
            assert(a@ != b@);
        }
        return false;
    }
    let mut i: usize = 0;
    while i < a.len()
        invariant
            a@.len() == b@.len(),
            0 <= i <= a@.len(),
            forall|j: int| 0 <= j < i ==> a@[j] == b@[j],
        decreases a@.len() - i,
    {
        if a[i] != b[i] {
            return false;
        }
        i = i + 1;
    }
    proof {
        assert(a@ =~= b@);
    }
    true
}

/// Compares two string slices for equality of their characters.
pub fn str_eq(a: &str, b: &str) -> (r: bool)
    ensures
        r == (a@ == b@),
{
    let ca = chars_of(a);
    let cb = chars_of(b);
    chars_eq(ca.as_slice(), cb.as_slice())
}

/// Leading whitespace removed.
pub open spec fn trim_front(s: Seq<char>) -> Seq<char>
    decreases s.len(),
{
    if s.len() == 0 {
        s
    } else if is_space_char(s[0]) {
        trim_front(s.subrange(1, s.len() as int))
    } else {
        s
    }
}

/// Trailing whitespace removed.
pub open spec fn trim_back(s: Seq<char>) -> Seq<char>
    decreases s.len(),
{
    if s.len() == 0 {
        s
    } else if is_space_char(s[s.len() - 1]) {
        trim_back(s.subrange(0, s.len() - 1))
    } else {
        s
    }
}

/// Surrounding whitespace removed from both ends.
pub open spec fn trimmed(s: Seq<char>) -> Seq<char> {
    trim_back(trim_front(s))
}

pub proof fn lemma_trim_front_skip(s: Seq<char>, i: int)
    requires
        0 <= i <= s.len(),
        forall|j: int| 0 <= j < i ==> is_space_char(s[j]),
    ensures
        trim_front(s) == trim_front(s.subrange(i, s.len() as int)),
    decreases i,
{
    if i == 0 {
        assert(s.subrange(0, s.len() as int) =~= s);
    } else {
        let rest = s.subrange(1, s.len() as int);
        lemma_trim_front_skip(rest, i - 1);
        assert(rest.subrange(i - 1, rest.len() as int) =~= s.subrange(i, s.len() as int));
    }
}

pub proof fn lemma_trim_back_skip(s: Seq<char>, i: int)
    requires
        0 <= i <= s.len(),
        forall|j: int| i <= j < s.len() ==> is_space_char(s[j]),
    ensures
        trim_back(s) == trim_back(s.subrange(0, i)),
    decreases s.len() - i,
{
    if i == s.len() {
        assert(s.subrange(0, s.len() as int) =~= s);
    } else {
        let rest = s.subrange(0, s.len() - 1);
        lemma_trim_back_skip(rest, i);
        assert(rest.subrange(0, i) =~= s.subrange(0, i));
    }
}

/// Copies `v` with surrounding whitespace removed.
pub fn trim_chars(v: &[char]) -> (r: Vec<char>)
    ensures
        r@ == trimmed(v@),
{
    let n = v.len();
    let mut lo: usize = 0;
    while lo < n && is_space(v[lo])
        invariant
            n == v@.len(),
            0 <= lo <= n,
            forall|j: int| 0 <= j < lo ==> is_space_char(v@[j]),
        decreases n - lo,
    {
        lo = lo + 1;
    }
    let mut hi: usize = n;
    while hi > lo && is_space(v[hi - 1])
        invariant
            n == v@.len(),
            0 <= lo <= hi <= n,
            forall|j: int| 0 <= j < lo ==> is_space_char(v@[j]),
            forall|j: int| hi <= j < n ==> is_space_char(v@[j]),
        decreases hi,
    {
        hi = hi - 1;
    }
    proof {
        lemma_trim_front_skip(v@, lo as int);
        let tail = v@.subrange(lo as int, n as int);
        if lo < n {
            assert(!is_space_char(tail[0]));
            assert(trim_front(tail) == tail);
        } else {
            assert(tail.len() == 0);
        }
        lemma_trim_back_skip(tail, hi - lo);
        let mid = tail.subrange(0, hi - lo);
        assert(mid =~= v@.subrange(lo as int, hi as int));
        if lo < hi {
            assert(!is_space_char(mid[mid.len() - 1]));
        }
        assert(trim_back(mid) == mid);
    }
    let mut out: Vec<char> = Vec::new();
    let mut i: usize = lo;
    while i < hi
        invariant
            lo <= i <= hi <= v@.len(),
            out@ == v@.subrange(lo as int, i as int),
        decreases hi - i,
    {
        out.push(v[i]);
        proof {
            assert(v@.subrange(lo as int, i + 1 as int) =~= v@.subrange(lo as int, i as int).push(
                v@[i as int],
            ));
        }
        i = i + 1;
    }
    out
}

/// Appends every character of `src` to `dst`.
pub fn push_all(dst: &mut Vec<char>, src: &[char])
    ensures
        final(dst)@ == old(dst)@ + src@,
{
    let mut i: usize = 0;
    while i < src.len()
        invariant
            0 <= i <= src@.len(),
            dst@ == old(dst)@ + src@.subrange(0, i as int),
        decreases src@.len() - i,
    {
        dst.push(src[i]);
        proof {
            assert(old(dst)@ + src@.subrange(0, i + 1 as int) =~= (old(dst)@ + src@.subrange(
                0,
                i as int,
            )).push(src@[i as int]));
        }
        i = i + 1;
    }
    proof {
        assert(old(dst)@ + src@.subrange(0, src@.len() as int) =~= old(dst)@ + src@);
    }
}

/// The segments of `s` between occurrences of the separator, scanned from
/// position `cur`, with `start` marking the beginning of the current
/// segment.
pub open spec fn segments_from(s: Seq<char>, sep: char, start: int, cur: int) -> Seq<Seq<char>>
    recommends
        0 <= start <= cur <= s.len(),
    decreases s.len() - cur,
    when 0 <= cur <= s.len()
{
    if cur >= s.len() {
        seq![s.subrange(start, s.len() as int)]
    } else if s[cur] == sep {
        seq![s.subrange(start, cur)] + segments_from(s, sep, cur + 1, cur + 1)
    } else {
        segments_from(s, sep, start, cur + 1)
    }
}

/// The segments of `s` between occurrences of `sep`.
pub open spec fn split_on(s: Seq<char>, sep: char) -> Seq<Seq<char>> {
    segments_from(s, sep, 0, 0)
}

/// The lines of `s`: the segments between newline characters.
pub open spec fn split_lines(s: Seq<char>) -> Seq<Seq<char>> {
    split_on(s, '\n')
}

/// Each part trimmed, with parts that become empty dropped.
pub open spec fn kept_parts(ls: Seq<Seq<char>>) -> Seq<Seq<char>>
    decreases ls.len(),
{
    if ls.len() == 0 {
        Seq::empty()
    } else {
        let t = trimmed(ls[0]);
        let rest = kept_parts(ls.subrange(1, ls.len() as int));
        if t.len() == 0 {
            rest
        } else {
            seq![t] + rest
        }
    }
}

/// The cleaned lines of `s`: split, trimmed, empties dropped.
pub open spec fn cleaned_lines(s: Seq<char>) -> Seq<Seq<char>> {
    kept_parts(split_lines(s))
}

/// The parts joined with a single `sep` between consecutive parts.
pub open spec fn join_with(parts: Seq<Seq<char>>, sep: char) -> Seq<char>
    decreases parts.len(),
{
    if parts.len() == 0 {
        Seq::empty()
    } else if parts.len() == 1 {
        parts[0]
    } else {
        parts[0].push(sep) + join_with(parts.subrange(1, parts.len() as int), sep)
    }
}

pub proof fn lemma_join_push(parts: Seq<Seq<char>>, sep: char, p: Seq<char>)
    ensures
        join_with(parts.push(p), sep) == if parts.len() == 0 {
            p
        } else {
            join_with(parts, sep) + seq![sep] + p
        },
    decreases parts.len(),
{
    if parts.len() == 0 {
        assert(parts.push(p).len() == 1);
        assert(join_with(parts.push(p), sep) == parts.push(p)[0]);
    } else if parts.len() == 1 {
        let two = parts.push(p);
        assert(two.subrange(1, 2) =~= seq![p]);
        assert(join_with(two, sep) == two[0].push(sep) + join_with(seq![p], sep));
        assert(join_with(seq![p], sep) == p);
        assert(parts[0].push(sep) + p =~= parts[0] + seq![sep] + p);
        assert(join_with(parts, sep) == parts[0]);
    } else {
        let rest = parts.subrange(1, parts.len() as int);
        lemma_join_push(rest, sep, p);
        assert(parts.push(p).subrange(1, parts.push(p).len() as int) =~= rest.push(p));
        assert(join_with(parts.push(p), sep) == parts[0].push(sep) + join_with(rest.push(p), sep));
        assert(parts[0].push(sep) + (join_with(rest, sep) + seq![sep] + p) =~= (parts[0].push(sep)
            + join_with(rest, sep)) + seq![sep] + p);
    }
}

/// Splits `v` at `sep`, trims each segment, and drops those that become
/// empty.
pub fn split_trim_keep(v: &[char], sep: char) -> (r: Vec<Vec<char>>)
    ensures
        r@.map_values(|l: Vec<char>| l@) == kept_parts(split_on(v@, sep)),
{
    let n = v.len();
    let ghost s = v@;
    let mut out: Vec<Vec<char>> = Vec::new();
    let mut start: usize = 0;
    let mut i: usize = 0;
    while i < n
        invariant
            n == s.len(),
            s == v@,
            0 <= start <= i <= n,
            kept_parts(split_on(s, sep)) =~= out@.map_values(|l: Vec<char>| l@) + kept_parts(
                segments_from(s, sep, start as int, i as int),
            ),
        decreases n - i,
    {
        if v[i] == sep {
            let ghost segs = segments_from(s, sep, start as int, i as int);
            let ghost segs_rest = segments_from(s, sep, i + 1 as int, i + 1 as int);
            proof {
                assert(segs == seq![s.subrange(start as int, i as int)] + segs_rest);
                assert(segs[0] == s.subrange(start as int, i as int));
                assert(segs.subrange(1, segs.len() as int) =~= segs_rest);
            }
            let line = trim_chars(slice_range(v, start, i));
            if line.len() > 0 {
                proof {
                    assert(out@.push(line).map_values(|l: Vec<char>| l@) =~= out@.map_values(
                        |l: Vec<char>| l@,
                    ).push(line@));
                    assert(out@.map_values(|l: Vec<char>| l@).push(line@) + kept_parts(segs_rest)
                        =~= out@.map_values(|l: Vec<char>| l@) + (seq![line@] + kept_parts(
                        segs_rest,
                    )));
                }
                out.push(line);
            }
            start = i + 1;
        }
        i = i + 1;
    }
    let ghost segs = segments_from(s, sep, start as int, n as int);
    proof {
        assert(segs == seq![s.subrange(start as int, n as int)]);
        assert(segs.subrange(1, 1) =~= Seq::<Seq<char>>::empty());
        assert(kept_parts(segs.subrange(1, 1)) == Seq::<Seq<char>>::empty());
    }
    let line = trim_chars(slice_range(v, start, n));
    if line.len() > 0 {
        proof {
            assert(out@.push(line).map_values(|l: Vec<char>| l@) =~= out@.map_values(
                |l: Vec<char>| l@,
            ).push(line@));
            assert(out@.map_values(|l: Vec<char>| l@).push(line@) =~= out@.map_values(
                |l: Vec<char>| l@,
            ) + (seq![line@] + Seq::<Seq<char>>::empty()));
        }
        out.push(line);
    } else {
        proof {
            assert(out@.map_values(|l: Vec<char>| l@) + Seq::<Seq<char>>::empty() =~= out@
                .map_values(|l: Vec<char>| l@));
        }
    }
    out
}

/// Splits `v` at `sep` into raw segments, nothing trimmed or dropped.
pub fn split_all(v: &[char], sep: char) -> (r: Vec<Vec<char>>)
    ensures
        r@.map_values(|l: Vec<char>| l@) == split_on(v@, sep),
{
    let n = v.len();
    let ghost s = v@;
    let mut out: Vec<Vec<char>> = Vec::new();
    let mut start: usize = 0;
    let mut i: usize = 0;
    while i < n
        invariant
            n == s.len(),
            s == v@,
            0 <= start <= i <= n,
            split_on(s, sep) =~= out@.map_values(|l: Vec<char>| l@) + segments_from(
                s,
                sep,
                start as int,
                i as int,
            ),
        decreases n - i,
    {
        if v[i] == sep {
            let ghost segs = segments_from(s, sep, start as int, i as int);
            let ghost segs_rest = segments_from(s, sep, i + 1 as int, i + 1 as int);
            proof {
                assert(segs == seq![s.subrange(start as int, i as int)] + segs_rest);
            }
            let mut line: Vec<char> = Vec::new();
            push_all(&mut line, slice_range(v, start, i));
            proof {
                assert(line@ =~= s.subrange(start as int, i as int));
                assert(out@.push(line).map_values(|l: Vec<char>| l@) =~= out@.map_values(
                    |l: Vec<char>| l@,
                ).push(line@));
                assert(out@.map_values(|l: Vec<char>| l@).push(line@) + segs_rest =~= out@
                    .map_values(|l: Vec<char>| l@) + (seq![line@] + segs_rest));
            }
            out.push(line);
            start = i + 1;
        }
        i = i + 1;
    }
    let ghost segs = segments_from(s, sep, start as int, n as int);
    proof {
        assert(segs == seq![s.subrange(start as int, n as int)]);
    }
    let mut line: Vec<char> = Vec::new();
    push_all(&mut line, slice_range(v, start, n));
    proof {
        assert(line@ =~= s.subrange(start as int, n as int));
        assert(out@.push(line).map_values(|l: Vec<char>| l@) =~= out@.map_values(
            |l: Vec<char>| l@,
        ).push(line@));
        assert(out@.map_values(|l: Vec<char>| l@).push(line@) =~= out@.map_values(
            |l: Vec<char>| l@,
        ) + seq![line@]);
    }
    out.push(line);
    out
}

/// The subslice of `v` between `from` and `to`.
pub fn slice_range<'a>(v: &'a [char], from: usize, to: usize) -> (r: &'a [char])
    requires
        0 <= from <= to <= v@.len(),
    ensures
        r@ == v@.subrange(from as int, to as int),
{
    slice_subrange(v, from, to)
}

/// Joins the parts with a single separator character between them.
pub fn join_parts(parts: &Vec<Vec<char>>, sep: char) -> (r: Vec<char>)
    ensures
        r@ == join_with(parts@.map_values(|l: Vec<char>| l@), sep),
{
    let ghost views = parts@.map_values(|l: Vec<char>| l@);
    let mut out: Vec<char> = Vec::new();
    let mut i: usize = 0;
    while i < parts.len()
        invariant
            views == parts@.map_values(|l: Vec<char>| l@),
            0 <= i <= parts@.len(),
            out@ == join_with(views.subrange(0, i as int), sep),
        decreases parts@.len() - i,
    {
        proof {
            assert(views.subrange(0, i + 1 as int) =~= views.subrange(0, i as int).push(
                views[i as int],
            ));
            lemma_join_push(views.subrange(0, i as int), sep, views[i as int]);
        }
        if i > 0 {
            out.push(sep);
        }
        push_all(&mut out, parts[i].as_slice());
        proof {
            if i > 0 {
                assert(join_with(views.subrange(0, i as int), sep).push(sep) + views[i as int]
                    =~= join_with(views.subrange(0, i as int), sep) + seq![sep] + views[i as int]);
            }
        }
        i = i + 1;
    }
    proof {
        assert(views.subrange(0, views.len() as int) =~= views);
    }
    out
}

/// Lines of `v` trimmed, empties dropped, and rejoined with `sep`.
pub fn clean_join(v: &[char], sep: char) -> (r: Vec<char>)
    ensures
        r@ == join_with(cleaned_lines(v@), sep),
{
    let parts = split_trim_keep(v, '\n');
    join_parts(&parts, sep)
}

/// Copies `s` with one character appended.
pub fn push_char(s: &str, c: char) -> (r: String)
    ensures
        r@ == s@.push(c),
{
    let mut cs = chars_of(s);
    cs.push(c);
    string_from_chars(cs.as_slice())
}

/// Copies `s` with its last character removed; an empty string stays empty.
pub fn drop_last_char(s: &str) -> (r: String)
    ensures
        s@.len() == 0 ==> r@ == s@,
        s@.len() > 0 ==> r@ == s@.drop_last(),
{
    let cs = chars_of(s);
    if cs.len() == 0 {
        string_from_chars(cs.as_slice())
    } else {
        let cut = slice_range(cs.as_slice(), 0, cs.len() - 1);
        proof {
            assert(s@.subrange(0, s@.len() - 1) =~= s@.drop_last());
        }
        string_from_chars(cut)
    }
}

/// The parts joined with the separator string between consecutive parts.
pub open spec fn join_with_sep(parts: Seq<Seq<char>>, sep: Seq<char>) -> Seq<char>
    decreases parts.len(),
{
    if parts.len() == 0 {
        Seq::empty()
    } else if parts.len() == 1 {
        parts[0]
    } else {
        parts[0] + sep + join_with_sep(parts.subrange(1, parts.len() as int), sep)
    }
}

pub proof fn lemma_join_sep_push(parts: Seq<Seq<char>>, sep: Seq<char>, p: Seq<char>)
    ensures
        join_with_sep(parts.push(p), sep) == if parts.len() == 0 {
            p
        } else {
            join_with_sep(parts, sep) + sep + p
        },
    decreases parts.len(),
{
    if parts.len() == 0 {
        assert(parts.push(p).len() == 1);
        assert(join_with_sep(parts.push(p), sep) == parts.push(p)[0]);
    } else if parts.len() == 1 {
        let two = parts.push(p);
        assert(two.subrange(1, 2) =~= seq![p]);
        assert(join_with_sep(two, sep) == two[0] + sep + join_with_sep(seq![p], sep));
        assert(join_with_sep(seq![p], sep) == p);
        assert(join_with_sep(parts, sep) == parts[0]);
    } else {
        let rest = parts.subrange(1, parts.len() as int);
        lemma_join_sep_push(rest, sep, p);
        assert(parts.push(p).subrange(1, parts.push(p).len() as int) =~= rest.push(p));
        assert(join_with_sep(parts.push(p), sep) == parts[0] + sep + join_with_sep(
            rest.push(p),
            sep,
        ));
        assert(parts[0] + sep + (join_with_sep(rest, sep) + sep + p) =~= (parts[0] + sep
            + join_with_sep(rest, sep)) + sep + p);
    }
}

/// Joins owned strings with a separator string between them.
pub fn join_strings(parts: &Vec<String>, sep: &str) -> (r: String)
    ensures
        r@ == join_with_sep(parts.deep_view(), sep@),
{
    let ghost views = parts.deep_view();
    let sep_chars = chars_of(sep);
    let mut out: Vec<char> = Vec::new();
    let mut i: usize = 0;
    while i < parts.len()
        invariant
            views == parts.deep_view(),
            views.len() == parts@.len(),
            sep_chars@ == sep@,
            0 <= i <= parts@.len(),
            out@ == join_with_sep(views.subrange(0, i as int), sep@),
        decreases parts@.len() - i,
    {
        proof {
            assert(views.subrange(0, i + 1 as int) =~= views.subrange(0, i as int).push(
                views[i as int],
            ));
            lemma_join_sep_push(views.subrange(0, i as int), sep@, views[i as int]);
        }
        if i > 0 {
            push_all(&mut out, sep_chars.as_slice());
        }
        let part = chars_of(parts[i].as_str());
        push_all(&mut out, part.as_slice());
        i = i + 1;
    }
    proof {
        assert(views.subrange(0, views.len() as int) =~= views);
    }
    string_from_chars(out.as_slice())
}

} // verus!
