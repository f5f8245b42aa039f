//! The persisted registry format: a JSON object holding the array of
//! watcher records. The writer emits one canonical form; the reader accepts
//! exactly that form and refuses anything else, so a stored registry either
//! reads back as written or fails with a configuration error.

use crate::config::{registry_wf, Config, ConfigError};
use crate::numbers::{all_digits, dec_digits, dec_val, is_digit_char, parse_u64_digits};
use crate::text::{chars_of, join_with_sep, push_all, slice_range, string_from_chars};
use crate::watcher::{Watcher, WatcherView};
use vstd::prelude::*;

verus! {

// ---------------------------------------------------------------------
// The canonical serialized form.
// ---------------------------------------------------------------------
/// How one character is written inside a JSON string: quote, backslash and
/// the common control characters are escaped, everything else stands as is.
pub open spec fn esc_char(c: char) -> Seq<char> {
    if c == '"' {
        seq!['\\', '"']
    } else if c == '\\' {
        seq!['\\', '\\']
    } else if c == '\n' {
        seq!['\\', 'n']
    } else if c == '\r' {
        seq!['\\', 'r']
    } else if c == '\t' {
        seq!['\\', 't']
    } else {
        seq![c]
    }
}

/// A string's characters, escaped for embedding in a JSON string.
pub open spec fn json_escape(s: Seq<char>) -> Seq<char>
    decreases s.len(),
{
    if s.len() == 0 {
        Seq::empty()
    } else {
        esc_char(s[0]) + json_escape(s.subrange(1, s.len() as int))
    }
}

/// A JSON string: the escaped characters between double quotes.
pub open spec fn ser_string(s: Seq<char>) -> Seq<char> {
    seq!['"'] + json_escape(s) + seq!['"']
}

/// A JSON boolean literal.
pub open spec fn ser_bool(b: bool) -> Seq<char> {
    if b {
        "true"@
    } else {
        "false"@
    }
}

/// A JSON array of strings.
pub open spec fn ser_strings(ss: Seq<Seq<char>>) -> Seq<char> {
    seq!['['] + join_with_sep(ss.map_values(|s: Seq<char>| ser_string(s)), seq![',']) + seq![']']
}

/// One watcher record as a JSON object, fields in fixed order; the
/// `last_checked` member is present exactly when a check is on record.
pub open spec fn ser_watcher(w: WatcherView) -> Seq<char> {
    "{\"id\":"@ + ser_string(w.id) + ",\"url\":"@ + ser_string(w.url) + ",\"keywords\":"@
        + ser_strings(w.keywords) + ",\"check_interval\":"@ + dec_digits(
        w.check_interval as nat,
    ) + ",\"enabled\":"@ + ser_bool(w.enabled) + (match w.last_checked {
        Some(t) => ",\"last_checked\":"@ + ser_string(t),
        None => Seq::<char>::empty(),
    }) + ",\"cache_path\":"@ + ser_string(w.cache_path) + seq!['}']
}

/// The whole registry as a JSON object with its array of watcher records.
pub open spec fn ser_config(ws: Seq<WatcherView>) -> Seq<char> {
    "{\"watchers\":["@ + join_with_sep(ws.map_values(|w: WatcherView| ser_watcher(w)), seq![','])
        + "]}"@
}

// ---------------------------------------------------------------------
// The parser of the canonical form.
// ---------------------------------------------------------------------
/// Recognizes the literal `lit` at position `i`.
pub open spec fn sp_lit(s: Seq<char>, i: int, lit: Seq<char>) -> Option<int> {
    if 0 <= i && i + lit.len() <= s.len() && s.subrange(i, i + lit.len()) == lit {
        Some(i + lit.len())
    } else {
        None
    }
}

/// What an escape code stands for, the inverse of `esc_char`.
pub open spec fn unesc_char(c: char) -> Option<char> {
    if c == '"' {
        Some('"')
    } else if c == '\\' {
        Some('\\')
    } else if c == 'n' {
        Some('\n')
    } else if c == 'r' {
        Some('\r')
    } else if c == 't' {
        Some('\t')
    } else {
        None
    }
}

/// Reads string characters until the closing quote, undoing escapes.
pub open spec fn sp_string_body(s: Seq<char>, i: int) -> Option<(Seq<char>, int)>
    decreases s.len() - i,
    when 0 <= i
{
    if i >= s.len() {
        None
    } else if s[i] == '"' {
        Some((Seq::empty(), i + 1))
    } else if s[i] == '\\' {
        if i + 1 >= s.len() {
            None
        } else {
            match unesc_char(s[i + 1]) {
                None => None,
                Some(u) => match sp_string_body(s, i + 2) {
                    None => None,
                    Some((t, j)) => Some((seq![u] + t, j)),
                },
            }
        }
    } else {
        match sp_string_body(s, i + 1) {
            None => None,
            Some((t, j)) => Some((seq![s[i]] + t, j)),
        }
    }
}

/// Reads a JSON string at `i`.
pub open spec fn sp_string(s: Seq<char>, i: int) -> Option<(Seq<char>, int)> {
    match sp_lit(s, i, seq!['"']) {
        None => None,
        Some(j) => sp_string_body(s, j),
    }
}

/// The first position at or after `i` that does not hold a digit.
pub open spec fn digits_end(s: Seq<char>, i: int) -> int
    decreases s.len() - i,
    when 0 <= i
{
    if i >= s.len() || !is_digit_char(s[i]) {
        i
    } else {
        digits_end(s, i + 1)
    }
}

/// Reads a nonempty run of digits at `i` as a number.
pub open spec fn sp_number(s: Seq<char>, i: int) -> Option<(int, int)> {
    if i < 0 {
        None
    } else {
        let e = digits_end(s, i);
        if e == i {
            None
        } else {
            Some((dec_val(s.subrange(i, e)), e))
        }
    }
}

/// Reads a JSON boolean literal at `i`.
pub open spec fn sp_bool(s: Seq<char>, i: int) -> Option<(bool, int)> {
    match sp_lit(s, i, "true"@) {
        Some(j) => Some((true, j)),
        None => match sp_lit(s, i, "false"@) {
            Some(j) => Some((false, j)),
            None => None,
        },
    }
}

/// Reads the rest of a nonempty string array: one string, then either a
/// comma and more, or the closing bracket. `fuel` only bounds the
/// recursion; any value at least the element count behaves the same.
pub open spec fn sp_strings_rest(s: Seq<char>, i: int, fuel: nat) -> Option<(Seq<Seq<char>>, int)>
    decreases fuel,
{
    if fuel == 0 {
        None
    } else {
        match sp_string(s, i) {
            None => None,
            Some((v, j)) => match sp_lit(s, j, seq![',']) {
                Some(k) => match sp_strings_rest(s, k, (fuel - 1) as nat) {
                    None => None,
                    Some((vs, m)) => Some((seq![v] + vs, m)),
                },
                None => match sp_lit(s, j, seq![']']) {
                    Some(k) => Some((seq![v], k)),
                    None => None,
                },
            },
        }
    }
}

/// Reads a whole string array at `i`.
pub open spec fn sp_strings(s: Seq<char>, i: int) -> Option<(Seq<Seq<char>>, int)> {
    match sp_lit(s, i, seq!['[']) {
        None => None,
        Some(j) => match sp_lit(s, j, seq![']']) {
            Some(k) => Some((Seq::empty(), k)),
            None => sp_strings_rest(s, j, s.len() as nat),
        },
    }
}

/// Reads one watcher object at `i`: the fixed field sequence, with the
/// optional `last_checked` member between `enabled` and `cache_path`.
pub open spec fn sp_watcher(s: Seq<char>, i: int) -> Option<(WatcherView, int)> {
    match sp_lit(s, i, "{\"id\":"@) {
        None => None,
        Some(j0) => match sp_string(s, j0) {
            None => None,
            Some((id, j1)) => match sp_lit(s, j1, ",\"url\":"@) {
                None => None,
                Some(j2) => match sp_string(s, j2) {
                    None => None,
                    Some((url, j3)) => sp_watcher_mid(s, j3, id, url),
                },
            },
        },
    }
}

/// Reads a watcher object's fields from the `keywords` member onward.
pub open spec fn sp_watcher_mid(s: Seq<char>, i: int, id: Seq<char>, url: Seq<char>) -> Option<
    (WatcherView, int),
> {
    match sp_lit(s, i, ",\"keywords\":"@) {
        None => None,
        Some(j4) => match sp_strings(s, j4) {
            None => None,
            Some((kws, j5)) => match sp_lit(s, j5, ",\"check_interval\":"@) {
                None => None,
                Some(j6) => match sp_number(s, j6) {
                    None => None,
                    Some((n, j7)) => if n > u64::MAX {
                        None
                    } else {
                        match sp_lit(s, j7, ",\"enabled\":"@) {
                            None => None,
                            Some(j8) => match sp_bool(s, j8) {
                                None => None,
                                Some((b, j9)) => sp_watcher_tail(s, j9, id, url, kws, n as u64, b),
                            },
                        }
                    },
                },
            },
        },
    }
}

/// Reads the optional `last_checked` member and the closing fields of a
/// watcher object.
pub open spec fn sp_watcher_tail(
    s: Seq<char>,
    i: int,
    id: Seq<char>,
    url: Seq<char>,
    kws: Seq<Seq<char>>,
    interval: u64,
    enabled: bool,
) -> Option<(WatcherView, int)> {
    let checked = match sp_lit(s, i, ",\"last_checked\":"@) {
        Some(j) => match sp_string(s, j) {
            None => None,
            Some((t, k)) => Some((Some(t), k)),
        },
        None => Some((None, i)),
    };
    match checked {
        None => None,
        Some((last_checked, ja)) => match sp_lit(s, ja, ",\"cache_path\":"@) {
            None => None,
            Some(jb) => match sp_string(s, jb) {
                None => None,
                Some((cp, jc)) => match sp_lit(s, jc, seq!['}']) {
                    None => None,
                    Some(jd) => Some(
                        (
                            WatcherView {
                                id: id,
                                url: url,
                                keywords: kws,
                                check_interval: interval,
                                enabled: enabled,
                                last_checked: last_checked,
                                cache_path: cp,
                            },
                            jd,
                        ),
                    ),
                },
            },
        },
    }
}

/// Reads the rest of a nonempty watcher array, as `sp_strings_rest` does
/// for strings.
pub open spec fn sp_watchers_rest(s: Seq<char>, i: int, fuel: nat) -> Option<
    (Seq<WatcherView>, int),
>
    decreases fuel,
{
    if fuel == 0 {
        None
    } else {
        match sp_watcher(s, i) {
            None => None,
            Some((w, j)) => match sp_lit(s, j, seq![',']) {
                Some(k) => match sp_watchers_rest(s, k, (fuel - 1) as nat) {
                    None => None,
                    Some((ws, m)) => Some((seq![w] + ws, m)),
                },
                None => match sp_lit(s, j, seq![']']) {
                    Some(k) => Some((seq![w], k)),
                    None => None,
                },
            },
        }
    }
}

/// Reads a whole registry document: the watcher array inside the wrapping
/// object, with nothing before or after.
pub open spec fn sp_config(s: Seq<char>) -> Option<Seq<WatcherView>> {
    match sp_lit(s, 0, "{\"watchers\":["@) {
        None => None,
        Some(j) => match sp_lit(s, j, "]}"@) {
            Some(k) => if k == s.len() {
                Some(Seq::empty())
            } else {
                None
            },
            None => match sp_watchers_rest(s, j, s.len() as nat) {
                None => None,
                Some((ws, k)) => match sp_lit(s, k, seq!['}']) {
                    Some(k2) => if k2 == s.len() {
                        Some(ws)
                    } else {
                        None
                    },
                    None => None,
                },
            },
        },
    }
}

// ---------------------------------------------------------------------
// The writer.
// ---------------------------------------------------------------------
/// A character appended to a string escapes after the rest.
pub proof fn lemma_json_escape_push(s: Seq<char>, c: char)
    ensures
        json_escape(s.push(c)) == json_escape(s) + esc_char(c),
    decreases s.len(),
{
    if s.len() == 0 {
        assert(s.push(c)[0] == c);
        assert(s.push(c).subrange(1, 1) =~= Seq::<char>::empty());
        assert(json_escape(Seq::<char>::empty()) == Seq::<char>::empty());
        assert(json_escape(s.push(c)) =~= json_escape(s) + esc_char(c));
    } else {
        let rest = s.subrange(1, s.len() as int);
        lemma_json_escape_push(rest, c);
        assert(s.push(c).subrange(1, s.push(c).len() as int) =~= rest.push(c));
        assert(s.push(c)[0] == s[0]);
        assert(esc_char(s[0]) + (json_escape(rest) + esc_char(c)) =~= (esc_char(s[0])
            + json_escape(rest)) + esc_char(c));
    }
}

/// Appends the escaped characters of `s`.
fn push_escaped(out: &mut Vec<char>, s: &str)
    ensures
        final(out)@ == old(out)@ + json_escape(s@),
{
    let cs = chars_of(s);
    let mut i: usize = 0;
    proof {
        assert(s@.subrange(0, 0) =~= Seq::<char>::empty());
        assert(json_escape(Seq::<char>::empty()) == Seq::<char>::empty());
        assert(out@ =~= old(out)@ + json_escape(s@.subrange(0, 0)));
    }
    while i < cs.len()
        invariant
            cs@ == s@,
            0 <= i <= s@.len(),
            out@ == old(out)@ + json_escape(s@.subrange(0, i as int)),
        decreases s@.len() - i,
    {
        let c = cs[i];
        proof {
            assert(s@.subrange(0, i + 1 as int) =~= s@.subrange(0, i as int).push(s@[i as int]));
            lemma_json_escape_push(s@.subrange(0, i as int), s@[i as int]);
        }
        if c == '"' {
            out.push('\\');
            out.push('"');
        } else if c == '\\' {
            out.push('\\');
            out.push('\\');
        } else if c == '\n' {
            out.push('\\');
            out.push('n');
        } else if c == '\r' {
            out.push('\\');
            out.push('r');
        } else if c == '\t' {
            out.push('\\');
            out.push('t');
        } else {
            out.push(c);
        }
        proof {
            assert(out@ =~= old(out)@ + json_escape(s@.subrange(0, i + 1 as int)));
        }
        i = i + 1;
    }
    proof {
        assert(s@.subrange(0, s@.len() as int) =~= s@);
    }
}

/// Appends `s` as a JSON string.
fn push_ser_string(out: &mut Vec<char>, s: &str)
    ensures
        final(out)@ == old(out)@ + ser_string(s@),
{
    out.push('"');
    push_escaped(out, s);
    out.push('"');
    proof {
        assert(out@ =~= old(out)@ + ser_string(s@));
    }
}

/// Appends `ss` as a JSON array of strings.
fn push_ser_strings(out: &mut Vec<char>, ss: &Vec<String>)
    ensures
        final(out)@ == old(out)@ + ser_strings(ss.deep_view()),
{
    let ghost parts = ss.deep_view().map_values(|s: Seq<char>| ser_string(s));
    out.push('[');
    let mut i: usize = 0;
    proof {
        assert(parts.subrange(0, 0) =~= Seq::<Seq<char>>::empty());
        assert(out@ =~= old(out)@ + seq!['['] + join_with_sep(
            parts.subrange(0, 0),
            seq![','],
        ));
    }
    while i < ss.len()
        invariant
            parts == ss.deep_view().map_values(|s: Seq<char>| ser_string(s)),
            parts.len() == ss@.len(),
            0 <= i <= ss@.len(),
            out@ == old(out)@ + seq!['['] + join_with_sep(
                parts.subrange(0, i as int),
                seq![','],
            ),
        decreases ss@.len() - i,
    {
        proof {
            assert(parts.subrange(0, i + 1 as int) =~= parts.subrange(0, i as int).push(
                parts[i as int],
            ));
            crate::text::lemma_join_sep_push(
                parts.subrange(0, i as int),
                seq![','],
                parts[i as int],
            );
        }
        if i > 0 {
            out.push(',');
        }
        push_ser_string(out, ss[i].as_str());
        proof {
            assert(parts[i as int] == ser_string(ss.deep_view()[i as int]));
            assert(out@ =~= old(out)@ + seq!['['] + join_with_sep(
                parts.subrange(0, i + 1 as int),
                seq![','],
            ));
        }
        i = i + 1;
    }
    out.push(']');
    proof {
        assert(parts.subrange(0, parts.len() as int) =~= parts);
        assert(out@ =~= old(out)@ + ser_strings(ss.deep_view()));
    }
}

/// Appends a literal piece of the format.
fn push_lit(out: &mut Vec<char>, lit: &str)
    ensures
        final(out)@ == old(out)@ + lit@,
{
    let cs = chars_of(lit);
    push_all(out, cs.as_slice());
}

/// Appends one watcher record as a JSON object.
#[verifier::rlimit(60)]
fn push_ser_watcher(out: &mut Vec<char>, w: &Watcher)
    ensures
        final(out)@ == old(out)@ + ser_watcher(w@),
{
    push_lit(out, "{\"id\":");
    push_ser_string(out, w.id.as_str());
    push_lit(out, ",\"url\":");
    push_ser_string(out, w.url.as_str());
    push_lit(out, ",\"keywords\":");
    push_ser_strings(out, &w.keywords);
    push_lit(out, ",\"check_interval\":");
    let digits = crate::numbers::u64_to_dec_chars(w.check_interval);
    push_all(out, digits.as_slice());
    push_lit(out, ",\"enabled\":");
    if w.enabled {
        push_lit(out, "true");
    } else {
        push_lit(out, "false");
    }
    match &w.last_checked {
        Some(t) => {
            push_lit(out, ",\"last_checked\":");
            push_ser_string(out, t.as_str());
        },
        None => {},
    }
    push_lit(out, ",\"cache_path\":");
    push_ser_string(out, w.cache_path.as_str());
    out.push('}');
    proof {
        assert(out@ =~= old(out)@ + ser_watcher(w@));
    }
}

impl Config {
    /// Serializes the registry into the canonical stored form. Writing the
    /// result to the backing store is the caller's separate step.
    pub fn save(&self) -> (r: String)
        ensures
            r@ == ser_config(self@),
    {
        let ghost parts = self@.map_values(|w: WatcherView| ser_watcher(w));
        let mut out: Vec<char> = Vec::new();
        push_lit(&mut out, "{\"watchers\":[");
        let mut i: usize = 0;
        proof {
            assert(parts.subrange(0, 0) =~= Seq::<Seq<char>>::empty());
            assert(out@ =~= "{\"watchers\":["@ + join_with_sep(
                parts.subrange(0, 0),
                seq![','],
            ));
        }
        while i < self.watchers.len()
            invariant
                parts == self@.map_values(|w: WatcherView| ser_watcher(w)),
                parts.len() == self.watchers@.len(),
                0 <= i <= self.watchers@.len(),
                out@ == "{\"watchers\":["@ + join_with_sep(
                    parts.subrange(0, i as int),
                    seq![','],
                ),
            decreases self.watchers@.len() - i,
        {
            proof {
                assert(parts.subrange(0, i + 1 as int) =~= parts.subrange(0, i as int).push(
                    parts[i as int],
                ));
                crate::text::lemma_join_sep_push(
                    parts.subrange(0, i as int),
                    seq![','],
                    parts[i as int],
                );
            }
            if i > 0 {
                out.push(',');
            }
            push_ser_watcher(&mut out, &self.watchers[i]);
            proof {
                assert(parts[i as int] == ser_watcher(self@[i as int]));
                assert(out@ =~= "{\"watchers\":["@ + join_with_sep(
                    parts.subrange(0, i + 1 as int),
                    seq![','],
                ));
            }
            i = i + 1;
        }
        push_lit(&mut out, "]}");
        proof {
            assert(parts.subrange(0, parts.len() as int) =~= parts);
            assert(out@ =~= ser_config(self@));
        }
        string_from_chars(out.as_slice())
    }
}

// ---------------------------------------------------------------------
// The reader.
// ---------------------------------------------------------------------
/// Recognizes `lit` at position `i`.
fn exec_lit(s: &[char], i: usize, lit: &[char]) -> (r: Option<usize>)
    requires
        i <= s@.len(),
    ensures
        match r {
            Some(j) => sp_lit(s@, i as int, lit@) == Some(j as int) && i <= j <= s@.len(),
            None => sp_lit(s@, i as int, lit@) is None,
        },
{
    if lit.len() > s.len() - i {
        return None;
    }
    if crate::text::chars_eq(slice_range(s, i, i + lit.len()), lit) {
        Some(i + lit.len())
    } else {
        None
    }
}

/// What an escape code stands for.
fn exec_unesc(c: char) -> (r: Option<char>)
    ensures
        r == unesc_char(c),
{
    if c == '"' {
        Some('"')
    } else if c == '\\' {
        Some('\\')
    } else if c == 'n' {
        Some('\n')
    } else if c == 'r' {
        Some('\r')
    } else if c == 't' {
        Some('\t')
    } else {
        None
    }
}

/// Reads a JSON string at `i`.
fn exec_string(s: &[char], i: usize) -> (r: Option<(Vec<char>, usize)>)
    requires
        i <= s@.len(),
    ensures
        match r {
            Some(vj) => sp_string(s@, i as int) == Some((vj.0@, vj.1 as int)) && i + 2 <= vj.1
                <= s@.len(),
            None => sp_string(s@, i as int) is None,
        },
{
    let n = s.len();
    let quote = chars_of("\"");
    proof {
        reveal_strlit("\"");
        assert("\""@ =~= seq!['"']);
    }
    let j0 = match exec_lit(s, i, quote.as_slice()) {
        None => {
            return None;
        },
        Some(j) => j,
    };
    let mut cur: usize = j0;
    let mut out: Vec<char> = Vec::new();
    proof {
        assert(out@ + Seq::<char>::empty() =~= out@);
        if sp_string_body(s@, cur as int) is Some {
            let tj = sp_string_body(s@, cur as int).unwrap();
            assert(out@ + tj.0 =~= tj.0);
        }
    }
    while cur <= n
        invariant
            n == s@.len(),
            i + 1 <= cur <= n,
            sp_string(s@, i as int) == (match sp_string_body(s@, cur as int) {
                None => None::<(Seq<char>, int)>,
                Some((t, j)) => Some((out@ + t, j)),
            }),
        decreases n - cur + 1,
    {
        if cur == n {
            return None;
        }
        let c = s[cur];
        if c == '"' {
            proof {
                assert(sp_string_body(s@, cur as int) == Some(
                    (Seq::<char>::empty(), cur + 1 as int),
                ));
                assert(out@ + Seq::<char>::empty() =~= out@);
            }
            return Some((out, cur + 1));
        } else if c == '\\' {
            if cur + 1 >= n {
                return None;
            }
            let code = s[cur + 1];
            match exec_unesc(code) {
                None => {
                    return None;
                },
                Some(uc) => {
                    proof {
                        if sp_string_body(s@, cur + 2 as int) is Some {
                            let tj = sp_string_body(s@, cur + 2 as int).unwrap();
                            assert(out@ + (seq![uc] + tj.0) =~= out@.push(uc) + tj.0);
                        }
                    }
                    out.push(uc);
                    cur = cur + 2;
                },
            }
        } else {
            proof {
                if sp_string_body(s@, cur + 1 as int) is Some {
                    let tj = sp_string_body(s@, cur + 1 as int).unwrap();
                    assert(out@ + (seq![s@[cur as int]] + tj.0) =~= out@.push(s@[cur as int])
                        + tj.0);
                }
            }
            out.push(c);
            cur = cur + 1;
        }
    }
    None
}

proof fn lemma_digits_end_at(s: Seq<char>, i: int, e: int)
    requires
        0 <= i <= e <= s.len(),
        forall|k: int| i <= k < e ==> is_digit_char(#[trigger] s[k]),
        e == s.len() || !is_digit_char(s[e]),
    ensures
        digits_end(s, i) == e,
    decreases e - i,
{
    if i < e {
        lemma_digits_end_at(s, i + 1, e);
    }
}

/// Reads a nonempty digit run at `i` as a 64-bit number; `None` also when
/// the written value exceeds the type's range.
fn exec_number(s: &[char], i: usize) -> (r: Option<(u64, usize)>)
    requires
        i <= s@.len(),
    ensures
        match r {
            Some(vj) => sp_number(s@, i as int) == Some((vj.0 as int, vj.1 as int)) && i < vj.1
                <= s@.len(),
            None => sp_number(s@, i as int) is None || sp_number(s@, i as int).unwrap().0
                > u64::MAX,
        },
{
    let n = s.len();
    let mut e: usize = i;
    while e < n && crate::numbers::is_digit(s[e])
        invariant
            n == s@.len(),
            i <= e <= n,
            forall|k: int| i <= k < e ==> is_digit_char(#[trigger] s@[k]),
        decreases n - e,
    {
        e = e + 1;
    }
    proof {
        lemma_digits_end_at(s@, i as int, e as int);
    }
    if e == i {
        return None;
    }
    match parse_u64_digits(slice_range(s, i, e)) {
        Some(v) => Some((v, e)),
        None => {
            proof {
                let run = s@.subrange(i as int, e as int);
                assert(run.len() > 0 && all_digits(run));
            }
            None
        },
    }
}

/// Reads a JSON boolean literal at `i`.
fn exec_bool(s: &[char], i: usize) -> (r: Option<(bool, usize)>)
    requires
        i <= s@.len(),
    ensures
        match r {
            Some(vj) => sp_bool(s@, i as int) == Some((vj.0, vj.1 as int)) && i < vj.1 <= s@.len(),
            None => sp_bool(s@, i as int) is None,
        },
{
    let lit_true = chars_of("true");
    match exec_lit(s, i, lit_true.as_slice()) {
        Some(j) => {
            proof {
                reveal_strlit("true");
            }
            Some((true, j))
        },
        None => {
            let lit_false = chars_of("false");
            match exec_lit(s, i, lit_false.as_slice()) {
                Some(j) => {
                    proof {
                        reveal_strlit("false");
                    }
                    Some((false, j))
                },
                None => None,
            }
        },
    }
}

/// Reads a whole string array at `i`.
fn exec_strings(s: &[char], i: usize) -> (r: Option<(Vec<String>, usize)>)
    requires
        i <= s@.len(),
    ensures
        match r {
            Some(vj) => sp_strings(s@, i as int) == Some((vj.0.deep_view(), vj.1 as int)) && i
                < vj.1 <= s@.len(),
            None => sp_strings(s@, i as int) is None,
        },
{
    let n = s.len();
    let bracket_open = chars_of("[");
    let j0 = match exec_lit(s, i, bracket_open.as_slice()) {
        None => {
            proof {
                reveal_strlit("[");
                assert("["@ =~= seq!['[']);
            }
            return None;
        },
        Some(j) => j,
    };
    proof {
        reveal_strlit("[");
        assert("["@ =~= seq!['[']);
    }
    let bracket_close = chars_of("]");
    proof {
        reveal_strlit("]");
        assert("]"@ =~= seq![']']);
    }
    match exec_lit(s, j0, bracket_close.as_slice()) {
        Some(k) => {
            let out: Vec<String> = Vec::new();
            proof {
                assert(out.deep_view() =~= Seq::<Seq<char>>::empty());
            }
            return Some((out, k));
        },
        None => {},
    }
    let ghost fuel0 = s@.len() as nat;
    let ghost mut fuel_cur = fuel0;
    let mut acc: Vec<String> = Vec::new();
    let mut cur: usize = j0;
    let comma = chars_of(",");
    proof {
        reveal_strlit(",");
        assert(","@ =~= seq![',']);
        assert(acc.deep_view() =~= Seq::<Seq<char>>::empty());
        if sp_strings_rest(s@, cur as int, fuel_cur) is Some {
            let vm = sp_strings_rest(s@, cur as int, fuel_cur).unwrap();
            assert(acc.deep_view() + vm.0 =~= vm.0);
        }
    }
    while cur <= n
        invariant
            n == s@.len(),
            i < j0 <= cur <= n,
            comma@ == seq![','],
            bracket_close@ == seq![']'],
            fuel_cur >= n - cur + 1,
            sp_strings(s@, i as int) == (match sp_strings_rest(s@, cur as int, fuel_cur) {
                None => None::<(Seq<Seq<char>>, int)>,
                Some((vs, k)) => Some((acc.deep_view() + vs, k)),
            }),
        decreases n - cur + 1,
    {
        match exec_string(s, cur) {
            None => {
                return None;
            },
            Some((v, j)) => {
                match exec_lit(s, j, comma.as_slice()) {
                    Some(k) => {
                        proof {
                            if sp_strings_rest(s@, k as int, (fuel_cur - 1) as nat) is Some {
                                let vm = sp_strings_rest(
                                    s@,
                                    k as int,
                                    (fuel_cur - 1) as nat,
                                ).unwrap();
                                assert(acc.deep_view() + (seq![v@] + vm.0) =~= (acc.deep_view()
                                    + seq![v@]) + vm.0);
                            }
                        }
                        let ghost old_deep = acc.deep_view();
                        acc.push(string_from_chars(v.as_slice()));
                        proof {
                            assert(acc.deep_view() =~= old_deep + seq![v@]);
                            fuel_cur = (fuel_cur - 1) as nat;
                        }
                        cur = k;
                    },
                    None => {
                        match exec_lit(s, j, bracket_close.as_slice()) {
                            Some(k) => {
                                let ghost old_deep = acc.deep_view();
                                acc.push(string_from_chars(v.as_slice()));
                                proof {
                                    assert(acc.deep_view() =~= old_deep + seq![v@]);
                                }
                                return Some((acc, k));
                            },
                            None => {
                                return None;
                            },
                        }
                    },
                }
            },
        }
    }
    proof {
        assert(false);
    }
    None
}

/// Reads one watcher object at `i`.
#[verifier::rlimit(80)]
fn exec_watcher(s: &[char], i: usize) -> (r: Option<(Watcher, usize)>)
    requires
        i <= s@.len(),
    ensures
        match r {
            Some(wj) => sp_watcher(s@, i as int) == Some((wj.0@, wj.1 as int)) && i < wj.1
                <= s@.len(),
            None => sp_watcher(s@, i as int) is None,
        },
{
    let lit_id = chars_of("{\"id\":");
    let j0 = match exec_lit(s, i, lit_id.as_slice()) {
        None => {
            return None;
        },
        Some(j) => j,
    };
    let (id, j1) = match exec_string(s, j0) {
        None => {
            return None;
        },
        Some(v) => v,
    };
    let lit_url = chars_of(",\"url\":");
    let j2 = match exec_lit(s, j1, lit_url.as_slice()) {
        None => {
            return None;
        },
        Some(j) => j,
    };
    let (url, j3) = match exec_string(s, j2) {
        None => {
            return None;
        },
        Some(v) => v,
    };
    let lit_keywords = chars_of(",\"keywords\":");
    let j4 = match exec_lit(s, j3, lit_keywords.as_slice()) {
        None => {
            return None;
        },
        Some(j) => j,
    };
    let (keywords, j5) = match exec_strings(s, j4) {
        None => {
            return None;
        },
        Some(v) => v,
    };
    let lit_interval = chars_of(",\"check_interval\":");
    let j6 = match exec_lit(s, j5, lit_interval.as_slice()) {
        None => {
            return None;
        },
        Some(j) => j,
    };
    let (interval, j7) = match exec_number(s, j6) {
        None => {
            return None;
        },
        Some(v) => v,
    };
    let lit_enabled = chars_of(",\"enabled\":");
    let j8 = match exec_lit(s, j7, lit_enabled.as_slice()) {
        None => {
            return None;
        },
        Some(j) => j,
    };
    let (enabled, j9) = match exec_bool(s, j8) {
        None => {
            return None;
        },
        Some(v) => v,
    };
    let lit_last = chars_of(",\"last_checked\":");
    let (last_checked, ja) = match exec_lit(s, j9, lit_last.as_slice()) {
        Some(j10) => match exec_string(s, j10) {
            None => {
                return None;
            },
            Some((t, j11)) => (Some(string_from_chars(t.as_slice())), j11),
        },
        None => (None, j9),
    };
    let lit_cache = chars_of(",\"cache_path\":");
    let jb = match exec_lit(s, ja, lit_cache.as_slice()) {
        None => {
            return None;
        },
        Some(j) => j,
    };
    let (cache_path, jc) = match exec_string(s, jb) {
        None => {
            return None;
        },
        Some(v) => v,
    };
    let lit_close = chars_of("}");
    proof {
        reveal_strlit("}");
        assert("}"@ =~= seq!['}']);
    }
    let jd = match exec_lit(s, jc, lit_close.as_slice()) {
        None => {
            return None;
        },
        Some(j) => j,
    };
    let w = Watcher {
        id: string_from_chars(id.as_slice()),
        url: string_from_chars(url.as_slice()),
        keywords,
        check_interval: interval,
        enabled,
        last_checked,
        cache_path: string_from_chars(cache_path.as_slice()),
    };
    Some((w, jd))
}

impl Config {
    /// Rebuilds a registry from what the backing store held. An absent
    /// store yields the empty registry; stored text that is not a canonical
    /// registry document fails as unparsable; a document whose records
    /// break the registry invariant fails as invalid.
    pub fn load(stored: Option<&str>) -> (r: Result<Config, ConfigError>)
        ensures
            match stored {
                None => r matches Ok(c) && c@ == Seq::<WatcherView>::empty(),
                Some(text) => match sp_config(text@) {
                    None => r matches Err(e) && e is Parse,
                    Some(ws) => if registry_wf(ws) {
                        r matches Ok(c) && c@ == ws
                    } else {
                        r matches Err(e) && e is Invalid
                    },
                },
            },
    {
        match stored {
            None => Ok(Config::new()),
            Some(t) => Config::load_text(t),
        }
    }

    /// Rebuilds a registry from stored text.
    #[verifier::rlimit(100)]
    fn load_text(text: &str) -> (r: Result<Config, ConfigError>)
        ensures
            match sp_config(text@) {
                None => r matches Err(e) && e is Parse,
                Some(ws) => if registry_wf(ws) {
                    r matches Ok(c) && c@ == ws
                } else {
                    r matches Err(e) && e is Invalid
                },
            },
    {
        let cs = chars_of(text);
        let s = cs.as_slice();
        let n = s.len();
        let lit_head = chars_of("{\"watchers\":[");
        let j0 = match exec_lit(s, 0, lit_head.as_slice()) {
            None => {
                return Err(ConfigError::Parse);
            },
            Some(j) => j,
        };
        let lit_tail = chars_of("]}");
        match exec_lit(s, j0, lit_tail.as_slice()) {
            Some(k) => {
                if k == n {
                    return Ok(Config::new());
                } else {
                    return Err(ConfigError::Parse);
                }
            },
            None => {},
        }
        let ghost fuel0 = s@.len() as nat;
        let ghost mut fuel_cur = fuel0;
        let mut acc: Vec<Watcher> = Vec::new();
        let mut cur: usize = j0;
        let comma = chars_of(",");
        let bracket_close = chars_of("]");
        proof {
            reveal_strlit(",");
            assert(","@ =~= seq![',']);
            reveal_strlit("]");
            assert("]"@ =~= seq![']']);
            reveal_strlit("{\"watchers\":[");
            assert(j0 >= 1);
            assert(acc.deep_view() =~= Seq::<WatcherView>::empty());
            if sp_watchers_rest(s@, cur as int, fuel_cur) is Some {
                let vm = sp_watchers_rest(s@, cur as int, fuel_cur).unwrap();
                assert(acc.deep_view() + vm.0 =~= vm.0);
            }
        }
        let mut done: Option<(Vec<Watcher>, usize)> = None;
        while done.is_none() && cur <= n
            invariant
                n == s@.len(),
                s@ == text@,
                fuel0 == s@.len() as nat,
                j0 <= cur <= n,
                comma@ == seq![','],
                bracket_close@ == seq![']'],
                sp_lit(s@, 0, "{\"watchers\":["@) == Some(j0 as int),
                sp_lit(s@, j0 as int, "]}"@) is None,
                match done {
                    None => fuel_cur >= n - cur + 1 && (sp_watchers_rest(s@, j0 as int, fuel0)
                        == (match sp_watchers_rest(s@, cur as int, fuel_cur) {
                        None => None::<(Seq<WatcherView>, int)>,
                        Some((vs, k)) => Some((acc.deep_view() + vs, k)),
                    })),
                    Some((ws, k)) => sp_watchers_rest(s@, j0 as int, fuel0) == Some(
                        (ws.deep_view(), k as int),
                    ) && k <= n,
                },
            decreases n - cur + 1, (if done is None { 1int } else { 0int }),
        {
            match exec_watcher(s, cur) {
                None => {
                    return Err(ConfigError::Parse);
                },
                Some((w, j)) => {
                    match exec_lit(s, j, comma.as_slice()) {
                        Some(k) => {
                            proof {
                                if sp_watchers_rest(s@, k as int, (fuel_cur - 1) as nat)
                                    is Some {
                                    let vm = sp_watchers_rest(
                                        s@,
                                        k as int,
                                        (fuel_cur - 1) as nat,
                                    ).unwrap();
                                    assert(acc.deep_view() + (seq![w@] + vm.0) =~= (
                                    acc.deep_view() + seq![w@]) + vm.0);
                                }
                            }
                            let ghost old_deep = acc.deep_view();
                            acc.push(w);
                            proof {
                                assert(acc.deep_view() =~= old_deep + seq![w@]);
                                fuel_cur = (fuel_cur - 1) as nat;
                            }
                            cur = k;
                        },
                        None => {
                            match exec_lit(s, j, bracket_close.as_slice()) {
                                Some(k) => {
                                    let ghost old_deep = acc.deep_view();
                                    acc.push(w);
                                    proof {
                                        assert(acc.deep_view() =~= old_deep + seq![w@]);
                                    }
                                    done = Some((acc, k));
                                    acc = Vec::new();
                                },
                                None => {
                                    return Err(ConfigError::Parse);
                                },
                            }
                        },
                    }
                },
            }
        }
        let (watchers, k) = match done {
            None => {
                return Err(ConfigError::Parse);
            },
            Some(v) => v,
        };
        let lit_close = chars_of("}");
        proof {
            reveal_strlit("}");
            assert("}"@ =~= seq!['}']);
        }
        let k2 = match exec_lit(s, k, lit_close.as_slice()) {
            None => {
                return Err(ConfigError::Parse);
            },
            Some(j) => j,
        };
        if k2 != n {
            return Err(ConfigError::Parse);
        }
        let config = Config { watchers };
        if config.check_wf() {
            Ok(config)
        } else {
            Err(ConfigError::Invalid)
        }
    }
}

// ---------------------------------------------------------------------
// The written form reads back: the round trip.
// ---------------------------------------------------------------------
/// Splits knowledge of a concatenation inside `s` into its two halves.
proof fn lemma_split_at(s: Seq<char>, i: int, a: Seq<char>, b: Seq<char>)
    requires
        0 <= i,
        i + a.len() + b.len() <= s.len(),
        s.subrange(i, i + a.len() + b.len()) == a + b,
    ensures
        s.subrange(i, i + a.len()) == a,
        s.subrange(i + a.len(), i + a.len() + b.len()) == b,
{
    assert(s.subrange(i, i + a.len()) =~= a) by {
        assert forall|k: int| 0 <= k < a.len() implies s.subrange(i, i + a.len())[k] == a[k] by {
            assert(s.subrange(i, i + a.len() + b.len())[k] == (a + b)[k]);
        }
    }
    assert(s.subrange(i + a.len(), i + a.len() + b.len()) =~= b) by {
        assert forall|k: int| 0 <= k < b.len() implies s.subrange(
            i + a.len(),
            i + a.len() + b.len(),
        )[k] == b[k] by {
            assert(s.subrange(i, i + a.len() + b.len())[a.len() + k] == (a + b)[a.len() + k]);
            assert((a + b)[a.len() + k] == b[k]);
            assert(s.subrange(i, i + a.len() + b.len())[a.len() + k] == s[i + a.len() + k]);
            assert(s.subrange(i + a.len(), i + a.len() + b.len())[k] == s[i + a.len() + k]);
        }
    }
}

/// A literal written into `s` is recognized there.
proof fn lemma_lit_rt(s: Seq<char>, i: int, lit: Seq<char>)
    requires
        0 <= i,
        i + lit.len() <= s.len(),
        s.subrange(i, i + lit.len()) == lit,
    ensures
        sp_lit(s, i, lit) == Some(i + lit.len()),
{
}

/// Escaped string characters read back as written.
proof fn lemma_string_body_rt(s: Seq<char>, i: int, v: Seq<char>)
    requires
        0 <= i,
        i + json_escape(v).len() + 1 <= s.len(),
        s.subrange(i, i + json_escape(v).len()) == json_escape(v),
        s[i + json_escape(v).len()] == '"',
    ensures
        sp_string_body(s, i) == Some((v, i + json_escape(v).len() + 1)),
    decreases v.len(),
{
    if v.len() == 0 {
        assert(json_escape(v).len() == 0);
        assert(s[i] == '"');
    } else {
        let c = v[0];
        let rest = v.subrange(1, v.len() as int);
        let e0 = esc_char(c);
        let erest = json_escape(rest);
        assert(json_escape(v) == e0 + erest);
        lemma_split_at(s, i, e0, erest);
        if c == '"' || c == '\\' || c == '\n' || c == '\r' || c == '\t' {
            assert(e0.len() == 2);
            assert(s[i] == e0[0]) by {
                assert(s.subrange(i, i + 2)[0] == e0[0]);
            }
            assert(s[i + 1] == e0[1]) by {
                assert(s.subrange(i, i + 2)[1] == e0[1]);
            }
            assert(e0[0] == '\\');
            assert(unesc_char(e0[1]) == Some(c));
            lemma_string_body_rt(s, i + 2, rest);
            assert(seq![c] + rest =~= v);
        } else {
            assert(e0 =~= seq![c]);
            assert(s[i] == c) by {
                assert(s.subrange(i, i + 1)[0] == e0[0]);
            }
            lemma_string_body_rt(s, i + 1, rest);
            assert(seq![c] + rest =~= v);
        }
    }
}

/// A serialized string reads back as written.
proof fn lemma_string_rt(s: Seq<char>, i: int, v: Seq<char>)
    requires
        0 <= i,
        i + ser_string(v).len() <= s.len(),
        s.subrange(i, i + ser_string(v).len()) == ser_string(v),
    ensures
        sp_string(s, i) == Some((v, i + ser_string(v).len())),
{
    let e = json_escape(v);
    assert(ser_string(v) =~= seq!['"'] + (e + seq!['"']));
    lemma_split_at(s, i, seq!['"'], e + seq!['"']);
    lemma_split_at(s, i + 1, e, seq!['"']);
    lemma_lit_rt(s, i, seq!['"']);
    assert(s[i + 1 + e.len()] == '"') by {
        assert(s.subrange(i + 1 + e.len(), i + 1 + e.len() + 1)[0] == '"');
    }
    lemma_string_body_rt(s, i + 1, v);
}

/// A serialized number reads back as written, provided a non-digit follows.
proof fn lemma_number_rt(s: Seq<char>, i: int, n: u64)
    requires
        0 <= i,
        i + dec_digits(n as nat).len() < s.len(),
        s.subrange(i, i + dec_digits(n as nat).len()) == dec_digits(n as nat),
        !is_digit_char(s[i + dec_digits(n as nat).len()]),
    ensures
        sp_number(s, i) == Some((n as int, i + dec_digits(n as nat).len())),
{
    let d = dec_digits(n as nat);
    crate::numbers::lemma_dec_digits_wf(n as nat);
    assert forall|k: int| i <= k < i + d.len() implies is_digit_char(#[trigger] s[k]) by {
        assert(s.subrange(i, i + d.len())[k - i] == d[k - i]);
    }
    lemma_digits_end_at(s, i, i + d.len());
    crate::numbers::lemma_dec_val_of_digits(n as nat);
}

/// A serialized boolean reads back as written.
proof fn lemma_bool_rt(s: Seq<char>, i: int, b: bool)
    requires
        0 <= i,
        i + ser_bool(b).len() <= s.len(),
        s.subrange(i, i + ser_bool(b).len()) == ser_bool(b),
    ensures
        sp_bool(s, i) == Some((b, i + ser_bool(b).len())),
{
    reveal_strlit("true");
    reveal_strlit("false");
    if b {
        lemma_lit_rt(s, i, "true"@);
    } else {
        lemma_lit_rt(s, i, "false"@);
        if sp_lit(s, i, "true"@) is Some {
            assert(s.subrange(i, i + 4)[0] == 't');
            assert(s.subrange(i, i + 5)[0] == 'f');
        }
    }
}

/// Joined parts are at least as many characters as there are parts, when
/// no part is empty.
proof fn lemma_join_sep_len(parts: Seq<Seq<char>>, sep: Seq<char>)
    requires
        forall|k: int| 0 <= k < parts.len() ==> #[trigger] parts[k].len() >= 1,
    ensures
        join_with_sep(parts, sep).len() >= parts.len(),
    decreases parts.len(),
{
    if parts.len() > 1 {
        let rest = parts.subrange(1, parts.len() as int);
        lemma_join_sep_len(rest, sep);
    }
}

/// The serialized rest of a nonempty string array: the joined elements and
/// the closing bracket.
spec fn ser_strings_rest(ss: Seq<Seq<char>>) -> Seq<char> {
    join_with_sep(ss.map_values(|v: Seq<char>| ser_string(v)), seq![',']) + seq![']']
}

/// A nonempty serialized string-array body reads back as written.
proof fn lemma_strings_rest_rt(s: Seq<char>, i: int, kws: Seq<Seq<char>>, fuel: nat)
    requires
        kws.len() >= 1,
        fuel >= kws.len(),
        0 <= i,
        i + ser_strings_rest(kws).len() <= s.len(),
        s.subrange(i, i + ser_strings_rest(kws).len()) == ser_strings_rest(kws),
    ensures
        sp_strings_rest(s, i, fuel) == Some((kws, i + ser_strings_rest(kws).len())),
    decreases kws.len(),
{
    let parts = kws.map_values(|v: Seq<char>| ser_string(v));
    let first = ser_string(kws[0]);
    assert(parts[0] == first);
    if kws.len() == 1 {
        assert(join_with_sep(parts, seq![',']) == first);
        assert(ser_strings_rest(kws) =~= first + seq![']']);
        lemma_split_at(s, i, first, seq![']']);
        lemma_string_rt(s, i, kws[0]);
        let j = i + first.len();
        lemma_lit_rt(s, j, seq![']']);
        if sp_lit(s, j, seq![',']) is Some {
            assert(s.subrange(j, j + 1)[0] == ',');
        }
        assert(seq![kws[0]] =~= kws);
    } else {
        let kws2 = kws.subrange(1, kws.len() as int);
        let parts2 = kws2.map_values(|v: Seq<char>| ser_string(v));
        assert(parts.subrange(1, parts.len() as int) =~= parts2);
        assert(join_with_sep(parts, seq![',']) == first + seq![','] + join_with_sep(
            parts2,
            seq![','],
        ));
        assert(ser_strings_rest(kws) =~= first + (seq![','] + ser_strings_rest(kws2)));
        lemma_split_at(s, i, first, seq![','] + ser_strings_rest(kws2));
        let j = i + first.len();
        lemma_split_at(s, j, seq![','], ser_strings_rest(kws2));
        lemma_string_rt(s, i, kws[0]);
        lemma_lit_rt(s, j, seq![',']);
        lemma_strings_rest_rt(s, j + 1, kws2, (fuel - 1) as nat);
        assert(seq![kws[0]] + kws2 =~= kws);
    }
}

/// A serialized string array reads back as written.
proof fn lemma_strings_rt(s: Seq<char>, i: int, kws: Seq<Seq<char>>)
    requires
        0 <= i,
        i + ser_strings(kws).len() <= s.len(),
        s.subrange(i, i + ser_strings(kws).len()) == ser_strings(kws),
    ensures
        sp_strings(s, i) == Some((kws, i + ser_strings(kws).len())),
{
    let parts = kws.map_values(|v: Seq<char>| ser_string(v));
    let joined = join_with_sep(parts, seq![',']);
    assert(ser_strings(kws) =~= seq!['['] + (joined + seq![']']));
    lemma_split_at(s, i, seq!['['], joined + seq![']']);
    lemma_lit_rt(s, i, seq!['[']);
    let j = i + 1;
    lemma_split_at(s, j, joined, seq![']']);
    if kws.len() == 0 {
        assert(joined.len() == 0);
        lemma_lit_rt(s, j, seq![']']);
        assert(Seq::<Seq<char>>::empty() =~= kws);
    } else {
        assert(parts[0] == ser_string(kws[0]));
        assert(parts[0].len() >= 2);
        assert(joined[0] == parts[0][0]) by {
            if parts.len() == 1 {
            } else {
                assert(joined == parts[0] + seq![','] + join_with_sep(
                    parts.subrange(1, parts.len() as int),
                    seq![','],
                ));
            }
        }
        assert(parts[0][0] == '"');
        assert(s[j] == '"') by {
            assert(s.subrange(j, j + joined.len())[0] == joined[0]);
        }
        if sp_lit(s, j, seq![']']) is Some {
            assert(s.subrange(j, j + 1)[0] == ']');
        }
        assert forall|k: int| 0 <= k < parts.len() implies #[trigger] parts[k].len() >= 1 by {
            assert(parts[k] == ser_string(kws[k]));
        }
        lemma_join_sep_len(parts, seq![',']);
        assert(ser_strings_rest(kws) =~= joined + seq![']']);
        lemma_strings_rest_rt(s, j, kws, s.len() as nat);
    }
}

/// The serialized closing run of a watcher object: the optional
/// `last_checked` member, the cache path and the closing brace.
spec fn ser_watcher_tail(last_checked: Option<Seq<char>>, cache_path: Seq<char>) -> Seq<char> {
    (match last_checked {
        Some(t) => ",\"last_checked\":"@ + ser_string(t),
        None => Seq::<char>::empty(),
    }) + ",\"cache_path\":"@ + ser_string(cache_path) + seq!['}']
}

/// The serialized closing run of a watcher object reads back as written.
#[verifier::rlimit(100)]
proof fn lemma_watcher_tail_rt(
    s: Seq<char>,
    i: int,
    id: Seq<char>,
    url: Seq<char>,
    kws: Seq<Seq<char>>,
    interval: u64,
    enabled: bool,
    last_checked: Option<Seq<char>>,
    cache_path: Seq<char>,
)
    requires
        0 <= i,
        i + ser_watcher_tail(last_checked, cache_path).len() <= s.len(),
        s.subrange(i, i + ser_watcher_tail(last_checked, cache_path).len()) == ser_watcher_tail(
            last_checked,
            cache_path,
        ),
    ensures
        sp_watcher_tail(s, i, id, url, kws, interval, enabled) == Some(
            (
                WatcherView {
                    id: id,
                    url: url,
                    keywords: kws,
                    check_interval: interval,
                    enabled: enabled,
                    last_checked: last_checked,
                    cache_path: cache_path,
                },
                i + ser_watcher_tail(last_checked, cache_path).len(),
            ),
        ),
{
    reveal_strlit(",\"last_checked\":");
    reveal_strlit(",\"cache_path\":");
    let whole = ser_watcher_tail(last_checked, cache_path);
    let opt = match last_checked {
        Some(t) => ",\"last_checked\":"@ + ser_string(t),
        None => Seq::<char>::empty(),
    };
    let l7 = ",\"cache_path\":"@;
    let s7 = ser_string(cache_path);
    let close = seq!['}'];
    let tail = l7 + s7 + close;
    let pa = i;
    let pb = pa + opt.len();
    assert(whole =~= opt + tail);
    lemma_split_at(s, pa, opt, tail);
    match last_checked {
        Some(t) => {
            let l6 = ",\"last_checked\":"@;
            let s6 = ser_string(t);
            assert(opt =~= l6 + s6);
            lemma_split_at(s, pa, l6, s6);
            lemma_lit_rt(s, pa, l6);
            lemma_string_rt(s, pa + l6.len(), t);
        },
        None => {
            assert(opt.len() == 0);
            let l6 = ",\"last_checked\":"@;
            if sp_lit(s, pa, l6) is Some {
                assert(s.subrange(pa, pa + l6.len())[2] == l6[2]);
                assert(s.subrange(pa, pa + tail.len())[2] == l7[2]);
                assert(l6[2] == 'l');
                assert(l7[2] == 'c');
            }
        },
    }
    let r11 = s7 + close;
    assert(s.subrange(pb, pb + tail.len()) == tail);
    assert(tail =~= l7 + r11);
    lemma_split_at(s, pb, l7, r11);
    lemma_lit_rt(s, pb, l7);
    let pc = pb + l7.len();
    lemma_split_at(s, pc, s7, close);
    lemma_string_rt(s, pc, cache_path);
    let pd = pc + s7.len();
    lemma_lit_rt(s, pd, close);
    assert(pd + 1 == i + whole.len());
}

/// The serialized middle run of a watcher object, from the `keywords`
/// member onward.
spec fn ser_watcher_mid(
    kws: Seq<Seq<char>>,
    interval: u64,
    enabled: bool,
    last_checked: Option<Seq<char>>,
    cache_path: Seq<char>,
) -> Seq<char> {
    ",\"keywords\":"@ + ser_strings(kws) + ",\"check_interval\":"@ + dec_digits(interval as nat)
        + ",\"enabled\":"@ + ser_bool(enabled) + ser_watcher_tail(last_checked, cache_path)
}

/// The serialized middle run of a watcher object reads back as written.
#[verifier::rlimit(100)]
proof fn lemma_watcher_mid_rt(
    s: Seq<char>,
    i: int,
    id: Seq<char>,
    url: Seq<char>,
    kws: Seq<Seq<char>>,
    interval: u64,
    enabled: bool,
    last_checked: Option<Seq<char>>,
    cache_path: Seq<char>,
)
    requires
        0 <= i,
        i + ser_watcher_mid(kws, interval, enabled, last_checked, cache_path).len() <= s.len(),
        s.subrange(i, i + ser_watcher_mid(kws, interval, enabled, last_checked, cache_path).len())
            == ser_watcher_mid(kws, interval, enabled, last_checked, cache_path),
    ensures
        sp_watcher_mid(s, i, id, url) == Some(
            (
                WatcherView {
                    id: id,
                    url: url,
                    keywords: kws,
                    check_interval: interval,
                    enabled: enabled,
                    last_checked: last_checked,
                    cache_path: cache_path,
                },
                i + ser_watcher_mid(kws, interval, enabled, last_checked, cache_path).len(),
            ),
        ),
{
    reveal_strlit(",\"keywords\":");
    reveal_strlit(",\"check_interval\":");
    reveal_strlit(",\"enabled\":");
    let l3 = ",\"keywords\":"@;
    let kw = ser_strings(kws);
    let l4 = ",\"check_interval\":"@;
    let num = dec_digits(interval as nat);
    let l5 = ",\"enabled\":"@;
    let bl = ser_bool(enabled);
    let wtail = ser_watcher_tail(last_checked, cache_path);
    let whole = ser_watcher_mid(kws, interval, enabled, last_checked, cache_path);
    let r5 = kw + l4 + num + l5 + bl + wtail;
    assert(whole =~= l3 + r5);
    lemma_split_at(s, i, l3, r5);
    lemma_lit_rt(s, i, l3);
    let p5 = i + l3.len();
    let r6 = l4 + num + l5 + bl + wtail;
    assert(r5 =~= kw + r6);
    lemma_split_at(s, p5, kw, r6);
    lemma_strings_rt(s, p5, kws);
    let p6 = p5 + kw.len();
    let r7 = num + l5 + bl + wtail;
    assert(r6 =~= l4 + r7);
    lemma_split_at(s, p6, l4, r7);
    lemma_lit_rt(s, p6, l4);
    let p7 = p6 + l4.len();
    let r8 = l5 + bl + wtail;
    assert(r7 =~= num + r8);
    lemma_split_at(s, p7, num, r8);
    let p8 = p7 + num.len();
    assert(s[p8] == ',') by {
        assert(s.subrange(p8, p8 + r8.len())[0] == l5[0]);
    }
    lemma_number_rt(s, p7, interval);
    let r9 = bl + wtail;
    assert(r8 =~= l5 + r9);
    lemma_split_at(s, p8, l5, r9);
    lemma_lit_rt(s, p8, l5);
    let p9 = p8 + l5.len();
    assert(r9 =~= bl + wtail);
    lemma_split_at(s, p9, bl, wtail);
    lemma_bool_rt(s, p9, enabled);
    let pa = p9 + bl.len();
    lemma_watcher_tail_rt(s, pa, id, url, kws, interval, enabled, last_checked, cache_path);
    assert(pa + wtail.len() == i + whole.len());
}

/// One serialized watcher object reads back as written.
#[verifier::rlimit(100)]
proof fn lemma_watcher_rt(s: Seq<char>, i: int, w: WatcherView)
    requires
        0 <= i,
        i + ser_watcher(w).len() <= s.len(),
        s.subrange(i, i + ser_watcher(w).len()) == ser_watcher(w),
    ensures
        sp_watcher(s, i) == Some((w, i + ser_watcher(w).len())),
{
    reveal_strlit("{\"id\":");
    reveal_strlit(",\"url\":");
    let l1 = "{\"id\":"@;
    let s1 = ser_string(w.id);
    let l2 = ",\"url\":"@;
    let s2 = ser_string(w.url);
    let mid = ser_watcher_mid(w.keywords, w.check_interval, w.enabled, w.last_checked,
        w.cache_path);
    let r1 = s1 + l2 + s2 + mid;
    assert(ser_watcher(w) =~= l1 + r1);
    lemma_split_at(s, i, l1, r1);
    lemma_lit_rt(s, i, l1);
    let p1 = i + l1.len();
    let r2 = l2 + s2 + mid;
    assert(r1 =~= s1 + r2);
    lemma_split_at(s, p1, s1, r2);
    lemma_string_rt(s, p1, w.id);
    let p2 = p1 + s1.len();
    let r3 = s2 + mid;
    assert(r2 =~= l2 + r3);
    lemma_split_at(s, p2, l2, r3);
    lemma_lit_rt(s, p2, l2);
    let p3 = p2 + l2.len();
    assert(r3 =~= s2 + mid);
    lemma_split_at(s, p3, s2, mid);
    lemma_string_rt(s, p3, w.url);
    let p4 = p3 + s2.len();
    lemma_watcher_mid_rt(
        s,
        p4,
        w.id,
        w.url,
        w.keywords,
        w.check_interval,
        w.enabled,
        w.last_checked,
        w.cache_path,
    );
    assert(WatcherView {
        id: w.id,
        url: w.url,
        keywords: w.keywords,
        check_interval: w.check_interval,
        enabled: w.enabled,
        last_checked: w.last_checked,
        cache_path: w.cache_path,
    } == w);
    assert(p4 + mid.len() == i + ser_watcher(w).len());
}

/// The serialized rest of a nonempty watcher array.
spec fn ser_watchers_rest(ws: Seq<WatcherView>) -> Seq<char> {
    join_with_sep(ws.map_values(|w: WatcherView| ser_watcher(w)), seq![',']) + seq![']']
}

/// A nonempty serialized watcher-array body reads back as written.
#[verifier::rlimit(100)]
proof fn lemma_watchers_rest_rt(s: Seq<char>, i: int, ws: Seq<WatcherView>, fuel: nat)
    requires
        ws.len() >= 1,
        fuel >= ws.len(),
        0 <= i,
        i + ser_watchers_rest(ws).len() <= s.len(),
        s.subrange(i, i + ser_watchers_rest(ws).len()) == ser_watchers_rest(ws),
    ensures
        sp_watchers_rest(s, i, fuel) == Some((ws, i + ser_watchers_rest(ws).len())),
    decreases ws.len(),
{
    let parts = ws.map_values(|w: WatcherView| ser_watcher(w));
    let first = ser_watcher(ws[0]);
    assert(parts[0] == first);
    if ws.len() == 1 {
        assert(join_with_sep(parts, seq![',']) == first);
        assert(ser_watchers_rest(ws) =~= first + seq![']']);
        lemma_split_at(s, i, first, seq![']']);
        lemma_watcher_rt(s, i, ws[0]);
        let j = i + first.len();
        lemma_lit_rt(s, j, seq![']']);
        if sp_lit(s, j, seq![',']) is Some {
            assert(s.subrange(j, j + 1)[0] == ',');
        }
        assert(seq![ws[0]] =~= ws);
    } else {
        let ws2 = ws.subrange(1, ws.len() as int);
        let parts2 = ws2.map_values(|w: WatcherView| ser_watcher(w));
        assert(parts.subrange(1, parts.len() as int) =~= parts2);
        assert(join_with_sep(parts, seq![',']) == first + seq![','] + join_with_sep(
            parts2,
            seq![','],
        ));
        assert(ser_watchers_rest(ws) =~= first + (seq![','] + ser_watchers_rest(ws2)));
        lemma_split_at(s, i, first, seq![','] + ser_watchers_rest(ws2));
        let j = i + first.len();
        lemma_split_at(s, j, seq![','], ser_watchers_rest(ws2));
        lemma_watcher_rt(s, i, ws[0]);
        lemma_lit_rt(s, j, seq![',']);
        lemma_watchers_rest_rt(s, j + 1, ws2, (fuel - 1) as nat);
        assert(seq![ws[0]] + ws2 =~= ws);
    }
}

/// The registry round trip: the canonical form that `save` writes parses
/// back to exactly the records that were written, field for field,
/// including the absent-or-present state of every `last_checked`.
#[verifier::rlimit(100)]
pub proof fn lemma_save_load_round_trip(ws: Seq<WatcherView>)
    ensures
        sp_config(ser_config(ws)) == Some(ws),
{
    reveal_strlit("{\"watchers\":[");
    reveal_strlit("]}");
    let s = ser_config(ws);
    let head = "{\"watchers\":["@;
    let parts = ws.map_values(|w: WatcherView| ser_watcher(w));
    let joined = join_with_sep(parts, seq![',']);
    assert(s.subrange(0, s.len() as int) =~= s);
    let j0 = head.len() as int;
    if ws.len() == 0 {
        assert(s =~= head + (joined + "]}"@));
        lemma_split_at(s, 0, head, joined + "]}"@);
        lemma_lit_rt(s, 0, head);
        assert(joined.len() == 0);
        lemma_split_at(s, j0, joined, "]}"@);
        lemma_lit_rt(s, j0, "]}"@);
        assert(j0 + 2 == s.len());
        assert(Seq::<WatcherView>::empty() =~= ws);
    } else {
        assert forall|k: int| 0 <= k < parts.len() implies #[trigger] parts[k].len() >= 1 by {
            lemma_ser_watcher_first(ws[k]);
            assert(parts[k] == ser_watcher(ws[k]));
        }
        lemma_join_sep_len(parts, seq![',']);
        let body = ser_watchers_rest(ws);
        assert(s =~= head + (body + seq!['}']));
        lemma_split_at(s, 0, head, body + seq!['}']);
        lemma_lit_rt(s, 0, head);
        lemma_split_at(s, j0, body, seq!['}']);
        lemma_ser_watcher_first(ws[0]);
        assert(joined[0] == parts[0][0]) by {
            if parts.len() == 1 {
            } else {
                assert(joined == parts[0] + seq![','] + join_with_sep(
                    parts.subrange(1, parts.len() as int),
                    seq![','],
                ));
            }
        }
        assert(s[j0] == '{') by {
            assert(s.subrange(j0, j0 + body.len())[0] == body[0]);
            assert(body[0] == joined[0]);
            assert(parts[0] == ser_watcher(ws[0]));
        }
        if sp_lit(s, j0, "]}"@) is Some {
            assert(s.subrange(j0, j0 + 2)[0] == ']');
        }
        lemma_watchers_rest_rt(s, j0, ws, s.len() as nat);
        let k = j0 + body.len();
        lemma_lit_rt(s, k, seq!['}']);
        assert(k + 1 == s.len());
    }
}

/// A serialized watcher object is nonempty and opens with a brace.
proof fn lemma_ser_watcher_first(w: WatcherView)
    ensures
        ser_watcher(w).len() >= 1,
        ser_watcher(w)[0] == '{',
{
    reveal_strlit("{\"id\":");
    let l1 = "{\"id\":"@;
    let r = ser_watcher(w);
    assert(r[0] == l1[0]);
}

} // verus!
