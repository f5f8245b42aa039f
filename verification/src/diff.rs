//! Change detection: compares newly fetched content with the cached
//! snapshot, ignoring edits that only touch whitespace or blank lines, and
//! produces a short human-readable summary of line changes.

use crate::numbers::dec_digits;
use crate::text::{
    chars_eq, chars_of, clean_join, cleaned_lines, join_parts, join_with, push_all,
    string_from_chars, trim_chars, trimmed,
};
use vstd::prelude::*;

verus! {

/// The normal form used for change detection: lines trimmed, lines that
/// become empty dropped, the rest rejoined with single newlines.
pub open spec fn normalized(s: Seq<char>) -> Seq<char> {
    join_with(cleaned_lines(s), '\n')
}

/// Rewrites content into its whitespace-normal form.
pub fn normalize_whitespace(content: &str) -> (r: String)
    ensures
        r@ == normalized(content@),
{
    let chars = chars_of(content);
    let joined = clean_join(chars.as_slice(), '\n');
    string_from_chars(joined.as_slice())
}

/// Whether new content differs from old content once whitespace-only edits
/// are set aside.
pub open spec fn spec_has_changed(old_content: Seq<char>, new_content: Seq<char>) -> bool {
    normalized(old_content) != normalized(new_content)
}

/// Detects a meaningful content change: exact equality, and equality after
/// whitespace normalization, both count as "no change".
pub fn has_changed(old_content: &str, new_content: &str) -> (r: bool)
    ensures
        r == spec_has_changed(old_content@, new_content@),
{
    let a = chars_of(old_content);
    let b = chars_of(new_content);
    if chars_eq(a.as_slice(), b.as_slice()) {
        return false;
    }
    let na = clean_join(a.as_slice(), '\n');
    let nb = clean_join(b.as_slice(), '\n');
    !chars_eq(na.as_slice(), nb.as_slice())
}

/// Content never meaningfully differs from itself.
pub proof fn lemma_has_changed_reflexive(content: Seq<char>)
    ensures
        !spec_has_changed(content, content),
{
}

/// Edits that leave the whitespace-normal form alone — surrounding
/// whitespace, blank lines, line-ending differences — are never a change.
pub proof fn lemma_whitespace_insensitive(old_content: Seq<char>, new_content: Seq<char>)
    requires
        normalized(old_content) == normalized(new_content),
    ensures
        !spec_has_changed(old_content, new_content),
{
}

/// One diffed line, as reported by the line differ.
pub enum ChangeKind {
    Delete,
    Insert,
    Equal,
}

impl ChangeKind {
    /// A stable numeric code for each kind: delete 0, insert 1, equal 2.
    pub open spec fn id(self) -> int {
        match self {
            ChangeKind::Delete => 0,
            ChangeKind::Insert => 1,
            ChangeKind::Equal => 2,
        }
    }
}

pub struct LineChange {
    pub kind: ChangeKind,
    pub text: String,
}

impl LineChange {
    pub open spec fn view(self) -> (int, Seq<char>) {
        (self.kind.id(), self.text@)
    }
}

/// The line-by-line difference between two texts, as the `similar` crate
/// reports it: one entry per diffed line, tagged delete (0), insert (1) or
/// equal (2), carrying the line's text.
pub uninterp spec fn line_changes_of(old_content: Seq<char>, new_content: Seq<char>) -> Seq<
    (int, Seq<char>),
>;

/// Relies on `similar::TextDiff::from_lines` and `iter_all_changes`: the
/// diff between two texts, one change per line, each tagged delete, insert
/// or equal. The result depends on the two texts alone.
#[verifier::external_body]
fn diff_lines(old_content: &str, new_content: &str) -> (r: Vec<LineChange>)
    ensures
        r@.map_values(|c: LineChange| c.view()) == line_changes_of(old_content@, new_content@),
{
    let diff = similar::TextDiff::from_lines(old_content, new_content);
    let mut out = Vec::new();
    for change in diff.iter_all_changes() {
        let kind = match change.tag() {
            similar::ChangeTag::Delete => ChangeKind::Delete,
            similar::ChangeTag::Insert => ChangeKind::Insert,
            similar::ChangeTag::Equal => ChangeKind::Equal,
        };
        out.push(LineChange { kind, text: change.value().to_string() });
    }
    out
}

/// How many changes in `cs` carry kind code `k`.
pub open spec fn count_kind(cs: Seq<(int, Seq<char>)>, k: int) -> int
    decreases cs.len(),
{
    if cs.len() == 0 {
        0
    } else {
        (if cs[0].0 == k {
            1int
        } else {
            0int
        }) + count_kind(cs.subrange(1, cs.len() as int), k)
    }
}

/// The display lines of the summary: the first three deleted lines and the
/// first three inserted lines, in diff order, each trimmed and prefixed.
pub open spec fn shown_from(
    cs: Seq<(int, Seq<char>)>,
    removed: int,
    added: int,
) -> Seq<Seq<char>>
    decreases cs.len(),
{
    if cs.len() == 0 {
        Seq::empty()
    } else {
        let rest = cs.subrange(1, cs.len() as int);
        if cs[0].0 == 0 {
            if removed < 3 {
                seq![seq!['-', ' '] + trimmed(cs[0].1)] + shown_from(rest, removed + 1, added)
            } else {
                shown_from(rest, removed + 1, added)
            }
        } else if cs[0].0 == 1 {
            if added < 3 {
                seq![seq!['+', ' '] + trimmed(cs[0].1)] + shown_from(rest, removed, added + 1)
            } else {
                shown_from(rest, removed, added + 1)
            }
        } else {
            shown_from(rest, removed, added)
        }
    }
}

/// The human-readable summary of a sequence of line changes: counts of
/// added and removed lines and the first three of each, or a fixed note
/// when only whitespace moved.
pub open spec fn summary_of(cs: Seq<(int, Seq<char>)>) -> Seq<char> {
    let removed = count_kind(cs, 0);
    let added = count_kind(cs, 1);
    let shown = shown_from(cs, 0, 0);
    if shown.len() == 0 {
        "Content changed (whitespace only)"@
    } else {
        let base = dec_digits(added as nat) + " lines added, "@ + dec_digits(removed as nat)
            + " lines removed\n"@ + join_with(shown, '\n');
        if added > 3 || removed > 3 {
            base + "\n... (showing first 3 changes)"@
        } else {
            base
        }
    }
}

/// Builds the summary text for a sequence of line changes.
pub fn summarize_changes(changes: &Vec<LineChange>) -> (r: String)
    ensures
        r@ == summary_of(changes@.map_values(|c: LineChange| c.view())),
{
    let ghost cs = changes@.map_values(|c: LineChange| c.view());
    let mut removed: u64 = 0;
    let mut added: u64 = 0;
    let mut shown: Vec<Vec<char>> = Vec::new();
    let mut i: usize = 0;
    proof {
        assert(cs.subrange(0, cs.len() as int) =~= cs);
    }
    while i < changes.len()
        invariant
            cs == changes@.map_values(|c: LineChange| c.view()),
            cs.len() == changes@.len(),
            0 <= i <= changes@.len(),
            removed <= i && added <= i,
            removed as int + count_kind(cs.subrange(i as int, cs.len() as int), 0) == count_kind(
                cs,
                0,
            ),
            added as int + count_kind(cs.subrange(i as int, cs.len() as int), 1) == count_kind(
                cs,
                1,
            ),
            shown@.map_values(|l: Vec<char>| l@) + shown_from(
                cs.subrange(i as int, cs.len() as int),
                removed as int,
                added as int,
            ) == shown_from(cs, 0, 0),
        decreases changes@.len() - i,
    {
        let ghost suffix = cs.subrange(i as int, cs.len() as int);
        let ghost rest = cs.subrange(i + 1 as int, cs.len() as int);
        proof {
            assert(suffix[0] == cs[i as int]);
            assert(suffix.subrange(1, suffix.len() as int) =~= rest);
            assert(cs[i as int] == changes@[i as int].view());
        }
        match &changes[i].kind {
            ChangeKind::Delete => {
                if removed < 3 {
                    let text = chars_of(changes[i].text.as_str());
                    let t = trim_chars(text.as_slice());
                    let mut line: Vec<char> = Vec::new();
                    line.push('-');
                    line.push(' ');
                    push_all(&mut line, t.as_slice());
                    proof {
                        assert(line@ =~= seq!['-', ' '] + trimmed(cs[i as int].1));
                        assert(shown@.push(line).map_values(|l: Vec<char>| l@) =~= shown@
                            .map_values(|l: Vec<char>| l@).push(line@));
                        assert(shown@.map_values(|l: Vec<char>| l@).push(line@) + shown_from(
                            rest,
                            removed + 1,
                            added as int,
                        ) =~= shown@.map_values(|l: Vec<char>| l@) + (seq![line@] + shown_from(
                            rest,
                            removed + 1,
                            added as int,
                        )));
                    }
                    shown.push(line);
                }
                removed = removed + 1;
            },
            ChangeKind::Insert => {
                if added < 3 {
                    let text = chars_of(changes[i].text.as_str());
                    let t = trim_chars(text.as_slice());
                    let mut line: Vec<char> = Vec::new();
                    line.push('+');
                    line.push(' ');
                    push_all(&mut line, t.as_slice());
                    proof {
                        assert(line@ =~= seq!['+', ' '] + trimmed(cs[i as int].1));
                        assert(shown@.push(line).map_values(|l: Vec<char>| l@) =~= shown@
                            .map_values(|l: Vec<char>| l@).push(line@));
                        assert(shown@.map_values(|l: Vec<char>| l@).push(line@) + shown_from(
                            rest,
                            removed as int,
                            added + 1,
                        ) =~= shown@.map_values(|l: Vec<char>| l@) + (seq![line@] + shown_from(
                            rest,
                            removed as int,
                            added + 1,
                        )));
                    }
                    shown.push(line);
                }
                added = added + 1;
            },
            ChangeKind::Equal => {},
        }
        i = i + 1;
    }
    proof {
        assert(cs.subrange(cs.len() as int, cs.len() as int) =~= Seq::<(int, Seq<char>)>::empty());
        assert(shown@.map_values(|l: Vec<char>| l@) + Seq::<Seq<char>>::empty() =~= shown@
            .map_values(|l: Vec<char>| l@));
    }
    if shown.len() == 0 {
        let fixed = chars_of("Content changed (whitespace only)");
        return string_from_chars(fixed.as_slice());
    }
    let mut out = crate::numbers::u64_to_dec_chars(added);
    let lit_added = chars_of(" lines added, ");
    push_all(&mut out, lit_added.as_slice());
    let removed_digits = crate::numbers::u64_to_dec_chars(removed);
    push_all(&mut out, removed_digits.as_slice());
    let lit_removed = chars_of(" lines removed\n");
    push_all(&mut out, lit_removed.as_slice());
    let joined = join_parts(&shown, '\n');
    push_all(&mut out, joined.as_slice());
    proof {
        assert(out@ =~= dec_digits(added as nat) + " lines added, "@ + dec_digits(removed as nat)
            + " lines removed\n"@ + join_with(shown_from(cs, 0, 0), '\n'));
    }
    if added > 3 || removed > 3 {
        let lit_tail = chars_of("\n... (showing first 3 changes)");
        push_all(&mut out, lit_tail.as_slice());
    }
    string_from_chars(out.as_slice())
}

/// A human-readable account of what changed between two texts: how many
/// lines were added and removed, and the first few of each.
pub fn get_diff(old_content: &str, new_content: &str) -> (r: String)
    ensures
        r@ == summary_of(line_changes_of(old_content@, new_content@)),
{
    let changes = diff_lines(old_content, new_content);
    summarize_changes(&changes)
}

} // verus!
