//! The library's laws: proved statements relating rendering, file-name
//! synthesis, write planning and parsing across function boundaries.

use crate::aggregate::{
    aggregated_groups, distinct_labels, has_separator, lemma_sep_index_from_found,
    lemma_upsert_preserves_distinct, parsed_category, parsed_message, sep_at, split_point,
};
use crate::entry::{
    category_name, file_name, issue_link, issue_prefix, issue_suffix, mr_link, mr_prefix,
    mr_suffix, name_taken, rendered_text, transformed, EntryType,
};
use crate::strutil::is_whitespace_char;
use vstd::prelude::*;

verus! {

/// An entry without merge-request and issue numbers renders exactly to the
/// category name, the separator, and the message — no trailing suffix.
pub proof fn lemma_render_no_refs(t: EntryType, msg: Seq<char>)
    ensures
        rendered_text(t, msg, None, None) == category_name(t) + ": "@ + msg,
{
    assert(rendered_text(t, msg, None, None) =~= category_name(t) + ": "@ + msg);
}

/// When both numbers are present, the rendered text is the plain entry line
/// followed by the merge-request link and then the issue link: the
/// merge-request link always precedes the issue link.
pub proof fn lemma_mr_link_precedes_issue_link(t: EntryType, msg: Seq<char>, mr: u32, issue: u32)
    ensures
        rendered_text(t, msg, Some(mr), Some(issue)) == (category_name(t) + ": "@ + msg) + mr_link(
            mr,
        ) + issue_link(issue),
{
    assert(rendered_text(t, msg, Some(mr), Some(issue)) =~= (category_name(t) + ": "@ + msg)
        + mr_link(mr) + issue_link(issue));
}

/// File-name synthesis is injective over messages that differ only in their
/// non-whitespace content: for two messages of equal length, with whitespace
/// at the same positions and the same whitespace characters there, equal file
/// names (under identical optional numbers) force equal messages. Messages
/// whose whitespace differs but transforms to the same underscores may still
/// collide.
pub proof fn lemma_file_name_injective(
    m1: Seq<char>,
    m2: Seq<char>,
    mr: Option<u32>,
    issue: Option<u32>,
)
    ensures
        (m1.len() == m2.len() && (forall|i: int|
            0 <= i < m1.len() ==> (is_whitespace_char(m1[i]) <==> is_whitespace_char(m2[i]))) && (
        forall|i: int| 0 <= i < m1.len() ==> (is_whitespace_char(m1[i]) ==> m1[i] == m2[i]))
            && file_name(m1, mr, issue) == file_name(m2, mr, issue)) ==> m1 == m2,
{
    if m1.len() == m2.len() && (forall|i: int|
        0 <= i < m1.len() ==> (is_whitespace_char(m1[i]) <==> is_whitespace_char(m2[i]))) && (
    forall|i: int| 0 <= i < m1.len() ==> (is_whitespace_char(m1[i]) ==> m1[i] == m2[i]))
        && file_name(m1, mr, issue) == file_name(m2, mr, issue) {
        let p = issue_prefix(issue) + mr_prefix(mr);
        let plen = p.len() as int;
        assert(transformed(m1).len() == m1.len());
        assert(transformed(m2).len() == m2.len());
        assert forall|i: int| 0 <= i < m1.len() implies m1[i] == m2[i] by {
            assert(file_name(m1, mr, issue)[plen + i] == transformed(m1)[i]);
            assert(file_name(m2, mr, issue)[plen + i] == transformed(m2)[i]);
            assert(transformed(m1)[i] == transformed(m2)[i]);
            if is_whitespace_char(m1[i]) {
                assert(m1[i] == m2[i]);
            } else {
                assert(transformed(m1)[i] == m1[i]);
                assert(!is_whitespace_char(m2[i]));
                assert(transformed(m2)[i] == m2[i]);
            }
        }
        assert(m1 =~= m2);
    }
}

/// How often `name` occurs among the existing file names.
pub open spec fn occurrences(names: Seq<Seq<char>>, name: Seq<char>) -> nat
    decreases names.len(),
{
    if names.len() == 0 {
        0
    } else {
        occurrences(names.drop_last(), name) + (if names.last() == name {
            1nat
        } else {
            0nat
        })
    }
}

proof fn lemma_occurrences_zero(names: Seq<Seq<char>>, name: Seq<char>)
    requires
        forall|j: int| 0 <= j < names.len() ==> names[j] != name,
    ensures
        occurrences(names, name) == 0,
    decreases names.len(),
{
    if names.len() > 0 {
        assert(names.last() != name);
        lemma_occurrences_zero(names.drop_last(), name);
    }
}

/// Writing the same entry twice against the same directory: while its file
/// name is still free the write is allowed, once that name has been added the
/// same name is taken (so a second identical write fails), and the name then
/// occurs exactly once among the file names.
pub proof fn lemma_second_write_conflicts(
    msg: Seq<char>,
    mr: Option<u32>,
    issue: Option<u32>,
    existing: Seq<Seq<char>>,
)
    ensures
        ({
            let n = file_name(msg, mr, issue);
            !name_taken(n, existing) ==> name_taken(n, existing.push(n)) && occurrences(
                existing.push(n),
                n,
            ) == 1
        }),
{
    let n = file_name(msg, mr, issue);
    if !name_taken(n, existing) {
        assert(existing.push(n)[existing.len() as int] == n);
        assert(name_taken(n, existing.push(n)));
        assert(forall|j: int| 0 <= j < existing.len() ==> existing[j] != n);
        lemma_occurrences_zero(existing, n);
        assert(existing.push(n).drop_last() =~= existing);
        assert(existing.push(n).last() == n);
        assert(occurrences(existing.push(n), n) == 1);
    }
}

/// An aggregated report never repeats a category label: whatever files are
/// aggregated, each label owns exactly one group.
pub proof fn lemma_report_categories_distinct(files: Seq<(Seq<char>, Seq<char>)>)
    ensures
        distinct_labels(aggregated_groups(files)),
    decreases files.len(),
{
    if files.len() > 0 {
        lemma_report_categories_distinct(files.drop_last());
        let content = files.last().1;
        if has_separator(content) {
            lemma_upsert_preserves_distinct(
                aggregated_groups(files.drop_last()),
                parsed_category(content),
                parsed_message(content),
            );
        }
    }
}

/// No category name contains a colon, so the first `": "` of a rendered entry
/// line stands right after the category name.
proof fn lemma_category_name_no_colon(t: EntryType)
    ensures
        forall|j: int| 0 <= j < category_name(t).len() ==> category_name(t)[j] != ':',
{
    reveal_strlit("Added");
    reveal_strlit("Changed");
    reveal_strlit("Deprecated");
    reveal_strlit("Removed");
    reveal_strlit("Fixed");
    reveal_strlit("Security");
}

/// Parsing round-trips rendering: the content `render_text` produces for any
/// entry parses back into exactly the category name and the message together
/// with its link suffixes.
pub proof fn lemma_parse_round_trip(
    t: EntryType,
    msg: Seq<char>,
    mr: Option<u32>,
    issue: Option<u32>,
)
    ensures
        has_separator(rendered_text(t, msg, mr, issue)),
        parsed_category(rendered_text(t, msg, mr, issue)) == category_name(t),
        parsed_message(rendered_text(t, msg, mr, issue)) == msg + mr_suffix(mr) + issue_suffix(
            issue,
        ),
{
    let s = rendered_text(t, msg, mr, issue);
    let name = category_name(t);
    let k = name.len() as int;
    lemma_category_name_no_colon(t);
    reveal_strlit(": ");
    assert((": "@).len() == 2);
    assert((": "@)[0] == ':');
    assert((": "@)[1] == ' ');
    assert(s.len() == k + 2 + msg.len() + mr_suffix(mr).len() + issue_suffix(issue).len());
    assert(s[k] == ':');
    assert(s[k + 1] == ' ');
    assert(sep_at(s, k));
    assert forall|j: int| 0 <= j < k implies !sep_at(s, j) by {
        assert(s[j] == name[j]);
        assert(name[j] != ':');
    }
    lemma_sep_index_from_found(s, 0, k);
    assert(split_point(s) == k);
    assert(parsed_category(s) =~= name);
    assert(parsed_message(s) =~= msg + mr_suffix(mr) + issue_suffix(issue));
}

} // verus!
