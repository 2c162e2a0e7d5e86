//! Aggregation of entry files into one grouped report: recognizing entry
//! file names, parsing one file's content into a (category, message) pair,
//! grouping parsed entries by category in first-seen order, and rendering
//! the grouped report as one document.

use crate::entry::ChangelogError;
use vstd::prelude::*;
use vstd::string::StringExecFns;

verus! {

/// Whether positions `i` and `i + 1` of `s` hold the literal separator `": "`.
pub open spec fn sep_at(s: Seq<char>, i: int) -> bool {
    0 <= i && i + 1 < s.len() && s[i] == ':' && s[i + 1] == ' '
}

/// The position of the first `": "` separator at or after `i`, or `-1` when
/// there is none.
pub open spec fn sep_index_from(s: Seq<char>, i: int) -> int
    decreases s.len() - i,
{
    if i + 1 >= s.len() {
        -1
    } else if s[i] == ':' && s[i + 1] == ' ' {
        i
    } else {
        sep_index_from(s, i + 1)
    }
}

/// The position of the first `": "` separator of `s`, or `-1` when `s` holds
/// none.
pub open spec fn split_point(s: Seq<char>) -> int {
    sep_index_from(s, 0)
}

/// Whether `s` holds the `": "` separator at all.
pub open spec fn has_separator(s: Seq<char>) -> bool {
    split_point(s) >= 0
}

/// The category label of a well-formed entry line: everything before the
/// first separator.
pub open spec fn parsed_category(s: Seq<char>) -> Seq<char> {
    s.subrange(0, split_point(s))
}

/// The message of a well-formed entry line: everything after the first
/// separator, later `": "` occurrences included.
pub open spec fn parsed_message(s: Seq<char>) -> Seq<char> {
    s.subrange(split_point(s) + 2, s.len() as int)
}

/// The first separator search lands on `k` when `k` holds a separator and no
/// position from `from` up to `k` does.
pub proof fn lemma_sep_index_from_found(s: Seq<char>, from: int, k: int)
    requires
        0 <= from <= k,
        sep_at(s, k),
        forall|j: int| from <= j < k ==> !sep_at(s, j),
    ensures
        sep_index_from(s, from) == k,
    decreases k - from,
{
    if from < k {
        assert(!sep_at(s, from));
        lemma_sep_index_from_found(s, from + 1, k);
    }
}

/// The first separator search finds nothing when no position from `from` on
/// holds a separator.
pub proof fn lemma_sep_index_from_none(s: Seq<char>, from: int)
    requires
        0 <= from,
        forall|j: int| from <= j ==> !sep_at(s, j),
    ensures
        sep_index_from(s, from) == -1,
    decreases s.len() - from,
{
    if from + 1 < s.len() {
        assert(!sep_at(s, from));
        lemma_sep_index_from_none(s, from + 1);
    }
}

/// Splits one entry file's content on the first occurrence of the literal
/// separator `": "`: the part before it is the category label, everything
/// after it is the message. Content without the separator is a format error.
pub fn parse(content: &str) -> (r: Result<(String, String), ChangelogError>)
    ensures
        has_separator(content@) ==> r is Ok && r->Ok_0.0@ == parsed_category(content@)
            && r->Ok_0.1@ == parsed_message(content@),
        !has_separator(content@) ==> r == Err::<(String, String), ChangelogError>(
            ChangelogError::FormatError,
        ),
{
    let len = content.unicode_len();
    let mut i: usize = 0;
    while i < len
        invariant
            len == content@.len(),
            i <= len,
            forall|j: int| 0 <= j < i ==> !sep_at(content@, j),
        decreases len - i,
    {
        let c1 = content.get_char(i);
        if c1 == ':' && i + 1 < len {
            let c2 = content.get_char(i + 1);
            if c2 == ' ' {
                proof {
                    lemma_sep_index_from_found(content@, 0, i as int);
                }
                let category = content.substring_char(0, i).to_owned();
                let message = content.substring_char(i + 2, len).to_owned();
                return Ok((category, message));
            }
        }
        proof {
            assert(!sep_at(content@, i as int));
        }
        i += 1;
    }
    proof {
        assert(forall|j: int| 0 <= j ==> !sep_at(content@, j));
        lemma_sep_index_from_none(content@, 0);
    }
    Err(ChangelogError::FormatError)
}

/// One entry file as handed in by the caller: its file name (for diagnostics)
/// and its content.
pub struct EntryFile {
    pub name: String,
    pub content: String,
}

impl View for EntryFile {
    type V = (Seq<char>, Seq<char>);

    open spec fn view(&self) -> (Seq<char>, Seq<char>) {
        (self.name@, self.content@)
    }
}

/// One category of the report: its label and its messages, in aggregation
/// order.
pub struct Group {
    pub category: String,
    pub messages: Vec<String>,
}

impl View for Group {
    type V = (Seq<char>, Seq<Seq<char>>);

    open spec fn view(&self) -> (Seq<char>, Seq<Seq<char>>) {
        (self.category@, self.messages.deep_view())
    }
}

/// The grouped report: one group per category label seen, in first-seen
/// order.
pub struct Report {
    pub groups: Vec<Group>,
}

impl View for Report {
    type V = Seq<(Seq<char>, Seq<Seq<char>>)>;

    open spec fn view(&self) -> Seq<(Seq<char>, Seq<Seq<char>>)> {
        self.groups@.map_values(|g: Group| g@)
    }
}

/// Adds one message under its category: appends it to the first group with
/// that exact label, or opens a new group at the end when the label is new.
pub open spec fn upsert(
    groups: Seq<(Seq<char>, Seq<Seq<char>>)>,
    cat: Seq<char>,
    msg: Seq<char>,
) -> Seq<(Seq<char>, Seq<Seq<char>>)>
    decreases groups.len(),
{
    if groups.len() == 0 {
        seq![(cat, seq![msg])]
    } else if groups[0].0 == cat {
        seq![(cat, groups[0].1.push(msg))] + groups.drop_first()
    } else {
        seq![groups[0]] + upsert(groups.drop_first(), cat, msg)
    }
}

/// When the label stands at position `j` and nowhere earlier, `upsert`
/// appends the message to that group and leaves all others as they are.
pub proof fn lemma_upsert_found(
    groups: Seq<(Seq<char>, Seq<Seq<char>>)>,
    cat: Seq<char>,
    msg: Seq<char>,
    j: int,
)
    requires
        0 <= j < groups.len(),
        groups[j].0 == cat,
        forall|k: int| 0 <= k < j ==> groups[k].0 != cat,
    ensures
        upsert(groups, cat, msg) == groups.update(j, (cat, groups[j].1.push(msg))),
    decreases j,
{
    if j == 0 {
        assert(upsert(groups, cat, msg) =~= groups.update(0, (cat, groups[0].1.push(msg))));
    } else {
        assert(groups[0].0 != cat);
        lemma_upsert_found(groups.drop_first(), cat, msg, j - 1);
        assert(upsert(groups, cat, msg) =~= groups.update(j, (cat, groups[j].1.push(msg))));
    }
}

/// When no group carries the label, `upsert` opens a new group at the end.
pub proof fn lemma_upsert_missing(
    groups: Seq<(Seq<char>, Seq<Seq<char>>)>,
    cat: Seq<char>,
    msg: Seq<char>,
)
    requires
        forall|k: int| 0 <= k < groups.len() ==> groups[k].0 != cat,
    ensures
        upsert(groups, cat, msg) == groups.push((cat, seq![msg])),
    decreases groups.len(),
{
    if groups.len() == 0 {
        assert(upsert(groups, cat, msg) =~= groups.push((cat, seq![msg])));
    } else {
        assert(groups[0].0 != cat);
        lemma_upsert_missing(groups.drop_first(), cat, msg);
        assert(upsert(groups, cat, msg) =~= groups.push((cat, seq![msg])));
    }
}

/// Whether no two groups carry the same category label.
pub open spec fn distinct_labels(groups: Seq<(Seq<char>, Seq<Seq<char>>)>) -> bool {
    forall|a: int, b: int| 0 <= a < b < groups.len() ==> groups[a].0 != groups[b].0
}

/// `upsert` never introduces a second group with an existing label.
pub proof fn lemma_upsert_preserves_distinct(
    groups: Seq<(Seq<char>, Seq<Seq<char>>)>,
    cat: Seq<char>,
    msg: Seq<char>,
)
    requires
        distinct_labels(groups),
    ensures
        distinct_labels(upsert(groups, cat, msg)),
{
    if exists|j: int| 0 <= j < groups.len() && groups[j].0 == cat {
        let j = choose|j: int| 0 <= j < groups.len() && groups[j].0 == cat;
        assert(forall|k: int| 0 <= k < j ==> groups[k].0 != cat);
        lemma_upsert_found(groups, cat, msg, j);
        let upd = upsert(groups, cat, msg);
        assert(forall|l: int| 0 <= l < upd.len() ==> upd[l].0 == groups[l].0);
    } else {
        assert(forall|k: int| 0 <= k < groups.len() ==> groups[k].0 != cat);
        lemma_upsert_missing(groups, cat, msg);
    }
}

/// The views of a sequence of entry files.
pub open spec fn files_view(files: Seq<EntryFile>) -> Seq<(Seq<char>, Seq<char>)> {
    files.map_values(|f: EntryFile| f@)
}

/// The grouped report built from the files in order: each well-formed file's
/// message is added under its category, malformed files contribute nothing.
pub open spec fn aggregated_groups(files: Seq<(Seq<char>, Seq<char>)>) -> Seq<
    (Seq<char>, Seq<Seq<char>>),
>
    decreases files.len(),
{
    if files.len() == 0 {
        Seq::empty()
    } else {
        let prev = aggregated_groups(files.drop_last());
        let content = files.last().1;
        if has_separator(content) {
            upsert(prev, parsed_category(content), parsed_message(content))
        } else {
            prev
        }
    }
}

/// The names of the malformed files, in scan order.
pub open spec fn skipped_names(files: Seq<(Seq<char>, Seq<char>)>) -> Seq<Seq<char>>
    decreases files.len(),
{
    if files.len() == 0 {
        Seq::empty()
    } else {
        let prev = skipped_names(files.drop_last());
        if has_separator(files.last().1) {
            prev
        } else {
            prev.push(files.last().0)
        }
    }
}

/// Appends one message under its category label: to the existing group with
/// that exact label, or to a new group opened at the end of the report.
pub fn add_message(report: &mut Report, category: String, message: String)
    ensures
        final(report)@ == upsert(old(report)@, category@, message@),
{
    let mut j: usize = 0;
    while j < report.groups.len()
        invariant
            j <= report.groups.len(),
            *report == *old(report),
            forall|k: int| 0 <= k < j ==> report.groups@[k].category@ != category@,
        decreases report.groups.len() - j,
    {
        if report.groups[j].category == category {
            proof {
                assert(report@[j as int].0 == category@);
                assert(forall|k: int| 0 <= k < j ==> report@[k].0 != category@);
                lemma_upsert_found(report@, category@, message@, j as int);
            }
            let ghost g0 = report.groups@;
            let mut g = report.groups.remove(j);
            g.messages.push(message);
            let ghost gnew = g;
            report.groups.insert(j, g);
            proof {
                let jj = j as int;
                let upd = upsert(old(report)@, category@, message@);
                g0.remove_ensures(jj);
                g0.remove(jj).insert_ensures(jj, gnew);
                assert(old(report)@.len() == g0.len());
                assert(upd == old(report)@.update(jj, (category@, old(report)@[jj].1.push(message@))));
                assert(report.groups@ == g0.remove(jj).insert(jj, gnew));
                assert(report.groups@.len() == g0.len());
                assert(gnew@.0 == category@);
                assert(gnew@.1 =~= g0[jj]@.1.push(message@));
                assert(old(report)@[jj] == g0[jj]@);
                assert(report@.len() == upd.len());
                assert forall|l: int| 0 <= l < upd.len() implies report@[l] == upd[l] by {
                    if l < jj {
                        assert(report.groups@[l] == g0.remove(jj)[l]);
                        assert(g0.remove(jj)[l] == g0[l]);
                        assert(report@[l] == g0[l]@);
                        assert(old(report)@[l] == g0[l]@);
                    } else if l == jj {
                        assert(report.groups@[jj] == gnew);
                        assert(report@[jj] == gnew@);
                        assert(upd[jj] == (category@, old(report)@[jj].1.push(message@)));
                    } else {
                        assert(report.groups@[l] == g0.remove(jj)[l - 1]);
                        assert(g0.remove(jj)[l - 1] == g0[l]);
                        assert(report@[l] == g0[l]@);
                        assert(old(report)@[l] == g0[l]@);
                    }
                }
                assert(report@ =~= upd);
            }
            return ;
        }
        j += 1;
    }
    proof {
        assert(forall|k: int| 0 <= k < report@.len() ==> report@[k].0 != category@);
        lemma_upsert_missing(report@, category@, message@);
    }
    let ghost g0 = report.groups@;
    let mut messages: Vec<String> = Vec::new();
    messages.push(message);
    let g = Group { category, messages };
    let ghost gnew = g;
    report.groups.push(g);
    proof {
        let upd = upsert(old(report)@, category@, message@);
        assert(gnew@.1 =~= seq![message@]);
        assert(report@.len() == upd.len());
        assert forall|l: int| 0 <= l < upd.len() implies report@[l] == upd[l] by {
            if l < g0.len() {
                assert(report.groups@[l] == g0[l]);
            } else {
                assert(report.groups@[l] == gnew);
            }
        }
        assert(report@ =~= upd);
    }
}

/// Builds the grouped report from every entry file in order: a well-formed
/// file's message goes under its category label (opened on first sight, in
/// first-seen order), a malformed file is skipped and its name recorded.
pub fn aggregate(files: &Vec<EntryFile>) -> (r: (Report, Vec<String>))
    ensures
        r.0@ == aggregated_groups(files_view(files@)),
        r.1.deep_view() == skipped_names(files_view(files@)),
{
    let mut report = Report { groups: Vec::new() };
    let mut skipped: Vec<String> = Vec::new();
    proof {
        assert(report@ =~= aggregated_groups(files_view(files@).subrange(0, 0)));
        assert(skipped.deep_view() =~= skipped_names(files_view(files@).subrange(0, 0)));
    }
    let n = files.len();
    let mut i: usize = 0;
    while i < n
        invariant
            n == files.len(),
            i <= n,
            report@ == aggregated_groups(files_view(files@).subrange(0, i as int)),
            skipped.deep_view() == skipped_names(files_view(files@).subrange(0, i as int)),
        decreases n - i,
    {
        let f = &files[i];
        match parse(f.content.as_str()) {
            Ok((category, message)) => {
                add_message(&mut report, category, message);
            },
            Err(_) => {
                skipped.push(f.name.clone());
            },
        }
        i += 1;
        proof {
            let prefix = files_view(files@).subrange(0, i - 1);
            let here = files_view(files@).subrange(0, i as int);
            assert(here.drop_last() =~= prefix);
            assert(here.last() == files@[i - 1]@);
            assert(report@ =~= aggregated_groups(here));
            assert(skipped.deep_view() =~= skipped_names(here));
        }
    }
    proof {
        assert(files_view(files@).subrange(0, n as int) =~= files_view(files@));
    }
    (report, skipped)
}

/// The rendered bullet lines of one group's messages, in order.
pub open spec fn rendered_messages(msgs: Seq<Seq<char>>) -> Seq<char>
    decreases msgs.len(),
{
    if msgs.len() == 0 {
        Seq::empty()
    } else {
        rendered_messages(msgs.drop_last()) + " * "@ + msgs.last() + "\n"@
    }
}

/// The rendered section of one group: its subheading and its bullet lines.
pub open spec fn rendered_group(g: (Seq<char>, Seq<Seq<char>>)) -> Seq<char> {
    "## "@ + g.0 + ": \n"@ + rendered_messages(g.1)
}

/// The rendered sections of the groups, in order.
pub open spec fn rendered_groups(groups: Seq<(Seq<char>, Seq<Seq<char>>)>) -> Seq<char>
    decreases groups.len(),
{
    if groups.len() == 0 {
        Seq::empty()
    } else {
        rendered_groups(groups.drop_last()) + rendered_group(groups.last())
    }
}

/// The rendered document: the top-level heading, then one section per
/// category in first-seen order.
pub open spec fn rendered_report(groups: Seq<(Seq<char>, Seq<Seq<char>>)>) -> Seq<char> {
    "# Changelog:\n"@ + rendered_groups(groups)
}

/// Renders the grouped report as one document: a top-level heading, then for
/// each category a subheading followed by one bulleted line per message.
pub fn render_report(report: &Report) -> (s: String)
    ensures
        s@ == rendered_report(report@),
{
    let mut s = String::new();
    s.append("# Changelog:\n");
    let n = report.groups.len();
    let mut i: usize = 0;
    proof {
        assert(s@ =~= "# Changelog:\n"@ + rendered_groups(report@.subrange(0, 0)));
    }
    while i < n
        invariant
            n == report.groups.len(),
            i <= n,
            s@ == "# Changelog:\n"@ + rendered_groups(report@.subrange(0, i as int)),
        decreases n - i,
    {
        let g = &report.groups[i];
        s.append("## ");
        s.append(g.category.as_str());
        s.append(": \n");
        let ghost section_base = s@;
        let m = g.messages.len();
        let mut k: usize = 0;
        proof {
            assert(g@.1.subrange(0, 0) =~= Seq::<Seq<char>>::empty());
            assert(s@ =~= section_base + rendered_messages(g@.1.subrange(0, 0)));
        }
        while k < m
            invariant
                m == g.messages.len(),
                k <= m,
                s@ == section_base + rendered_messages(g@.1.subrange(0, k as int)),
            decreases m - k,
        {
            s.append(" * ");
            s.append(g.messages[k].as_str());
            s.append("\n");
            k += 1;
            proof {
                let here = g@.1.subrange(0, k as int);
                assert(here.drop_last() =~= g@.1.subrange(0, k - 1));
                assert(here.last() == g.messages@[k - 1]@);
                assert(s@ =~= section_base + rendered_messages(here));
            }
        }
        i += 1;
        proof {
            assert(g@.1.subrange(0, m as int) =~= g@.1);
            let here = report@.subrange(0, i as int);
            assert(here.drop_last() =~= report@.subrange(0, i - 1));
            assert(here.last() == report@[i - 1]);
            assert(s@ =~= "# Changelog:\n"@ + rendered_groups(here));
        }
    }
    proof {
        assert(report@.subrange(0, n as int) =~= report@);
    }
    s
}

/// Whether a file name follows the entry-file convention: it carries the
/// `.md` extension, with a non-empty part before it.
pub open spec fn is_md_name(s: Seq<char>) -> bool {
    s.len() > 3 && s[s.len() - 3] == '.' && s[s.len() - 2] == 'm' && s[s.len() - 1] == 'd'
}

/// Decides whether a directory entry's file name belongs to the scan: only
/// names with the `.md` extension are entry files; a name with another
/// extension or none is excluded.
pub fn is_entry_file_name(name: &str) -> (b: bool)
    ensures
        b == is_md_name(name@),
{
    let len = name.unicode_len();
    if len <= 3 {
        return false;
    }
    let c1 = name.get_char(len - 3);
    let c2 = name.get_char(len - 2);
    let c3 = name.get_char(len - 1);
    c1 == '.' && c2 == 'm' && c3 == 'd'
}

} // verus!
