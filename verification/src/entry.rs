//! One changelog entry: its category, its canonical rendered text, the
//! deterministic file name it is stored under, and the decision whether a
//! write may proceed against the file names already present.

use crate::strutil::{
    char_is_whitespace, dec_seq, is_whitespace_char, push_char, u32_to_string,
};
use vstd::prelude::*;
use vstd::string::StringExecFns;

verus! {

/// The closed set of change categories.
#[derive(Copy, Clone, Debug, PartialEq, Eq, Structural)]
pub enum EntryType {
    Added,
    Changed,
    Deprecated,
    Removed,
    Fixed,
    Security,
}

/// One changelog entry, as handed in by a caller: a category, a free-text
/// message, and optional merge-request and issue references.
pub struct Entry {
    pub entry_type: EntryType,
    pub message: String,
    pub mr_number: Option<u32>,
    pub issue_number: Option<u32>,
}

/// Errors of the write and aggregation operations.
#[derive(Copy, Clone, Debug, PartialEq, Eq, Structural)]
pub enum ChangelogError {
    /// The target entry file name is already occupied.
    AlreadyExists,
    /// An underlying file-system operation failed.
    IoFailure,
    /// The entry directory could not be listed.
    DirectoryUnreadable,
    /// An entry file's content lacks the category/message separator.
    FormatError,
}

/// The human-readable name of a category.
pub open spec fn category_name(t: EntryType) -> Seq<char> {
    match t {
        EntryType::Added => "Added"@,
        EntryType::Changed => "Changed"@,
        EntryType::Deprecated => "Deprecated"@,
        EntryType::Removed => "Removed"@,
        EntryType::Fixed => "Fixed"@,
        EntryType::Security => "Security"@,
    }
}

/// The merge-request link suffix for a present `mr_number`.
pub open spec fn mr_link(n: u32) -> Seq<char> {
    " [[MR-!"@ + dec_seq(n as nat) + "]("@ + "http://gitlab/repo/-/merge_requests/"@ + "/"@
        + dec_seq(n as nat) + ")]"@
}

/// The issue link suffix for a present `issue_number`.
pub open spec fn issue_link(n: u32) -> Seq<char> {
    " [[ISSUE-#"@ + dec_seq(n as nat) + "]("@ + "http://gitlab/repo/-/issues/"@ + dec_seq(n as nat)
        + ")]"@
}

pub open spec fn mr_suffix(mr: Option<u32>) -> Seq<char> {
    match mr {
        Some(n) => mr_link(n),
        None => Seq::empty(),
    }
}

pub open spec fn issue_suffix(issue: Option<u32>) -> Seq<char> {
    match issue {
        Some(n) => issue_link(n),
        None => Seq::empty(),
    }
}

/// The canonical single-line text of an entry: the category name, the literal
/// separator, the message, then the optional merge-request link followed by
/// the optional issue link.
pub open spec fn rendered_text(
    t: EntryType,
    msg: Seq<char>,
    mr: Option<u32>,
    issue: Option<u32>,
) -> Seq<char> {
    category_name(t) + ": "@ + msg + mr_suffix(mr) + issue_suffix(issue)
}

impl EntryType {
    /// The human-readable category name.
    pub fn name(&self) -> (s: String)
        ensures
            s@ == category_name(*self),
    {
        match self {
            EntryType::Added => "Added".to_owned(),
            EntryType::Changed => "Changed".to_owned(),
            EntryType::Deprecated => "Deprecated".to_owned(),
            EntryType::Removed => "Removed".to_owned(),
            EntryType::Fixed => "Fixed".to_owned(),
            EntryType::Security => "Security".to_owned(),
        }
    }
}

/// Renders the canonical text of one entry: `"<TypeName>: <message>"`, then
/// the merge-request link if present, then the issue link if present.
pub fn render_text(entry: &Entry) -> (s: String)
    ensures
        s@ == rendered_text(entry.entry_type, entry.message@, entry.mr_number, entry.issue_number),
{
    let mut s = entry.entry_type.name();
    s.append(": ");
    s.append(entry.message.as_str());
    if let Some(n) = entry.mr_number {
        let num = u32_to_string(n);
        s.append(" [[MR-!");
        s.append(num.as_str());
        s.append("](");
        s.append("http://gitlab/repo/-/merge_requests/");
        s.append("/");
        s.append(num.as_str());
        s.append(")]");
    }
    if let Some(n) = entry.issue_number {
        let num = u32_to_string(n);
        s.append(" [[ISSUE-#");
        s.append(num.as_str());
        s.append("](");
        s.append("http://gitlab/repo/-/issues/");
        s.append(num.as_str());
        s.append(")]");
    }
    proof {
        assert(s@ =~= rendered_text(
            entry.entry_type,
            entry.message@,
            entry.mr_number,
            entry.issue_number,
        ));
    }
    s
}

/// The message with every whitespace character replaced by an underscore;
/// every non-whitespace character is kept as it is.
pub open spec fn transformed(msg: Seq<char>) -> Seq<char> {
    msg.map_values(
        |c: char|
            if is_whitespace_char(c) {
                '_'
            } else {
                c
            },
    )
}

/// The `"IN<issue>_"` file-name prefix for a present issue number.
pub open spec fn issue_prefix(issue: Option<u32>) -> Seq<char> {
    match issue {
        Some(n) => "IN"@ + dec_seq(n as nat) + "_"@,
        None => Seq::empty(),
    }
}

/// The `"MR<mr>_"` file-name prefix for a present merge-request number.
pub open spec fn mr_prefix(mr: Option<u32>) -> Seq<char> {
    match mr {
        Some(n) => "MR"@ + dec_seq(n as nat) + "_"@,
        None => Seq::empty(),
    }
}

/// The deterministic file name of an entry: the issue prefix if present, the
/// merge-request prefix if present, the whitespace-transformed message, and
/// the fixed `.md` extension.
pub open spec fn file_name(msg: Seq<char>, mr: Option<u32>, issue: Option<u32>) -> Seq<char> {
    issue_prefix(issue) + mr_prefix(mr) + transformed(msg) + ".md"@
}

/// Synthesizes the file name an entry is stored under.
pub fn generate_changelog_entry_file_name(entry: &Entry) -> (name: String)
    ensures
        name@ == file_name(entry.message@, entry.mr_number, entry.issue_number),
{
    let mut name = String::new();
    if let Some(n) = entry.issue_number {
        name.append("IN");
        let num = u32_to_string(n);
        name.append(num.as_str());
        name.append("_");
    }
    if let Some(n) = entry.mr_number {
        name.append("MR");
        let num = u32_to_string(n);
        name.append(num.as_str());
        name.append("_");
    }
    let ghost prefix = name@;
    proof {
        assert(prefix =~= issue_prefix(entry.issue_number) + mr_prefix(entry.mr_number));
    }
    let msg = entry.message.as_str();
    let len = msg.unicode_len();
    let mut i: usize = 0;
    while i < len
        invariant
            len == msg@.len(),
            i <= len,
            msg@ == entry.message@,
            name@ == prefix + transformed(msg@.subrange(0, i as int)),
        decreases len - i,
    {
        let c = msg.get_char(i);
        if char_is_whitespace(c) {
            push_char(&mut name, '_');
        } else {
            push_char(&mut name, c);
        }
        i += 1;
        proof {
            assert(msg@.subrange(0, i as int) =~= msg@.subrange(0, i - 1 as int).push(
                msg@[i - 1 as int],
            ));
            assert(transformed(msg@.subrange(0, i as int)) =~= transformed(
                msg@.subrange(0, i - 1 as int),
            ).push(
                if is_whitespace_char(msg@[i - 1 as int]) {
                    '_'
                } else {
                    msg@[i - 1 as int]
                },
            ));
            assert(name@ =~= prefix + transformed(msg@.subrange(0, i as int)));
        }
    }
    proof {
        assert(msg@.subrange(0, len as int) =~= msg@);
    }
    name.append(".md");
    proof {
        assert(name@ =~= file_name(entry.message@, entry.mr_number, entry.issue_number));
    }
    name
}

/// Whether `name` already occurs among the existing file names.
pub open spec fn name_taken(name: Seq<char>, existing: Seq<Seq<char>>) -> bool {
    exists|j: int| 0 <= j < existing.len() && existing[j] == name
}

/// Decides one write attempt against the file names already present in the
/// target directory: returns the synthesized file name when it is free, and
/// `AlreadyExists` when it is occupied. The caller performs the actual file
/// creation.
pub fn plan_write(entry: &Entry, existing: &Vec<String>) -> (r: Result<String, ChangelogError>)
    ensures
        name_taken(
            file_name(entry.message@, entry.mr_number, entry.issue_number),
            existing.deep_view(),
        ) ==> r == Err::<String, ChangelogError>(ChangelogError::AlreadyExists),
        !name_taken(
            file_name(entry.message@, entry.mr_number, entry.issue_number),
            existing.deep_view(),
        ) ==> r is Ok && r->Ok_0@ == file_name(entry.message@, entry.mr_number, entry.issue_number),
{
    let name = generate_changelog_entry_file_name(entry);
    let mut j: usize = 0;
    while j < existing.len()
        invariant
            j <= existing.len(),
            name@ == file_name(entry.message@, entry.mr_number, entry.issue_number),
            forall|k: int| 0 <= k < j ==> existing.deep_view()[k] != name@,
        decreases existing.len() - j,
    {
        if existing[j] == name {
            assert(existing.deep_view()[j as int] == name@);
            return Err(ChangelogError::AlreadyExists);
        }
        j += 1;
    }
    Ok(name)
}

} // verus!
