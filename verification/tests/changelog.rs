use changelog::aggregate::{aggregate, is_entry_file_name, parse, render_report, EntryFile, Report};
use changelog::entry::{
    generate_changelog_entry_file_name, plan_write, render_text, ChangelogError, Entry, EntryType,
};

fn entry(t: EntryType, message: &str, mr: Option<u32>, issue: Option<u32>) -> Entry {
    Entry {
        entry_type: t,
        message: message.to_string(),
        mr_number: mr,
        issue_number: issue,
    }
}

fn file(name: &str, content: &str) -> EntryFile {
    EntryFile {
        name: name.to_string(),
        content: content.to_string(),
    }
}

#[test]
fn category_names() {
    assert_eq!(EntryType::Added.name(), "Added");
    assert_eq!(EntryType::Changed.name(), "Changed");
    assert_eq!(EntryType::Deprecated.name(), "Deprecated");
    assert_eq!(EntryType::Removed.name(), "Removed");
    assert_eq!(EntryType::Fixed.name(), "Fixed");
    assert_eq!(EntryType::Security.name(), "Security");
}

#[test]
fn render_without_numbers_has_no_suffix() {
    let e = entry(EntryType::Added, "Support foo", None, None);
    assert_eq!(render_text(&e), "Added: Support foo");
}

#[test]
fn render_with_mr_only() {
    let e = entry(EntryType::Fixed, "Bar", Some(5), None);
    assert_eq!(
        render_text(&e),
        "Fixed: Bar [[MR-!5](http://gitlab/repo/-/merge_requests//5)]"
    );
}

#[test]
fn render_with_issue_only() {
    let e = entry(EntryType::Security, "Seal it", None, Some(7));
    assert_eq!(
        render_text(&e),
        "Security: Seal it [[ISSUE-#7](http://gitlab/repo/-/issues/7)]"
    );
}

#[test]
fn render_mr_link_precedes_issue_link() {
    let e = entry(EntryType::Fixed, "Bar", Some(5), Some(7));
    let text = render_text(&e);
    assert_eq!(
        text,
        "Fixed: Bar [[MR-!5](http://gitlab/repo/-/merge_requests//5)] \
         [[ISSUE-#7](http://gitlab/repo/-/issues/7)]"
    );
    let mr_pos = text.find("[MR-!5]").unwrap();
    let issue_pos = text.find("[ISSUE-#7]").unwrap();
    assert!(mr_pos < issue_pos);
}

#[test]
fn render_decimal_numbers_exactly() {
    let e = entry(EntryType::Added, "n", Some(0), Some(4294967295));
    assert_eq!(
        render_text(&e),
        "Added: n [[MR-!0](http://gitlab/repo/-/merge_requests//0)] \
         [[ISSUE-#4294967295](http://gitlab/repo/-/issues/4294967295)]"
    );
}

#[test]
fn file_name_plain_message() {
    let e = entry(EntryType::Fixed, "Fix bug", None, None);
    assert_eq!(generate_changelog_entry_file_name(&e), "Fix_bug.md");
}

#[test]
fn file_name_with_both_numbers() {
    let e = entry(EntryType::Fixed, "a b\tc", Some(34), Some(12));
    assert_eq!(generate_changelog_entry_file_name(&e), "IN12_MR34_a_b_c.md");
}

#[test]
fn file_name_keeps_non_whitespace() {
    let e = entry(EntryType::Changed, "Fix: bug!", None, None);
    assert_eq!(generate_changelog_entry_file_name(&e), "Fix:_bug!.md");
}

#[test]
fn file_name_each_whitespace_char_becomes_one_underscore() {
    let e = entry(EntryType::Changed, "a  b\nc", None, None);
    assert_eq!(generate_changelog_entry_file_name(&e), "a__b_c.md");
}

#[test]
fn file_name_mr_only() {
    let e = entry(EntryType::Added, "x", Some(9), None);
    assert_eq!(generate_changelog_entry_file_name(&e), "MR9_x.md");
}

#[test]
fn file_name_issue_only() {
    let e = entry(EntryType::Added, "x", None, Some(3));
    assert_eq!(generate_changelog_entry_file_name(&e), "IN3_x.md");
}

#[test]
fn plan_write_free_name_succeeds() {
    let e = entry(EntryType::Added, "New thing", None, None);
    let existing = vec!["Other.md".to_string()];
    assert_eq!(plan_write(&e, &existing), Ok("New_thing.md".to_string()));
}

#[test]
fn plan_write_second_identical_write_conflicts() {
    let e = entry(EntryType::Added, "New thing", Some(1), Some(2));
    let mut existing: Vec<String> = Vec::new();
    let first = plan_write(&e, &existing).unwrap();
    assert_eq!(first, "IN2_MR1_New_thing.md");
    existing.push(first.clone());
    let second = plan_write(&e, &existing);
    assert_eq!(second, Err(ChangelogError::AlreadyExists));
    assert_eq!(existing.iter().filter(|n| **n == first).count(), 1);
    assert_eq!(existing.len(), 1);
}

#[test]
fn parse_splits_on_first_separator() {
    assert_eq!(
        parse("Added: Support foo"),
        Ok(("Added".to_string(), "Support foo".to_string()))
    );
    assert_eq!(parse("A: b: c"), Ok(("A".to_string(), "b: c".to_string())));
    assert_eq!(parse(": x"), Ok(("".to_string(), "x".to_string())));
}

#[test]
fn parse_without_separator_is_format_error() {
    assert_eq!(parse("no colon here"), Err(ChangelogError::FormatError));
    assert_eq!(parse(""), Err(ChangelogError::FormatError));
    assert_eq!(parse("x:"), Err(ChangelogError::FormatError));
    assert_eq!(parse("x :y"), Err(ChangelogError::FormatError));
}

#[test]
fn parse_round_trips_rendered_text() {
    let e = entry(EntryType::Deprecated, "Old knob", Some(8), Some(21));
    let text = render_text(&e);
    let (category, message) = parse(&text).unwrap();
    assert_eq!(category, "Deprecated");
    assert_eq!(
        message,
        "Old knob [[MR-!8](http://gitlab/repo/-/merge_requests//8)] \
         [[ISSUE-#21](http://gitlab/repo/-/issues/21)]"
    );
}

#[test]
fn aggregate_two_categories_first_seen_order() {
    let files = vec![
        file("a.md", "Added: Support foo"),
        file("b.md", "Fixed: Bar baz"),
    ];
    let (report, skipped) = aggregate(&files);
    assert!(skipped.is_empty());
    assert_eq!(report.groups.len(), 2);
    assert_eq!(report.groups[0].category, "Added");
    assert_eq!(report.groups[0].messages, vec!["Support foo".to_string()]);
    assert_eq!(report.groups[1].category, "Fixed");
    assert_eq!(report.groups[1].messages, vec!["Bar baz".to_string()]);
}

#[test]
fn aggregate_skips_malformed_file_with_diagnostic() {
    let files = vec![file("good.md", "Added: ok"), file("bad.md", "no colon here")];
    let (report, skipped) = aggregate(&files);
    assert_eq!(report.groups.len(), 1);
    assert_eq!(report.groups[0].category, "Added");
    assert_eq!(report.groups[0].messages, vec!["ok".to_string()]);
    assert_eq!(skipped, vec!["bad.md".to_string()]);
}

#[test]
fn aggregate_groups_same_category_in_scan_order() {
    let files = vec![
        file("1.md", "Fixed: first"),
        file("2.md", "Added: in between"),
        file("3.md", "Fixed: second"),
    ];
    let (report, skipped) = aggregate(&files);
    assert!(skipped.is_empty());
    assert_eq!(report.groups.len(), 2);
    assert_eq!(report.groups[0].category, "Fixed");
    assert_eq!(
        report.groups[0].messages,
        vec!["first".to_string(), "second".to_string()]
    );
    assert_eq!(report.groups[1].category, "Added");
    assert_eq!(report.groups[1].messages, vec!["in between".to_string()]);
}

#[test]
fn aggregate_matches_labels_exactly() {
    let files = vec![file("a.md", "Added: one"), file("b.md", "added: two")];
    let (report, _) = aggregate(&files);
    assert_eq!(report.groups.len(), 2);
    assert_eq!(report.groups[0].category, "Added");
    assert_eq!(report.groups[1].category, "added");
}

#[test]
fn aggregate_empty_directory() {
    let files: Vec<EntryFile> = Vec::new();
    let (report, skipped) = aggregate(&files);
    assert!(report.groups.is_empty());
    assert!(skipped.is_empty());
}

#[test]
fn render_report_document() {
    let files = vec![
        file("a.md", "Added: Support foo"),
        file("b.md", "Fixed: Bar baz"),
    ];
    let (report, _) = aggregate(&files);
    assert_eq!(
        render_report(&report),
        "# Changelog:\n## Added: \n * Support foo\n## Fixed: \n * Bar baz\n"
    );
}

#[test]
fn render_report_empty() {
    let report = Report { groups: Vec::new() };
    assert_eq!(render_report(&report), "# Changelog:\n");
}

#[test]
fn scan_filter_takes_only_md_extension() {
    assert!(is_entry_file_name("entry.md"));
    assert!(!is_entry_file_name("entry.txt"));
    assert!(!is_entry_file_name("entry"));
}

#[test]
fn scan_filter_edge_names() {
    assert!(!is_entry_file_name(".md"));
    assert!(!is_entry_file_name("md"));
    assert!(!is_entry_file_name(""));
    assert!(is_entry_file_name("a.md"));
    assert!(is_entry_file_name("a.b.md"));
    assert!(!is_entry_file_name("entry.MD"));
    assert!(!is_entry_file_name("entrymd"));
}
