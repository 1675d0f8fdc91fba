use localgpt_md::doc::Doc;
use localgpt_md::watch::{changed_sections, DocSource};

const TEXT: &str = "## A\n\nalpha\n\n## B\n\nbeta\n";

#[test]
fn unchanged_reload_changes_nothing() {
    let doc = Doc::parse(TEXT, "t");
    assert_eq!(changed_sections(&doc, &Doc::parse(TEXT, "t")), 0);
}

#[test]
fn editing_one_section_changes_one() {
    let old = Doc::parse(TEXT, "t");
    let new = Doc::parse(&TEXT.replace("beta", "gamma"), "t");
    assert_eq!(changed_sections(&old, &new), 1);
}

#[test]
fn added_sections_count_as_changed() {
    let old = Doc::parse(TEXT, "t");
    let new = Doc::parse(&format!("{TEXT}\n## C\n\ngamma\n"), "t");
    assert_eq!(changed_sections(&old, &new), 1);
    assert_eq!(changed_sections(&Doc::parse("", "t"), &new), 3);
}

#[test]
fn poll_reloads_once_per_change() {
    let mut source = DocSource::new("doc.md".to_string(), Some(100));
    assert!(!source.poll(Some(100)));
    assert!(!source.poll(None)); // missing mid-save
    assert_eq!(source.modified, Some(100));
    assert!(source.poll(Some(250)));
    assert_eq!(source.modified, Some(250));
    assert!(!source.poll(Some(250)));
    assert_eq!(source.path, "doc.md");
    let mut unread = DocSource::new("new.md".to_string(), None);
    assert!(unread.poll(Some(-5)));
    assert_eq!(unread.modified, Some(-5));
}
