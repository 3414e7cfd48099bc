//! What is shown of the place a task came from.

use int_tasks::knowledge::{read_note_context, task_context, ContextStep, NoteReply};

#[test]
fn a_note_origin_asks_for_the_note() {
    match task_context("knowledge:projects/dbc/plan.md") {
        ContextStep::ReadNote(path) => assert_eq!(path, "projects/dbc/plan.md"),
        other => panic!("{other:?}"),
    }
}

#[test]
fn a_map_is_named_by_its_map() {
    match task_context("mindmap:product-launch-plan#node_3") {
        ContextStep::Ready(c) => {
            assert_eq!(c.kind, "mindmap");
            assert_eq!(c.label, "product launch plan");
            assert!(c.unavailable.is_none());
        },
        other => panic!("{other:?}"),
    }
}

#[test]
fn other_origins_are_shown_as_they_stand() {
    match task_context("ims:DFM-12") {
        ContextStep::Ready(c) => assert_eq!((c.kind.as_str(), c.label.as_str()), ("ims", "DFM-12")),
        other => panic!("{other:?}"),
    }
    match task_context("no scheme here") {
        ContextStep::Ready(c) => assert_eq!((c.kind.as_str(), c.label.as_str()), ("unknown", "no scheme here")),
        other => panic!("{other:?}"),
    }
}

#[test]
fn a_note_is_named_by_its_title_or_its_file() {
    let c = read_note_context("a/b/Weekly review.md", NoteReply::Read(None, "  Notes  ".to_string()));
    assert_eq!(c.label, "Weekly review");
    assert_eq!(c.excerpt, "Notes");
    assert!(!c.truncated);
    let c = read_note_context("a/b/x.md", NoteReply::Read(Some("Plan".to_string()), String::new()));
    assert_eq!(c.label, "Plan");
}

#[test]
fn a_long_note_is_cut_at_a_line_end() {
    let line = "x".repeat(99);
    let body = std::iter::repeat(line.as_str()).take(10).collect::<Vec<_>>().join("\n");
    let c = read_note_context("n.md", NoteReply::Read(None, body));
    assert!(c.truncated);
    // 600 characters hold six whole lines of 99 and their ends.
    assert_eq!(c.excerpt.chars().count(), 6 * 99 + 5);
    assert!(!c.excerpt.ends_with('\n'));
}

#[test]
fn a_missing_note_or_app_is_said_plainly() {
    let c = read_note_context("n.md", NoteReply::NotInstalled);
    assert_eq!(c.unavailable.as_deref(), Some("Intentio Knowledge is not installed."));
    let c = read_note_context("n.md", NoteReply::Failed("note not found: n.md".to_string()));
    assert_eq!(c.unavailable.as_deref(), Some("That note is no longer in the vault."));
    let c = read_note_context("n.md", NoteReply::Failed("timed out".to_string()));
    assert_eq!(c.unavailable.as_deref(), Some("timed out"));
    assert_eq!(c.kind, "knowledge");
    assert_eq!(c.label, "n");
}
