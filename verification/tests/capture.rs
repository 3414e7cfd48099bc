//! The capture convention: what a typed line is read as.

use int_tasks::capture::{parse, resolve_due};


fn parsed(input: &str) -> (String, Option<String>, Vec<String>) {
    let captured = parse(input);
    (captured.title, captured.project, captured.tags)
}

#[test]
fn the_whole_convention_reads_as_one_line() {
    let captured = parse("(stm) [chore] clean up the login page @vernon due:2026-09-01");
    assert_eq!(captured.title, "clean up the login page");
    assert_eq!(captured.project.as_deref(), Some("stm"));
    assert_eq!(captured.tags, vec!["chore"]);
    assert_eq!(captured.owner.as_deref(), Some("vernon"));
    assert_eq!(captured.due.as_deref(), Some("2026-09-01"));
}

#[test]
fn owner_and_due_may_be_written_in_either_order() {
    let captured = parse("ship the release due:2026-09-01 @max");
    assert_eq!(captured.title, "ship the release");
    assert_eq!(captured.owner.as_deref(), Some("max"));
    assert_eq!(captured.due.as_deref(), Some("2026-09-01"));
}

#[test]
fn either_trailing_marker_is_optional() {
    let owned = parse("review the contract @vernon");
    assert_eq!(owned.title, "review the contract");
    assert_eq!(owned.owner.as_deref(), Some("vernon"));
    assert_eq!(owned.due, None);

    let dated = parse("review the contract due:2026-09-01");
    assert_eq!(dated.title, "review the contract");
    assert_eq!(dated.due.as_deref(), Some("2026-09-01"));
    assert_eq!(dated.owner, None);
}

#[test]
fn scores_are_read_long_or_short() {
    let long = parse("rewrite the importer impact:8 effort:3");
    assert_eq!(long.title, "rewrite the importer");
    assert_eq!(long.impact, Some(8));
    assert_eq!(long.effort, Some(3));

    let short = parse("rewrite the importer i:8 e:3");
    assert_eq!(short.title, "rewrite the importer");
    assert_eq!((short.impact, short.effort), (Some(8), Some(3)));
}

#[test]
fn the_whole_line_reads_together() {
    let c = parse("(stm) [chore] clean up the login page @vernon due:tomorrow i:8 e:3");
    assert_eq!(c.title, "clean up the login page");
    assert_eq!(c.project.as_deref(), Some("stm"));
    assert_eq!(c.tags, vec!["chore"]);
    assert_eq!(c.owner.as_deref(), Some("vernon"));
    assert_eq!(c.due.as_deref(), Some("tomorrow"));
    assert_eq!((c.impact, c.effort), (Some(8), Some(3)));
}

#[test]
fn a_score_outside_the_scale_is_not_a_score() {
    // 0 and 11 are typos, not opinions. They stay in the title.
    for line in ["ship it i:0", "ship it i:11", "ship it e:99", "ship it i:high"] {
        let c = parse(line);
        assert_eq!(c.title, line, "{line} should be left alone");
        assert_eq!((c.impact, c.effort), (None, None));
    }
}

#[test]
fn relative_due_dates_are_accepted_and_resolved_by_the_caller() {
    assert_eq!(parse("ship it due:today").due.as_deref(), Some("today"));
    assert_eq!(parse("ship it due:tomorrow").due.as_deref(), Some("tomorrow"));
    assert_eq!(parse("ship it due:+10").due.as_deref(), Some("+10"));

    assert_eq!(resolve_due("today", "2026-08-28").as_deref(), Some("2026-08-28"));
    assert_eq!(resolve_due("tomorrow", "2026-08-28").as_deref(), Some("2026-08-29"));
    assert_eq!(resolve_due("+4", "2026-08-28").as_deref(), Some("2026-09-01"), "crosses the month");
    assert_eq!(resolve_due("2026-12-25", "2026-08-28").as_deref(), Some("2026-12-25"));
}

#[test]
fn a_due_that_is_not_a_date_stays_in_the_title() {
    for line in ["renew it due:soon", "renew it due:2026-13-45", "renew it due:next-week"] {
        assert_eq!(parse(line).title, line);
        assert_eq!(parse(line).due, None);
    }
}

#[test]
fn an_address_in_the_middle_of_a_line_is_left_alone() {
    // The reason owner is read from the end and not from anywhere.
    let captured = parse("email max@intentio.co.za about the invoice");
    assert_eq!(captured.title, "email max@intentio.co.za about the invoice");
    assert_eq!(captured.owner, None);
}

#[test]
fn a_trailing_address_is_not_mistaken_for_an_owner() {
    let captured = parse("chase the invoice with accounts@acme.com");
    assert_eq!(captured.title, "chase the invoice with accounts@acme.com");
    assert_eq!(captured.owner, None);
}

#[test]
fn a_due_date_has_to_be_a_date() {
    // "soon" is prose, and reading it as a date would be a guess.
    let captured = parse("renew the certificate due:soon");
    assert_eq!(captured.title, "renew the certificate due:soon");
    assert_eq!(captured.due, None);

    let impossible = parse("renew the certificate due:2026-13-45");
    assert_eq!(impossible.title, "renew the certificate due:2026-13-45");
    assert_eq!(impossible.due, None);
}

#[test]
fn a_second_owner_stays_in_the_title() {
    // Same rule as a second project: a strange title beats a lost word.
    let captured = parse("pair on the migration @max @vernon");
    assert_eq!(captured.owner.as_deref(), Some("vernon"));
    assert_eq!(captured.title, "pair on the migration @max");
}

#[test]
fn a_line_of_nothing_but_markers_is_kept_as_typed() {
    let captured = parse("(stm) @vernon due:2026-09-01");
    assert_eq!(captured.title, "(stm) @vernon due:2026-09-01");
    assert_eq!(captured.owner, None);
    assert_eq!(captured.due, None);
}

#[test]
fn an_owner_may_be_written_however_the_team_writes_names() {
    let captured = parse("draft the SOW @Vernon.vd");
    assert_eq!(captured.owner.as_deref(), Some("Vernon.vd"));
}

#[test]
fn the_convention_is_read_in_full() {
    let (title, project, tags) = parsed("(stm) [chore] clean up the front end login page");
    assert_eq!(title, "clean up the front end login page");
    assert_eq!(project.as_deref(), Some("stm"));
    assert_eq!(tags, vec!["chore"]);
}

#[test]
fn either_order_works() {
    let (title, project, tags) = parsed("[bug] (acme) the export hangs");
    assert_eq!(title, "the export hangs");
    assert_eq!(project.as_deref(), Some("acme"));
    assert_eq!(tags, vec!["bug"]);
}

#[test]
fn each_marker_is_optional() {
    assert_eq!(parsed("(stm) ship it"), ("ship it".into(), Some("stm".into()), vec![]));
    assert_eq!(parsed("[chore] ship it"), ("ship it".into(), None, vec!["chore".to_string()]));
    assert_eq!(parsed("ship it"), ("ship it".into(), None, vec![]));
}

#[test]
fn several_tags_are_all_kept() {
    let (title, _, tags) = parsed("(stm) [chore] [urgent] rotate the keys");
    assert_eq!(title, "rotate the keys");
    assert_eq!(tags, vec!["chore", "urgent"]);
}

#[test]
fn spacing_is_not_required() {
    let (title, project, tags) = parsed("(stm)[chore]clean up");
    assert_eq!(title, "clean up");
    assert_eq!(project.as_deref(), Some("stm"));
    assert_eq!(tags, vec!["chore"]);
}

#[test]
fn markers_are_only_read_at_the_start() {
    // Mid-sentence brackets are prose and must survive untouched.
    let (title, project, tags) = parsed("explain the (stm) rollout [later]");
    assert_eq!(title, "explain the (stm) rollout [later]");
    assert_eq!(project, None);
    assert!(tags.is_empty());
}

#[test]
fn a_parenthesised_phrase_is_not_a_project() {
    let (title, project, _) = parsed("(see note) follow up with the client");
    assert_eq!(title, "(see note) follow up with the client");
    assert_eq!(project, None);
}

#[test]
fn an_unclosed_bracket_is_left_alone() {
    let (title, project, _) = parsed("(stm clean up the login page");
    assert_eq!(title, "(stm clean up the login page");
    assert_eq!(project, None);
}

#[test]
fn a_second_project_stays_in_the_title() {
    // Better a strange title than a quietly discarded word.
    let (title, project, _) = parsed("(stm) (acme) shared migration");
    assert_eq!(project.as_deref(), Some("stm"));
    assert_eq!(title, "(acme) shared migration");
}

#[test]
fn markers_alone_are_kept_as_the_title() {
    // There would otherwise be nothing to identify the task by.
    let (title, project, tags) = parsed("(stm) [chore]");
    assert_eq!(title, "(stm) [chore]");
    assert_eq!(project, None);
    assert!(tags.is_empty());
}

#[test]
fn a_repeated_tag_is_only_recorded_once() {
    let (_, _, tags) = parsed("[chore] [Chore] tidy up");
    assert_eq!(tags, vec!["chore"]);
}

#[test]
fn case_and_length_are_the_users_business() {
    // Nothing here enforces three letters: the convention is the user's, and
    // a task typed `(intentio)` should not lose its project.
    let (_, project, _) = parsed("(Intentio) write the release notes");
    assert_eq!(project.as_deref(), Some("Intentio"));
}

#[test]
fn a_tag_repeated_further_on_is_still_recorded_once() {
    let (title, _, tags) = parsed("[chore] [bug] [Chore] tidy up");
    assert_eq!(tags, vec!["chore", "bug"]);
    assert_eq!(title, "tidy up");
}

#[test]
fn a_due_date_that_does_not_exist_stays_in_the_title() {
    let captured = parse("pay rent due:2026-02-30");
    assert_eq!(captured.due, None);
    assert_eq!(captured.title, "pay rent due:2026-02-30");
    assert_eq!(parse("pay rent due:2024-02-29").due.as_deref(), Some("2024-02-29"));
}
