//! Keeping a team folder in step with its remote: reading the folder, each
//! step of a sync, and the schedule.

use int_tasks::git_sync::{
    commit_message_at, receive, status_from, sync, team_path, AutoSync, GitAction, Probe, SyncSettings,
    SyncStatus,
};

fn probe() -> Probe {
    Probe {
        inside_work_tree: true,
        remotes: Some("origin".to_string()),
        head: Some("main".to_string()),
        porcelain: Some(" M max/tasks.jsonl".to_string()),
        counts: Some("3\t5".to_string()),
        in_progress: false,
    }
}

fn clean_status(dirty: bool) -> SyncStatus {
    SyncStatus {
        is_repo: true,
        has_remote: true,
        branch: Some("main".to_string()),
        dirty,
        ahead: 0,
        behind: 0,
        blocked: None,
    }
}

#[test]
fn a_folder_outside_git_is_not_a_repository() {
    let status = status_from(&Probe { inside_work_tree: false, ..probe() });
    assert!(!status.is_repo && !status.has_remote && !status.dirty);
    assert_eq!((status.ahead, status.behind), (0, 0));
    assert!(status.blocked.is_none());
}

#[test]
fn counts_are_read_behind_then_ahead() {
    let status = status_from(&probe());
    assert!(status.is_repo && status.has_remote && status.dirty);
    assert_eq!(status.branch.as_deref(), Some("main"));
    assert_eq!(status.behind, 3);
    assert_eq!(status.ahead, 5);
    assert!(status.blocked.is_none());
}

#[test]
fn unreadable_counts_are_zero() {
    let status = status_from(&Probe { counts: Some("x y".to_string()), ..probe() });
    assert_eq!((status.behind, status.ahead), (0, 0));
    let status = status_from(&Probe { counts: Some("  7".to_string()), ..probe() });
    assert_eq!((status.behind, status.ahead), (7, 0));
}

#[test]
fn a_folder_part_way_through_a_rebase_is_blocked() {
    let status = status_from(&Probe { in_progress: true, ..probe() });
    assert_eq!(status.blocked.as_deref(), Some("A rebase or merge is already in progress here."));
    let status = status_from(&Probe { remotes: Some(String::new()), ..probe() });
    assert_eq!(status.blocked.as_deref(), Some("This folder has no Git remote to sync with."));
}

#[test]
fn the_commit_subject_carries_the_time_and_what_changed() {
    let (subject, body) = commit_message_at("max/notes/plan.md\n", "2026-08-01 10:00");
    assert_eq!(subject, "Task sync 2026-08-01 10:00 \u{2014} plan");
    assert_eq!(body, "max/notes/plan.md");

    let (subject, body) = commit_message_at("a.jsonl\r\n\nb/c.md\n", "2026-08-01 10:00");
    assert_eq!(subject, "Task sync 2026-08-01 10:00 \u{2014} 2 files");
    assert_eq!(body, "a.jsonl\nb/c.md");

    let (subject, body) = commit_message_at("", "2026-08-01 10:00");
    assert_eq!(subject, "Task sync 2026-08-01 10:00");
    assert_eq!(body, "");

    let (subject, _) = commit_message_at("x.md.md", "t");
    assert_eq!(subject, "Task sync t \u{2014} x");
}

#[test]
fn a_receive_never_commits() {
    let mut run = receive();
    assert!(matches!(run.inspected(&clean_status(true), false), GitAction::ReadEmail));
    assert!(matches!(run.email_read(Ok("me@example.com".to_string())), GitAction::Pull));
}

#[test]
fn a_sync_commits_pulls_and_pushes() {
    let mut run = sync();
    assert!(matches!(run.inspected(&clean_status(true), false), GitAction::ReadEmail));
    assert!(matches!(run.email_read(Ok("me@example.com".to_string())), GitAction::StageAll));
    assert!(matches!(run.staged(Ok(String::new())), GitAction::ListStaged));
    match run.listed(Ok("max/tasks.jsonl".to_string())) {
        GitAction::Commit(subject, body) => {
            assert!(subject.starts_with("Task sync "), "{subject}");
            assert!(subject.ends_with(" \u{2014} tasks.jsonl"), "{subject}");
            assert_eq!(body, "max/tasks.jsonl");
        },
        other => panic!("{other:?}"),
    }
    assert!(matches!(run.committed(Ok(String::new())), GitAction::Pull));
    assert!(matches!(run.pulled(Ok("Already up to date.".to_string())), GitAction::Recount));
    assert!(matches!(run.recounted(1), GitAction::Push));
    match run.pushed(Ok(String::new())) {
        GitAction::Finish(outcome) => {
            assert!(outcome.changed);
            assert_eq!(outcome.message, "Synced");
            assert!(outcome.blocked.is_none());
        },
        other => panic!("{other:?}"),
    }
}

#[test]
fn nothing_to_do_is_said_plainly() {
    let mut run = receive();
    run.inspected(&clean_status(false), false);
    run.email_read(Ok(String::new()));
    run.pulled(Ok("Already up to date.".to_string()));
    match run.recounted(0) {
        GitAction::Finish(outcome) => {
            assert!(!outcome.changed);
            assert_eq!(outcome.message, "Already up to date");
        },
        other => panic!("{other:?}"),
    }
}

#[test]
fn a_conflict_is_aborted_and_never_resolved() {
    let mut run = sync();
    run.inspected(&clean_status(false), false);
    run.email_read(Ok(String::new()));
    assert!(matches!(run.pulled(Err("CONFLICT".to_string())), GitAction::CheckInProgress));
    assert!(matches!(run.conflict_checked(true), GitAction::AbortRebase));
    match run.aborted() {
        GitAction::Finish(outcome) => {
            assert!(!outcome.changed);
            assert!(outcome.message.starts_with("The same note was changed in both places."));
            assert_eq!(outcome.blocked, Some(outcome.message.clone()));
        },
        other => panic!("{other:?}"),
    }
}

#[test]
fn failures_say_which_step_failed() {
    let mut run = sync();
    run.inspected(&clean_status(false), false);
    run.email_read(Ok(String::new()));
    run.pulled(Err("network down".to_string()));
    match run.conflict_checked(false) {
        GitAction::Finish(outcome) => assert_eq!(outcome.message, "Could not pull: network down"),
        other => panic!("{other:?}"),
    }
    let mut run = sync();
    match run.email_read(Err(String::new())) {
        GitAction::Finish(outcome) => assert_eq!(
            outcome.message,
            "Git has no user.email set, so it cannot commit. Set one and try again."
        ),
        other => panic!("{other:?}"),
    }
}

#[test]
fn a_folder_that_cannot_sync_is_left_alone() {
    let mut run = sync();
    let not_repo = SyncStatus { is_repo: false, ..clean_status(true) };
    match run.inspected(&not_repo, false) {
        GitAction::Finish(outcome) => assert_eq!(outcome.message, "This folder is not a Git repository."),
        other => panic!("{other:?}"),
    }
    let mut run = sync();
    match run.inspected(&clean_status(true), true) {
        GitAction::Finish(outcome) => assert_eq!(
            outcome.message,
            "A rebase or merge is in progress. Sync paused until it is finished."
        ),
        other => panic!("{other:?}"),
    }
}

#[test]
fn commits_wait_for_the_writing_to_stop() {
    let mut auto = AutoSync::new(10_000);
    // Nothing fetched for an hour: a receive is due at once.
    assert_eq!(auto.observe(10_000, true, 180, ""), Some(false));
    auto.synced(10_000, false);
    // A change just made: not yet.
    assert_eq!(auto.observe(10_010, true, 180, " M a"), None);
    // Two minutes of stillness: commit.
    assert_eq!(auto.observe(10_130, true, 180, " M a"), Some(true));
    auto.synced(10_130, true);
    // Switched off: nothing.
    assert_eq!(auto.observe(20_000, false, 180, " M a"), None);
}

#[test]
fn a_long_session_is_committed_before_it_ends() {
    let mut auto = AutoSync::new(10_000);
    auto.synced(10_000, false);
    let mut now = 10_000;
    let mut committed = false;
    while now <= 10_000 + 1_800 {
        // The output changes every minute: never still for two.
        let current = format!(" M a{}", now);
        if auto.observe(now, true, 100_000, &current) == Some(true) {
            committed = true;
            break;
        }
        now += 60;
    }
    assert!(committed, "half an hour of edits must be committed");
}

#[test]
fn sync_is_off_until_asked_for() {
    let settings = SyncSettings::default();
    assert!(!settings.enabled);
    assert_eq!(settings.interval_seconds, 180);
    assert_eq!(team_path("/teams/intentio"), "/teams/intentio");
}

#[test]
fn sync_is_never_more_often_than_once_a_minute() {
    let current = SyncSettings { enabled: false, interval_seconds: 900 };
    let on = SyncSettings::turned(true, None, &current);
    assert!(on.enabled);
    assert_eq!(on.interval_seconds, 900, "no interval given keeps the old one");
    assert_eq!(SyncSettings::turned(true, Some(5), &current).interval_seconds, 60);
    assert_eq!(SyncSettings::turned(false, Some(120), &current).interval_seconds, 120);
}
