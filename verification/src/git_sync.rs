//! Keeping a team folder in step with a Git remote.
//!
//! The folder synced is the one *above* a store: the repository holds every
//! member's store side by side, and pulling brings the colleagues' logs,
//! which the append-only task log merges by revision.
//!
//! Running `git` is the caller's. This module reads what the probes of a
//! folder found, and decides each step of a sync from the answer to the
//! last one. The rules it keeps, in order:
//!
//! 1. Never resolve a conflict. A rebase that stops is aborted, so the
//!    working tree is left as it was, and sync pauses until a person fixes it.
//! 2. Never force anything: there is no step that rewrites history.
//! 3. Never touch a repository that is part-way through an operation.
//! 4. Never create a repository.

use vstd::prelude::*;

use crate::text::{
    append_to, chars_of, contains, contains_seq, decimal, first_non_space, is_space, is_space_char,
    parse_unsigned, parse_unsigned_at_most, push_decimal, skip_spaces, split_chars, split_on,
    string_of, subvec, trim, trimmed,
};

verus! {

/// Emitted after every automatic sync so the UI can show where things stand.
pub const SYNC_EVENT: &'static str = "tasks-sync";

/// How still the folder must be, in seconds, before an automatic commit is
/// made: a pause this long usually means a thought was finished.
pub const QUIET_SECONDS: u64 = 120;

/// The longest, in seconds, the folder may stay uncommitted while it is
/// being edited without a pause.
pub const MAX_UNCOMMITTED_SECONDS: u64 = 1_800;

/// How often, in seconds, the other side's work is fetched by default.
pub const DEFAULT_INTERVAL_SECONDS: u64 = 180;

// ---------------------------------------------------------------------------
// where a folder stands
// ---------------------------------------------------------------------------

/// What the app can tell about the team folder's relationship with Git.
#[derive(Debug)]
pub struct SyncStatus {
    pub is_repo: bool,
    pub has_remote: bool,
    pub branch: Option<String>,
    /// Uncommitted changes in the working tree.
    pub dirty: bool,
    pub ahead: u32,
    pub behind: u32,
    /// Set when syncing cannot safely proceed, with the reason to show.
    pub blocked: Option<String>,
}

pub struct SyncStatusView {
    pub is_repo: bool,
    pub has_remote: bool,
    pub branch: Option<Seq<char>>,
    pub dirty: bool,
    pub ahead: u32,
    pub behind: u32,
    pub blocked: Option<Seq<char>>,
}

pub open spec fn opt_text(o: Option<String>) -> Option<Seq<char>> {
    match o {
        Some(s) => Some(s@),
        None => None,
    }
}

impl View for SyncStatus {
    type V = SyncStatusView;

    open spec fn view(&self) -> SyncStatusView {
        SyncStatusView {
            is_repo: self.is_repo,
            has_remote: self.has_remote,
            branch: opt_text(self.branch),
            dirty: self.dirty,
            ahead: self.ahead,
            behind: self.behind,
            blocked: opt_text(self.blocked),
        }
    }
}

/// What one sync attempt did.
#[derive(Debug)]
pub struct SyncOutcome {
    /// Whether anything was committed, pulled or pushed.
    pub changed: bool,
    pub message: String,
    pub blocked: Option<String>,
}

pub struct SyncOutcomeView {
    pub changed: bool,
    pub message: Seq<char>,
    pub blocked: Option<Seq<char>>,
}

impl View for SyncOutcome {
    type V = SyncOutcomeView;

    open spec fn view(&self) -> SyncOutcomeView {
        SyncOutcomeView { changed: self.changed, message: self.message@, blocked: opt_text(self.blocked) }
    }
}

/// Sync preferences, kept beside the store rather than in it: the store is
/// what is synced, so a preference in it would be pushed to everyone.
#[derive(Debug, Clone, Copy)]
pub struct SyncSettings {
    pub enabled: bool,
    pub interval_seconds: u64,
}

impl Default for SyncSettings {
    fn default() -> (r: SyncSettings)
        ensures
            !r.enabled,
            r.interval_seconds == DEFAULT_INTERVAL_SECONDS,
    {
        SyncSettings { enabled: false, interval_seconds: DEFAULT_INTERVAL_SECONDS }
    }
}

/// Fetching more often than once a minute is not offered.
pub const MIN_INTERVAL_SECONDS: u64 = 60;

impl SyncSettings {
    /// Syncing switched on or off, fetching every `interval_seconds` or, when
    /// none is given, as often as before; never more than once a minute.
    pub fn turned(enabled: bool, interval_seconds: Option<u64>, current: &SyncSettings) -> (r: SyncSettings)
        ensures
            r.enabled == enabled,
            r.interval_seconds == ({
                let asked = match interval_seconds {
                    Some(s) => s,
                    None => current.interval_seconds,
                };
                if asked < MIN_INTERVAL_SECONDS {
                    MIN_INTERVAL_SECONDS
                } else {
                    asked
                }
            }),
    {
        let asked = match interval_seconds {
            Some(s) => s,
            None => current.interval_seconds,
        };
        SyncSettings {
            enabled,
            interval_seconds: if asked < MIN_INTERVAL_SECONDS {
                MIN_INTERVAL_SECONDS
            } else {
                asked
            },
        }
    }
}

/// The folder a team syncs, as given.
pub fn team_path(root: &str) -> (r: String)
    ensures
        r@ == root@,
{
    root.to_owned()
}

/// What `git` said about a folder, each probe's trimmed output, or `None`
/// where the command failed.
#[derive(Debug)]
pub struct Probe {
    /// `git rev-parse --is-inside-work-tree` succeeded.
    pub inside_work_tree: bool,
    /// `git remote`.
    pub remotes: Option<String>,
    /// `git rev-parse --abbrev-ref HEAD`.
    pub head: Option<String>,
    /// `git status --porcelain`.
    pub porcelain: Option<String>,
    /// `git rev-list --left-right --count @{upstream}...HEAD`, which prints
    /// "behind ahead".
    pub counts: Option<String>,
    /// A rebase, merge or cherry-pick is part-way through.
    pub in_progress: bool,
}

pub open spec fn blocked_in_progress() -> Seq<char> {
    "A rebase or merge is already in progress here."@
}

pub open spec fn no_remote() -> Seq<char> {
    "This folder has no Git remote to sync with."@
}

/// The first white space at or after `lo`, within `lo..hi`.
pub open spec fn first_space(s: Seq<char>, lo: int, hi: int) -> int
    decreases hi - lo,
{
    if lo < hi && !is_space(s[lo]) {
        first_space(s, lo + 1, hi)
    } else {
        lo
    }
}

/// A count as `str::parse::<u32>` reads it, or 0 where it does not.
pub open spec fn count_or_zero(w: Seq<char>) -> u32 {
    match parse_unsigned(w, u32::MAX as nat) {
        Some(n) => n as u32,
        None => 0,
    }
}

/// The first white-space separated word of `s` after `from`, as its
/// start and end.
pub open spec fn word_after(s: Seq<char>, from: int) -> (int, int) {
    let start = first_non_space(s, from, s.len() as int);
    (start, first_space(s, start, s.len() as int))
}

/// The first count `rev-list` printed: commits the upstream has that we do not.
pub open spec fn behind_of(c: Seq<char>) -> u32 {
    let (a, b) = word_after(c, 0);
    count_or_zero(c.subrange(a, b))
}

/// The second count: commits we have that the upstream does not.
pub open spec fn ahead_of(c: Seq<char>) -> u32 {
    let (a, b) = word_after(c, word_after(c, 0).1);
    count_or_zero(c.subrange(a, b))
}

/// Where a folder stands, from what its probes found.
pub open spec fn status_of(p: Probe) -> SyncStatusView {
    if !p.inside_work_tree {
        SyncStatusView {
            is_repo: false,
            has_remote: false,
            branch: None,
            dirty: false,
            ahead: 0,
            behind: 0,
            blocked: None,
        }
    } else {
        let has_remote = p.remotes matches Some(r) && r@.len() > 0;
        SyncStatusView {
            is_repo: true,
            has_remote,
            branch: opt_text(p.head),
            dirty: p.porcelain matches Some(o) && o@.len() > 0,
            ahead: match p.counts {
                Some(c) => ahead_of(c@),
                None => 0,
            },
            behind: match p.counts {
                Some(c) => behind_of(c@),
                None => 0,
            },
            blocked: if p.in_progress {
                Some(blocked_in_progress())
            } else if !has_remote {
                Some(no_remote())
            } else {
                None
            },
        }
    }
}

proof fn lemma_first_space_range(s: Seq<char>, lo: int, hi: int)
    requires
        lo <= hi,
    ensures
        lo <= first_space(s, lo, hi) <= hi,
    decreases hi - lo,
{
    if lo < hi && !is_space(s[lo]) {
        lemma_first_space_range(s, lo + 1, hi);
    }
}

proof fn lemma_first_non_space_range(s: Seq<char>, lo: int, hi: int)
    requires
        lo <= hi,
    ensures
        lo <= first_non_space(s, lo, hi) <= hi,
    decreases hi - lo,
{
    if lo < hi && is_space(s[lo]) {
        lemma_first_non_space_range(s, lo + 1, hi);
    }
}

fn skip_word(v: &[char], lo: usize) -> (r: usize)
    requires
        lo <= v@.len(),
    ensures
        r == first_space(v@, lo as int, v@.len() as int),
        lo <= r <= v@.len(),
{
    let mut i = lo;
    while i < v.len() && !is_space_char(v[i])
        invariant
            lo <= i <= v@.len(),
            first_space(v@, i as int, v@.len() as int) == first_space(v@, lo as int, v@.len() as int),
        decreases v@.len() - i,
    {
        i = i + 1;
    }
    i
}

fn count_word(v: &[char], from: usize) -> (r: (u32, usize))
    requires
        from <= v@.len(),
    ensures
        r.0 == count_or_zero(v@.subrange(word_after(v@, from as int).0, word_after(v@, from as int).1)),
        r.1 == word_after(v@, from as int).1,
        r.1 <= v@.len(),
{
    let start = skip_spaces(v, from, v.len());
    let end = skip_word(v, start);
    let word = subvec(v, start, end);
    let n = match parse_unsigned_at_most(word.as_slice(), 0xffff_ffff) {
        Some(n) => n as u32,
        None => 0,
    };
    (n, end)
}

/// Where a folder stands, from what its probes found.
pub fn status_from(probe: &Probe) -> (r: SyncStatus)
    ensures
        r@ == status_of(*probe),
{
    if !probe.inside_work_tree {
        return SyncStatus {
            is_repo: false,
            has_remote: false,
            branch: None,
            dirty: false,
            ahead: 0,
            behind: 0,
            blocked: None,
        };
    }
    let has_remote = match &probe.remotes {
        Some(r) => !r.as_str().is_empty(),
        None => false,
    };
    let dirty = match &probe.porcelain {
        Some(o) => !o.as_str().is_empty(),
        None => false,
    };
    let branch = match &probe.head {
        Some(h) => Some(h.clone()),
        None => None,
    };
    let (behind, ahead) = match &probe.counts {
        Some(c) => {
            let v = chars_of(c.as_str());
            let (b, end) = count_word(v.as_slice(), 0);
            let (a, _) = count_word(v.as_slice(), end);
            (b, a)
        },
        None => (0, 0),
    };
    let blocked = if probe.in_progress {
        Some("A rebase or merge is already in progress here.".to_owned())
    } else if !has_remote {
        Some("This folder has no Git remote to sync with.".to_owned())
    } else {
        None
    };
    SyncStatus { is_repo: true, has_remote, branch, dirty, ahead, behind, blocked }
}

// ---------------------------------------------------------------------------
// the commit message
// ---------------------------------------------------------------------------

/// The lines of `s` as `str::lines` gives them: split at each `\n`, with a
/// `\r` before a `\n` dropped.
pub open spec fn line_piece(pieces: Seq<Seq<char>>, i: int) -> Seq<char> {
    let p = pieces[i];
    if i + 1 < pieces.len() && p.len() > 0 && p.last() == '\r' {
        p.drop_last()
    } else {
        p
    }
}

pub open spec fn not_blank(l: Seq<char>) -> bool {
    trim(l).len() > 0
}

pub open spec fn keep_line() -> spec_fn(Seq<char>) -> bool {
    |l: Seq<char>| not_blank(l)
}

/// The file names `git diff --cached --name-only` printed: its lines that
/// are not blank.
pub open spec fn staged_files(s: Seq<char>) -> Seq<Seq<char>> {
    let pieces = split_on(s, '\n');
    Seq::new(pieces.len(), |i: int| line_piece(pieces, i)).filter(keep_line())
}

/// The text after the last `/`, or all of it where there is none.
pub open spec fn after_last_slash(s: Seq<char>) -> Seq<char>
    decreases s.len(),
{
    if s.len() == 0 {
        s
    } else if s.last() == '/' {
        Seq::empty()
    } else {
        after_last_slash(s.drop_last()).push(s.last())
    }
}

/// `s` with every trailing `.md` taken off.
pub open spec fn without_md(s: Seq<char>) -> Seq<char>
    decreases s.len(),
{
    if s.len() >= 3 && s.subrange(s.len() - 3, s.len() as int) == seq!['.', 'm', 'd'] {
        without_md(s.subrange(0, s.len() - 3))
    } else {
        s
    }
}

/// A note's name without its folders or extension, for a subject line.
pub open spec fn short_name_of(path: Seq<char>) -> Seq<char> {
    without_md(after_last_slash(path))
}

/// The parts joined with `sep` between them.
pub open spec fn joined(parts: Seq<Seq<char>>, sep: Seq<char>) -> Seq<char>
    decreases parts.len(),
{
    if parts.len() == 0 {
        Seq::empty()
    } else if parts.len() == 1 {
        parts[0]
    } else {
        joined(parts.drop_last(), sep) + sep + parts.last()
    }
}

pub open spec fn dash() -> Seq<char> {
    seq![' ', '\u{2014}', ' ']
}

/// A sync commit's subject: the time, and what was committed, so a run of
/// automatic commits does not read as a wall of identical lines.
pub open spec fn subject_of(files: Seq<Seq<char>>, when: Seq<char>) -> Seq<char> {
    let head = "Task sync "@ + when;
    if files.len() == 0 {
        head
    } else if files.len() == 1 {
        head + dash() + short_name_of(files[0])
    } else {
        head + dash() + decimal(files.len()) + " files"@
    }
}

pub fn short_name(path: &[char]) -> (r: Vec<char>)
    ensures
        r@ == short_name_of(path@),
{
    let mut start: usize = path.len();
    proof {
        assert(path@.take(start as int) =~= path@);
        assert(path@.skip(start as int) =~= Seq::<char>::empty());
    }
    while start > 0 && path[start - 1] != '/'
        invariant
            start <= path@.len(),
            after_last_slash(path@) == after_last_slash(path@.take(start as int)) + path@.skip(start as int),
        decreases start,
    {
        proof {
            let t = path@.take(start as int);
            assert(t.drop_last() =~= path@.take(start - 1));
            assert(path@.skip(start - 1) =~= seq![t.last()] + path@.skip(start as int));
            assert(after_last_slash(t) == after_last_slash(t.drop_last()).push(t.last()));
            assert(after_last_slash(t.drop_last()).push(t.last()) + path@.skip(start as int)
                =~= after_last_slash(t.drop_last()) + path@.skip(start - 1));
        }
        start = start - 1;
    }
    proof {
        let t = path@.take(start as int);
        if start > 0 {
            assert(t.last() == '/');
        }
        assert(after_last_slash(t) =~= Seq::<char>::empty());
        assert(path@.skip(start as int) =~= path@.subrange(start as int, path@.len() as int));
    }
    let mut end: usize = path.len();
    let ghost name = after_last_slash(path@);
    assert(name =~= path@.subrange(start as int, end as int));
    while end - start >= 3 && path[end - 3] == '.' && path[end - 2] == 'm' && path[end - 1] == 'd'
        invariant
            start <= end <= path@.len(),
            name == path@.subrange(start as int, path@.len() as int),
            without_md(name) == without_md(path@.subrange(start as int, end as int)),
        decreases end,
    {
        proof {
            let w = path@.subrange(start as int, end as int);
            assert(w.subrange(w.len() - 3, w.len() as int) =~= seq!['.', 'm', 'd']);
            assert(w.subrange(0, w.len() - 3) =~= path@.subrange(start as int, end - 3));
        }
        end = end - 3;
    }
    proof {
        let w = path@.subrange(start as int, end as int);
        if w.len() >= 3 {
            if w.subrange(w.len() - 3, w.len() as int) == seq!['.', 'm', 'd'] {
                assert(w[w.len() - 3] == '.');
                assert(w[w.len() - 2] == 'm');
                assert(w[w.len() - 1] == 'd');
            }
        }
    }
    subvec(path, start, end)
}

/// The staged file names, from what `git diff --cached --name-only` printed.
fn staged_names(staged: &str) -> (r: Vec<Vec<char>>)
    ensures
        r@.len() == staged_files(staged@).len(),
        forall|i: int| 0 <= i < r@.len() ==> (#[trigger] r@[i])@ == staged_files(staged@)[i],
{
    let v = chars_of(staged);
    let pieces = split_chars(v.as_slice(), '\n');
    let ghost ps = split_on(v@, '\n');
    let ghost lines = Seq::new(ps.len(), |i: int| line_piece(ps, i));
    let ghost keep = keep_line();
    let mut out: Vec<Vec<char>> = Vec::new();
    let mut i: usize = 0;
    while i < pieces.len()
        invariant
            i <= pieces@.len(),
            pieces@.len() == ps.len(),
            lines == Seq::new(ps.len(), |i: int| line_piece(ps, i)),
            keep == keep_line(),
            ps == split_on(v@, '\n'),
            forall|k: int| 0 <= k < pieces@.len() ==> (#[trigger] pieces@[k])@ == ps[k],
            out@.len() == lines.take(i as int).filter(keep).len(),
            forall|k: int| 0 <= k < out@.len() ==> (#[trigger] out@[k])@ == lines.take(i as int).filter(keep)[k],
        decreases pieces@.len() - i,
    {
        let p = &pieces[i];
        let line: Vec<char> = if i + 1 < pieces.len() && p.len() > 0 && p[p.len() - 1] == '\r' {
            subvec(p.as_slice(), 0, p.len() - 1)
        } else {
            subvec(p.as_slice(), 0, p.len())
        };
        proof {
            assert(p@.subrange(0, p@.len() as int) =~= p@);
            assert(p@.len() > 0 ==> p@.subrange(0, p@.len() - 1) =~= p@.drop_last());
            assert(line@ == lines[i as int]);
            assert(lines.take(i + 1).drop_last() =~= lines.take(i as int));
            assert(lines.take(i + 1).last() == lines[i as int]);
            reveal(Seq::filter);
        }
        let t = trimmed(line.as_slice());
        if t.len() > 0 {
            out.push(line);
        }
        i = i + 1;
        proof {
            let before = lines.take(i - 1).filter(keep);
            reveal(Seq::filter);
            assert(lines.take(i as int).drop_last() =~= lines.take(i - 1));
            assert(lines.take(i as int).last() == lines[i - 1]);
            assert(line@ == lines[i - 1]);
            assert(t@ == trim(line@));
            assert(keep(lines[i - 1]) == (t@.len() > 0));
            if t@.len() > 0 {
                assert(lines.take(i as int).filter(keep) == before.push(lines[i - 1]));
            } else {
                assert(lines.take(i as int).filter(keep) == before);
            }
        }
    }
    proof {
        assert(lines.take(pieces@.len() as int) =~= lines);
    }
    out
}

/// The subject and body of a sync commit, given what was staged and the
/// local time it was made: the time and what changed in the subject, the
/// file names in the body, one to a line.
pub fn commit_message_at(staged: &str, when: &str) -> (r: (String, String))
    ensures
        r.0@ == subject_of(staged_files(staged@), when@),
        r.1@ == joined(staged_files(staged@), seq!['\n']),
{
    let files = staged_names(staged);
    let ghost fs = staged_files(staged@);
    let mut subject = chars_of("Task sync ");
    let w = chars_of(when);
    append_to(&mut subject, w.as_slice());
    if files.len() == 1 {
        subject.push(' ');
        subject.push('\u{2014}');
        subject.push(' ');
        let name = short_name(files[0].as_slice());
        append_to(&mut subject, name.as_slice());
    } else if files.len() > 1 {
        subject.push(' ');
        subject.push('\u{2014}');
        subject.push(' ');
        push_decimal(&mut subject, files.len() as u128);
        let tail = chars_of(" files");
        append_to(&mut subject, tail.as_slice());
    }
    proof {
        assert(subject@ =~= subject_of(fs, when@));
    }
    let mut body: Vec<char> = Vec::new();
    let mut i: usize = 0;
    while i < files.len()
        invariant
            i <= files@.len(),
            files@.len() == fs.len(),
            forall|k: int| 0 <= k < files@.len() ==> (#[trigger] files@[k])@ == fs[k],
            body@ == joined(fs.take(i as int), seq!['\n']),
        decreases files@.len() - i,
    {
        if i > 0 {
            body.push('\n');
        }
        append_to(&mut body, files[i].as_slice());
        i = i + 1;
        proof {
            let t = fs.take(i as int);
            assert(t.drop_last() =~= fs.take(i - 1));
            if i == 1 {
                assert(fs.take(0) =~= Seq::<Seq<char>>::empty());
                assert(body@ =~= joined(t, seq!['\n']));
            } else {
                assert(body@ =~= joined(t, seq!['\n']));
            }
        }
    }
    proof {
        assert(fs.take(fs.len() as int) =~= fs);
    }
    (string_of(subject.as_slice()), string_of(body.as_slice()))
}

/// The subject and body of a sync commit made now. The time comes from the
/// machine's clock, so the subject is stated for whatever time was read.
pub fn commit_message(staged: &str) -> (r: (String, String))
    ensures
        exists|when: Seq<char>| r.0@ == #[trigger] subject_of(staged_files(staged@), when),
        r.1@ == joined(staged_files(staged@), seq!['\n']),
{
    let when = crate::clock::local_minute();
    commit_message_at(staged, when.as_str())
}

// ---------------------------------------------------------------------------
// one sync, step by step
// ---------------------------------------------------------------------------

/// What a sync asks the caller to do next.
#[derive(Debug)]
pub enum GitAction {
    /// Probe the folder (see `Probe`), and look whether an operation is
    /// part-way through, then call `inspected`.
    Inspect,
    /// `git config user.email`, then `email_read`.
    ReadEmail,
    /// `git add -A`, then `staged`.
    StageAll,
    /// `git diff --cached --name-only`, then `listed`.
    ListStaged,
    /// `git commit -m <subject> -m <body>`, then `committed`.
    Commit(String, String),
    /// `git pull --rebase --autostash`, then `pulled`.
    Pull,
    /// Look whether a rebase or merge was left part-way, then `conflict_checked`.
    CheckInProgress,
    /// `git rebase --abort`, then `aborted`.
    AbortRebase,
    /// Probe the folder again for how far ahead it is, then `recounted`.
    Recount,
    /// `git push`, then `pushed`.
    Push,
    /// The sync is over.
    Finish(SyncOutcome),
}

pub enum GitActionView {
    Inspect,
    ReadEmail,
    StageAll,
    ListStaged,
    Commit(Seq<char>, Seq<char>),
    Pull,
    CheckInProgress,
    AbortRebase,
    Recount,
    Push,
    Finish(SyncOutcomeView),
}

impl View for GitAction {
    type V = GitActionView;

    open spec fn view(&self) -> GitActionView {
        match self {
            GitAction::Inspect => GitActionView::Inspect,
            GitAction::ReadEmail => GitActionView::ReadEmail,
            GitAction::StageAll => GitActionView::StageAll,
            GitAction::ListStaged => GitActionView::ListStaged,
            GitAction::Commit(a, b) => GitActionView::Commit(a@, b@),
            GitAction::Pull => GitActionView::Pull,
            GitAction::CheckInProgress => GitActionView::CheckInProgress,
            GitAction::AbortRebase => GitActionView::AbortRebase,
            GitAction::Recount => GitActionView::Recount,
            GitAction::Push => GitActionView::Push,
            GitAction::Finish(o) => GitActionView::Finish(o@),
        }
    }
}

/// A sync under way.
#[derive(Debug)]
pub struct SyncRun {
    /// Whether local work is committed (a sync) or left alone (a receive).
    pub commit_local: bool,
    /// The working tree had changes when the sync began.
    pub dirty: bool,
    pub did_something: bool,
    /// What a failed pull said, kept while the cause is looked into.
    pub pull_error: Option<String>,
}

pub struct SyncRunView {
    pub commit_local: bool,
    pub dirty: bool,
    pub did_something: bool,
    pub pull_error: Option<Seq<char>>,
}

impl View for SyncRun {
    type V = SyncRunView;

    open spec fn view(&self) -> SyncRunView {
        SyncRunView {
            commit_local: self.commit_local,
            dirty: self.dirty,
            did_something: self.did_something,
            pull_error: opt_text(self.pull_error),
        }
    }
}

pub open spec fn result_text(r: Result<String, String>) -> Result<Seq<char>, Seq<char>> {
    match r {
        Ok(s) => Ok(s@),
        Err(e) => Err(e@),
    }
}

/// What a command printed, or nothing where it failed.
pub open spec fn ok_or_empty(r: Result<Seq<char>, Seq<char>>) -> Seq<char> {
    match r {
        Ok(s) => s,
        Err(_) => Seq::empty(),
    }
}

pub open spec fn not_a_repo() -> Seq<char> {
    "This folder is not a Git repository."@
}

pub open spec fn paused_in_progress() -> Seq<char> {
    "A rebase or merge is in progress. Sync paused until it is finished."@
}

pub open spec fn no_email() -> Seq<char> {
    "Git has no user.email set, so it cannot commit. Set one and try again."@
}

pub open spec fn conflict_paused() -> Seq<char> {
    "The same note was changed in both places. Sync is paused \u{2014} resolve it in a terminal, then sync again."@
}

pub open spec fn up_to_date() -> Seq<char> {
    "Already up to date"@
}

/// A sync that stopped on purpose: nothing changed, and the reason shown.
pub open spec fn blocked_by(reason: Seq<char>) -> SyncOutcomeView {
    SyncOutcomeView { changed: false, message: reason, blocked: Some(reason) }
}

/// A sync that ran to its end.
pub open spec fn done(did_something: bool) -> SyncOutcomeView {
    SyncOutcomeView {
        changed: did_something,
        message: if did_something {
            "Synced"@
        } else {
            up_to_date()
        },
        blocked: None,
    }
}

pub open spec fn finish(o: SyncOutcomeView) -> GitActionView {
    GitActionView::Finish(o)
}

/// A fresh run: it begins by inspecting the folder.
pub open spec fn fresh(commit_local: bool) -> SyncRunView {
    SyncRunView { commit_local, dirty: false, did_something: false, pull_error: None }
}

/// After the folder was inspected: stop on a folder that is not a
/// repository, has no remote or is part-way through an operation;
/// otherwise note whether it has changes and ask for the user's email.
pub open spec fn inspected_step(run: SyncRunView, st: SyncStatusView, in_progress: bool) -> (SyncRunView, GitActionView) {
    if !st.is_repo {
        (run, finish(blocked_by(not_a_repo())))
    } else if !st.has_remote {
        (run, finish(blocked_by(no_remote())))
    } else if in_progress {
        (run, finish(blocked_by(paused_in_progress())))
    } else {
        (SyncRunView { dirty: st.dirty, ..run }, GitActionView::ReadEmail)
    }
}

/// After the email was asked for: stop without one; stage local changes
/// when this run commits and there are any; otherwise pull.
pub open spec fn email_step(run: SyncRunView, r: Result<Seq<char>, Seq<char>>) -> (SyncRunView, GitActionView) {
    match r {
        Err(_) => (run, finish(blocked_by(no_email()))),
        Ok(_) => if run.dirty && run.commit_local {
            (run, GitActionView::StageAll)
        } else {
            (run, GitActionView::Pull)
        },
    }
}

/// After staging: stop if it failed, else list what was staged.
pub open spec fn staged_step(run: SyncRunView, r: Result<Seq<char>, Seq<char>>) -> (SyncRunView, GitActionView) {
    match r {
        Err(e) => (run, finish(blocked_by("Could not stage changes: "@ + e))),
        Ok(_) => (run, GitActionView::ListStaged),
    }
}

/// The commit for what was staged, made at `when`.
pub open spec fn commit_for(staged: Seq<char>, when: Seq<char>) -> GitActionView {
    GitActionView::Commit(subject_of(staged_files(staged), when), joined(staged_files(staged), seq!['\n']))
}

/// After committing: stop if it failed, else note the work and pull.
pub open spec fn committed_step(run: SyncRunView, r: Result<Seq<char>, Seq<char>>) -> (SyncRunView, GitActionView) {
    match r {
        Err(e) => (run, finish(blocked_by("Could not commit: "@ + e))),
        Ok(_) => (SyncRunView { did_something: true, ..run }, GitActionView::Pull),
    }
}

/// After pulling: anything but "Already up to date" counts as work, and
/// the folder is recounted; a failed pull is looked into.
pub open spec fn pulled_step(run: SyncRunView, r: Result<Seq<char>, Seq<char>>) -> (SyncRunView, GitActionView) {
    match r {
        Ok(out) => (
            SyncRunView { did_something: run.did_something || !contains_seq(out, up_to_date()), ..run },
            GitActionView::Recount,
        ),
        Err(e) => (SyncRunView { pull_error: Some(e), ..run }, GitActionView::CheckInProgress),
    }
}

/// After a failed pull: a rebase left part-way is aborted, never resolved;
/// any other failure stops with what the pull said.
pub open spec fn conflict_step(run: SyncRunView, in_progress: bool) -> (SyncRunView, GitActionView) {
    if in_progress {
        (run, GitActionView::AbortRebase)
    } else {
        let e = match run.pull_error {
            Some(e) => e,
            None => Seq::empty(),
        };
        (run, finish(blocked_by("Could not pull: "@ + e)))
    }
}

/// After the abort: paused until a person resolves it.
pub open spec fn aborted_step(run: SyncRunView) -> (SyncRunView, GitActionView) {
    (run, finish(blocked_by(conflict_paused())))
}

/// After the recount: push only what the remote lacks.
pub open spec fn recounted_step(run: SyncRunView, ahead: u32) -> (SyncRunView, GitActionView) {
    if ahead > 0 {
        (run, GitActionView::Push)
    } else {
        (run, finish(done(run.did_something)))
    }
}

/// After pushing: stop if it failed, else the sync is done and did work.
pub open spec fn pushed_step(run: SyncRunView, r: Result<Seq<char>, Seq<char>>) -> (SyncRunView, GitActionView) {
    match r {
        Err(e) => (run, finish(blocked_by("Could not push: "@ + e))),
        Ok(_) => (SyncRunView { did_something: true, ..run }, finish(done(true))),
    }
}

fn with_prefix(prefix: &str, rest: &str) -> (r: String)
    ensures
        r@ == prefix@ + rest@,
{
    let mut v = chars_of(prefix);
    let tail = chars_of(rest);
    append_to(&mut v, tail.as_slice());
    string_of(v.as_slice())
}

fn blocked(reason: String) -> (o: SyncOutcome)
    ensures
        o@ == blocked_by(reason@),
{
    let shown = reason.clone();
    SyncOutcome { changed: false, message: reason, blocked: Some(shown) }
}

/// Commit local work, bring the remote's in, and push, or stop and say why.
/// The run begins by asking for `GitAction::Inspect`.
pub fn sync() -> (r: SyncRun)
    ensures
        r@ == fresh(true),
{
    SyncRun { commit_local: true, dirty: false, did_something: false, pull_error: None }
}

/// Pull the other side's work and push what is already committed here,
/// leaving the working tree alone. This is what runs on the interval:
/// receiving wants to be frequent, committing wants the writing to stop.
pub fn receive() -> (r: SyncRun)
    ensures
        r@ == fresh(false),
{
    SyncRun { commit_local: false, dirty: false, did_something: false, pull_error: None }
}

impl SyncRun {
    pub fn inspected(&mut self, status: &SyncStatus, in_progress: bool) -> (a: GitAction)
        ensures
            (final(self)@, a@) == inspected_step(old(self)@, status@, in_progress),
    {
        if !status.is_repo {
            return GitAction::Finish(blocked("This folder is not a Git repository.".to_owned()));
        }
        if !status.has_remote {
            return GitAction::Finish(blocked("This folder has no Git remote to sync with.".to_owned()));
        }
        if in_progress {
            return GitAction::Finish(
                blocked("A rebase or merge is in progress. Sync paused until it is finished.".to_owned()),
            );
        }
        self.dirty = status.dirty;
        GitAction::ReadEmail
    }

    pub fn email_read(&mut self, r: Result<String, String>) -> (a: GitAction)
        ensures
            (final(self)@, a@) == email_step(old(self)@, result_text(r)),
    {
        match r {
            Err(_) => GitAction::Finish(
                blocked("Git has no user.email set, so it cannot commit. Set one and try again.".to_owned()),
            ),
            Ok(_) => if self.dirty && self.commit_local {
                GitAction::StageAll
            } else {
                GitAction::Pull
            },
        }
    }

    pub fn staged(&mut self, r: Result<String, String>) -> (a: GitAction)
        ensures
            (final(self)@, a@) == staged_step(old(self)@, result_text(r)),
    {
        match r {
            Err(e) => GitAction::Finish(blocked(with_prefix("Could not stage changes: ", e.as_str()))),
            Ok(_) => GitAction::ListStaged,
        }
    }

    /// What was staged is committed with a message stamped with the local
    /// time, read from the clock here.
    pub fn listed(&mut self, r: Result<String, String>) -> (a: GitAction)
        ensures
            final(self)@ == old(self)@,
            exists|when: Seq<char>| a@ == #[trigger] commit_for(ok_or_empty(result_text(r)), when),
    {
        let staged = match r {
            Ok(s) => s,
            Err(_) => String::new(),
        };
        let (subject, body) = commit_message(staged.as_str());
        proof {
            let w = choose|w: Seq<char>| subject@ == #[trigger] subject_of(staged_files(staged@), w);
            assert(staged@ == ok_or_empty(result_text(r)));
            assert(GitAction::Commit(subject, body)@ == commit_for(ok_or_empty(result_text(r)), w));
        }
        GitAction::Commit(subject, body)
    }

    pub fn committed(&mut self, r: Result<String, String>) -> (a: GitAction)
        ensures
            (final(self)@, a@) == committed_step(old(self)@, result_text(r)),
    {
        match r {
            Err(e) => GitAction::Finish(blocked(with_prefix("Could not commit: ", e.as_str()))),
            Ok(_) => {
                self.did_something = true;
                GitAction::Pull
            },
        }
    }

    pub fn pulled(&mut self, r: Result<String, String>) -> (a: GitAction)
        ensures
            (final(self)@, a@) == pulled_step(old(self)@, result_text(r)),
    {
        match r {
            Ok(out) => {
                let v = chars_of(out.as_str());
                let needle = chars_of("Already up to date");
                if !contains(v.as_slice(), needle.as_slice()) {
                    self.did_something = true;
                }
                GitAction::Recount
            },
            Err(e) => {
                self.pull_error = Some(e);
                GitAction::CheckInProgress
            },
        }
    }

    pub fn conflict_checked(&mut self, in_progress: bool) -> (a: GitAction)
        ensures
            (final(self)@, a@) == conflict_step(old(self)@, in_progress),
    {
        if in_progress {
            return GitAction::AbortRebase;
        }
        let e = match &self.pull_error {
            Some(e) => e.clone(),
            None => String::new(),
        };
        GitAction::Finish(blocked(with_prefix("Could not pull: ", e.as_str())))
    }

    /// The rebase was aborted (whether or not that reported an error).
    pub fn aborted(&mut self) -> (a: GitAction)
        ensures
            (final(self)@, a@) == aborted_step(old(self)@),
    {
        GitAction::Finish(blocked(
            "The same note was changed in both places. Sync is paused \u{2014} resolve it in a terminal, then sync again.".to_owned(),
        ))
    }

    pub fn recounted(&mut self, ahead: u32) -> (a: GitAction)
        ensures
            (final(self)@, a@) == recounted_step(old(self)@, ahead),
    {
        if ahead > 0 {
            return GitAction::Push;
        }
        GitAction::Finish(self.outcome())
    }

    pub fn pushed(&mut self, r: Result<String, String>) -> (a: GitAction)
        ensures
            (final(self)@, a@) == pushed_step(old(self)@, result_text(r)),
    {
        match r {
            Err(e) => GitAction::Finish(blocked(with_prefix("Could not push: ", e.as_str()))),
            Ok(_) => {
                self.did_something = true;
                GitAction::Finish(self.outcome())
            },
        }
    }

    fn outcome(&self) -> (o: SyncOutcome)
        ensures
            o@ == done(self.did_something),
    {
        SyncOutcome {
            changed: self.did_something,
            message: if self.did_something {
                "Synced".to_owned()
            } else {
                "Already up to date".to_owned()
            },
            blocked: None,
        }
    }
}

// ---------------------------------------------------------------------------
// syncing on a schedule
// ---------------------------------------------------------------------------

/// What the scheduler remembers between looks at the folder. Times are in
/// seconds on a clock that does not go backwards.
#[derive(Debug)]
pub struct AutoSync {
    /// What `git status --porcelain` said last time.
    pub fingerprint: String,
    /// When that output last changed.
    pub unchanged_since: Option<u64>,
    /// When the folder last went from clean to changed.
    pub dirty_since: Option<u64>,
    pub last_receive: u64,
}

pub struct AutoSyncView {
    pub fingerprint: Seq<char>,
    pub unchanged_since: Option<u64>,
    pub dirty_since: Option<u64>,
    pub last_receive: u64,
}

impl View for AutoSync {
    type V = AutoSyncView;

    open spec fn view(&self) -> AutoSyncView {
        AutoSyncView {
            fingerprint: self.fingerprint@,
            unchanged_since: self.unchanged_since,
            dirty_since: self.dirty_since,
            last_receive: self.last_receive,
        }
    }
}

/// Seconds from `at` to `now`.
pub open spec fn elapsed(now: u64, at: u64) -> int {
    if now >= at {
        now - at
    } else {
        0
    }
}

/// Whether `since` is set and at least `secs` ago.
pub open spec fn held_for(since: Option<u64>, now: u64, secs: u64) -> bool {
    since matches Some(at) && elapsed(now, at) >= secs
}

/// One look at the folder, `current` being what `git status --porcelain`
/// printed: the remembered state, and whether a sync is due and, if so,
/// whether it commits. A commit waits for the folder to stay unchanged for
/// `QUIET_SECONDS`, or for `MAX_UNCOMMITTED_SECONDS` of changes; the other
/// side's work is fetched every `interval` seconds.
pub open spec fn observe_step(a: AutoSyncView, now: u64, enabled: bool, interval: u64, current: Seq<char>) -> (AutoSyncView, Option<bool>) {
    if !enabled {
        (a, None)
    } else {
        let unchanged_since = if current != a.fingerprint {
            Some(now)
        } else {
            a.unchanged_since
        };
        let dirty_since = if current.len() == 0 {
            None
        } else if a.dirty_since is None {
            Some(now)
        } else {
            a.dirty_since
        };
        let next = AutoSyncView { fingerprint: current, unchanged_since, dirty_since, last_receive: a.last_receive };
        let should_commit = current.len() > 0 && (held_for(unchanged_since, now, QUIET_SECONDS)
            || held_for(dirty_since, now, MAX_UNCOMMITTED_SECONDS));
        let due = elapsed(now, a.last_receive) >= interval;
        (next, if !should_commit && !due {
            None
        } else {
            Some(should_commit)
        })
    }
}

fn since_at_least(since: Option<u64>, now: u64, secs: u64) -> (r: bool)
    ensures
        r == held_for(since, now, secs),
{
    match since {
        Some(at) => now.saturating_sub(at) >= secs,
        None => false,
    }
}

impl AutoSync {
    /// A scheduler started at `now`, as if the last fetch were an hour ago.
    pub fn new(now: u64) -> (r: AutoSync)
        requires
            now >= 3600,
        ensures
            r@ == (AutoSyncView { fingerprint: Seq::empty(), unchanged_since: None, dirty_since: None, last_receive: (now - 3600) as u64 }),
    {
        AutoSync { fingerprint: String::new(), unchanged_since: None, dirty_since: None, last_receive: now - 3600 }
    }

    /// Look at the folder: `Some(commit_local)` when a sync is due now.
    pub fn observe(&mut self, now: u64, enabled: bool, interval: u64, current: &str) -> (r: Option<bool>)
        ensures
            (final(self)@, r) == observe_step(old(self)@, now, enabled, interval, current@),
    {
        if !enabled {
            return None;
        }
        if !crate::text::str_eq(current, self.fingerprint.as_str()) {
            self.fingerprint = current.to_owned();
            self.unchanged_since = Some(now);
        }
        if current.is_empty() {
            self.dirty_since = None;
        } else if self.dirty_since.is_none() {
            self.dirty_since = Some(now);
        }
        let settled = since_at_least(self.unchanged_since, now, QUIET_SECONDS);
        let overdue = since_at_least(self.dirty_since, now, MAX_UNCOMMITTED_SECONDS);
        let should_commit = !current.is_empty() && (settled || overdue);
        let due = now.saturating_sub(self.last_receive) >= interval;
        if !should_commit && !due {
            None
        } else {
            Some(should_commit)
        }
    }

    /// A sync ran at `now`; one that committed starts the dirty clock afresh.
    pub fn synced(&mut self, now: u64, committed: bool)
        ensures
            final(self)@ == (AutoSyncView {
                last_receive: now,
                dirty_since: if committed {
                    None
                } else {
                    old(self)@.dirty_since
                },
                ..old(self)@
            }),
    {
        self.last_receive = now;
        if committed {
            self.dirty_since = None;
        }
    }
}

// ---------------------------------------------------------------------------
// laws
// ---------------------------------------------------------------------------

/// A receive never touches the working tree: no step of a run that does
/// not commit local work asks to stage, and every step keeps the run a
/// receive.
pub proof fn lemma_receive_leaves_tree_alone(
    run: SyncRunView,
    st: SyncStatusView,
    flag: bool,
    r: Result<Seq<char>, Seq<char>>,
    ahead: u32,
)
    requires
        !run.commit_local,
    ensures
        email_step(run, r).1 != GitActionView::StageAll,
        !inspected_step(run, st, flag).0.commit_local,
        !email_step(run, r).0.commit_local,
        !staged_step(run, r).0.commit_local,
        !committed_step(run, r).0.commit_local,
        !pulled_step(run, r).0.commit_local,
        !conflict_step(run, flag).0.commit_local,
        !aborted_step(run).0.commit_local,
        !recounted_step(run, ahead).0.commit_local,
        !pushed_step(run, r).0.commit_local,
{
}

/// A conflict is never resolved: a pull that leaves a rebase part-way is
/// aborted, and the sync then stops, changing nothing and saying why.
pub proof fn lemma_conflict_is_aborted(run: SyncRunView)
    ensures
        conflict_step(run, true).1 == GitActionView::AbortRebase,
        aborted_step(run).1 == finish(blocked_by(conflict_paused())),
        !blocked_by(conflict_paused()).changed,
{
}

/// Nothing is pushed unless the folder is ahead of its remote.
pub proof fn lemma_push_only_when_ahead(run: SyncRunView, ahead: u32)
    ensures
        recounted_step(run, ahead).1 == GitActionView::Push <==> ahead > 0,
{
}

/// A sync that stops on purpose never reports a change.
pub proof fn lemma_blocked_changes_nothing(reason: Seq<char>)
    ensures
        !blocked_by(reason).changed,
        blocked_by(reason).blocked == Some(reason),
{
}

/// An automatic sync commits only changed work that has settled or waited
/// long enough.
pub proof fn lemma_commit_waits(a: AutoSyncView, now: u64, enabled: bool, interval: u64, current: Seq<char>)
    ensures
        ({
            let (next, r) = observe_step(a, now, enabled, interval, current);
            r == Some(true) ==> enabled && current.len() > 0 && (held_for(next.unchanged_since, now, QUIET_SECONDS)
                || held_for(next.dirty_since, now, MAX_UNCOMMITTED_SECONDS))
        }),
{
}

} // verus!
