//! The context a task came from.
//!
//! A task records where it came from in `origin`, as `scheme:reference`.
//! Where the scheme is `knowledge`, the note behind it is read from the
//! notes app and shown beside the task, so "what was this about?" is
//! answered without leaving it. Reading the note is the caller's; this
//! module decides what to read and what to show of the reply. Read-only,
//! deliberately: tasks have no business editing someone's notes.

use vstd::prelude::*;

use crate::git_sync::{short_name, short_name_of};
use crate::text::{chars_of, contains, contains_seq, find_char, first_index_of, string_of, subvec, trim, trimmed};

verus! {

/// How much of a note, in characters, is worth showing beside a task.
pub const EXCERPT_CHARS: usize = 600;

/// The context behind a task, ready to show.
#[derive(Debug)]
pub struct TaskContext {
    /// `knowledge`, `mindmap`, or whatever scheme the origin named.
    pub kind: String,
    /// What to call it on screen.
    pub label: String,
    /// The note's text, trimmed. Empty when there is nothing to preview.
    pub excerpt: String,
    /// True when the excerpt stops short of the whole note.
    pub truncated: bool,
    /// Set when the context could not be fetched, to be shown as it is.
    pub unavailable: Option<String>,
}

pub struct TaskContextView {
    pub kind: Seq<char>,
    pub label: Seq<char>,
    pub excerpt: Seq<char>,
    pub truncated: bool,
    pub unavailable: Option<Seq<char>>,
}

impl View for TaskContext {
    type V = TaskContextView;

    open spec fn view(&self) -> TaskContextView {
        TaskContextView {
            kind: self.kind@,
            label: self.label@,
            excerpt: self.excerpt@,
            truncated: self.truncated,
            unavailable: match self.unavailable {
                Some(u) => Some(u@),
                None => None,
            },
        }
    }
}

/// A context with only a kind and a label.
pub open spec fn labelled(kind: Seq<char>, label: Seq<char>) -> TaskContextView {
    TaskContextView { kind, label, excerpt: Seq::empty(), truncated: false, unavailable: None }
}

fn bare(kind: String, label: String) -> (r: TaskContext)
    ensures
        r@ == labelled(kind@, label@),
{
    TaskContext { kind, label, excerpt: String::new(), truncated: false, unavailable: None }
}

/// What a task's origin asks for.
#[derive(Debug)]
pub enum ContextStep {
    /// Nothing to fetch: show this.
    Ready(TaskContext),
    /// Read the note at this path from the notes app, then call
    /// `read_note_context` with the reply.
    ReadNote(String),
}

pub enum ContextStepView {
    Ready(TaskContextView),
    ReadNote(Seq<char>),
}

impl View for ContextStep {
    type V = ContextStepView;

    open spec fn view(&self) -> ContextStepView {
        match self {
            ContextStep::Ready(c) => ContextStepView::Ready(c@),
            ContextStep::ReadNote(p) => ContextStepView::ReadNote(p@),
        }
    }
}

/// The text before the first `c`, or all of it.
pub open spec fn before_first(s: Seq<char>, c: char) -> Seq<char> {
    match first_index_of(s, c) {
        Some(i) => s.take(i),
        None => s,
    }
}

/// `s` with each `-` shown as a space.
pub open spec fn dashes_to_spaces(s: Seq<char>) -> Seq<char> {
    s.map_values(|ch: char| if ch == '-' {
        ' '
    } else {
        ch
    })
}

/// What to do with a task's origin: a note is read; a mind map is named
/// by its map (a node means little out of its map, and the map is the
/// place to look at one); any other scheme is shown as it stands.
pub open spec fn context_of(origin: Seq<char>) -> ContextStepView {
    match first_index_of(origin, ':') {
        None => ContextStepView::Ready(labelled("unknown"@, origin)),
        Some(i) => {
            let scheme = origin.take(i);
            let reference = origin.skip(i + 1);
            if scheme == "knowledge"@ {
                ContextStepView::ReadNote(reference)
            } else if scheme == "mindmap"@ {
                ContextStepView::Ready(labelled("mindmap"@, dashes_to_spaces(before_first(reference, '#'))))
            } else {
                ContextStepView::Ready(labelled(scheme, reference))
            }
        },
    }
}

fn dashes_as_spaces(v: &[char]) -> (r: Vec<char>)
    ensures
        r@ == dashes_to_spaces(v@),
{
    let mut out: Vec<char> = Vec::new();
    let mut i: usize = 0;
    while i < v.len()
        invariant
            i <= v@.len(),
            out@ == dashes_to_spaces(v@.take(i as int)),
        decreases v@.len() - i,
    {
        let c = v[i];
        out.push(if c == '-' {
            ' '
        } else {
            c
        });
        i = i + 1;
        assert(out@ =~= dashes_to_spaces(v@.take(i as int)));
    }
    assert(v@.take(v@.len() as int) =~= v@);
    out
}

proof fn lemma_first_index(s: Seq<char>, c: char, i: int)
    requires
        0 <= i < s.len(),
        s[i] == c,
        forall|j: int| 0 <= j < i ==> s[j] != c,
    ensures
        first_index_of(s, c) == Some(i),
{
    let k = choose|k: int| 0 <= k < s.len() && s[k] == c && forall|j: int| 0 <= j < k ==> s[j] != c;
    assert(s[i] == c);
    if k < i {
        assert(s[k] != c);
    }
    if k > i {
        assert(s[i] != c);
    }
}

/// Resolve a task's `origin` into what to show, or the note to read.
pub fn task_context(origin: &str) -> (r: ContextStep)
    ensures
        r@ == context_of(origin@),
{
    let v = chars_of(origin);
    let i = match find_char(v.as_slice(), ':') {
        Some(i) => i,
        None => {
            proof {
                assert(!(exists|i: int| 0 <= i < v@.len() && v@[i] == ':'));
            }
            return ContextStep::Ready(bare("unknown".to_owned(), origin.to_owned()));
        },
    };
    proof {
        lemma_first_index(v@, ':', i as int);
    }
    assert(i < v.len());
    let scheme = subvec(v.as_slice(), 0, i);
    let reference = subvec(v.as_slice(), i + 1, v.len());
    proof {
        assert(scheme@ =~= v@.take(i as int));
        assert(reference@ =~= v@.skip(i + 1));
    }
    let knowledge = chars_of("knowledge");
    let mindmap = chars_of("mindmap");
    if crate::text::seq_eq(scheme.as_slice(), knowledge.as_slice()) {
        return ContextStep::ReadNote(string_of(reference.as_slice()));
    }
    if crate::text::seq_eq(scheme.as_slice(), mindmap.as_slice()) {
        let map = match find_char(reference.as_slice(), '#') {
            Some(k) => {
                proof {
                    lemma_first_index(reference@, '#', k as int);
                }
                subvec(reference.as_slice(), 0, k)
            },
            None => {
                proof {
                    assert(!(exists|i: int| 0 <= i < reference@.len() && reference@[i] == '#'));
                }
                subvec(reference.as_slice(), 0, reference.len())
            },
        };
        proof {
            assert(map@ =~= before_first(reference@, '#'));
        }
        let label = dashes_as_spaces(map.as_slice());
        return ContextStep::Ready(bare("mindmap".to_owned(), string_of(label.as_slice())));
    }
    ContextStep::Ready(bare(string_of(scheme.as_slice()), string_of(reference.as_slice())))
}

/// What the notes app said about a note.
#[derive(Debug)]
pub enum NoteReply {
    /// The notes app is not installed here.
    NotInstalled,
    /// The read failed, with what was said.
    Failed(String),
    /// The note: its title where it had one, and its body.
    Read(Option<String>, String),
}

/// The last index holding `c`.
pub open spec fn last_index_of(s: Seq<char>, c: char) -> Option<int>
    decreases s.len(),
{
    if s.len() == 0 {
        None
    } else if s.last() == c {
        Some(s.len() - 1)
    } else {
        last_index_of(s.drop_last(), c)
    }
}

/// At most `EXCERPT_CHARS` of a note's trimmed body, cut back to the last
/// line end when it had to be cut, so it does not stop mid-sentence.
pub open spec fn excerpt_of(body: Seq<char>) -> (Seq<char>, bool) {
    let b = trim(body);
    if b.len() > EXCERPT_CHARS {
        let t = b.take(EXCERPT_CHARS as int);
        let cut = match last_index_of(t, '\n') {
            Some(k) => t.take(k),
            None => t,
        };
        (trim(cut), true)
    } else {
        (trim(b), false)
    }
}

pub open spec fn not_installed() -> Seq<char> {
    "Intentio Knowledge is not installed."@
}

pub open spec fn note_gone() -> Seq<char> {
    "That note is no longer in the vault."@
}

/// What to show of a note, from the notes app's reply. It is named by its
/// title where it has one, else by its file name without folders or
/// extension; a failure that says the note is gone is put plainly.
pub open spec fn note_context(path: Seq<char>, reply: NoteReply) -> TaskContextView {
    let label = short_name_of(path);
    match reply {
        NoteReply::NotInstalled => TaskContextView { unavailable: Some(not_installed()), ..labelled("knowledge"@, label) },
        NoteReply::Failed(e) => TaskContextView {
            unavailable: Some(
                if contains_seq(e@, "not found"@) || contains_seq(e@, "No such"@) {
                    note_gone()
                } else {
                    e@
                },
            ),
            ..labelled("knowledge"@, label)
        },
        NoteReply::Read(title, body) => {
            let (excerpt, truncated) = excerpt_of(body@);
            TaskContextView {
                kind: "knowledge"@,
                label: match title {
                    Some(t) if t@.len() > 0 => t@,
                    _ => label,
                },
                excerpt,
                truncated,
                unavailable: None,
            }
        },
    }
}

fn last_newline(v: &[char]) -> (r: Option<usize>)
    ensures
        match r {
            Some(k) => last_index_of(v@, '\n') == Some(k as int) && k < v@.len(),
            None => last_index_of(v@, '\n') is None,
        },
{
    let mut j: usize = v.len();
    proof {
        assert(v@.take(j as int) =~= v@);
    }
    while j > 0
        invariant
            j <= v@.len(),
            last_index_of(v@, '\n') == last_index_of(v@.take(j as int), '\n'),
        decreases j,
    {
        proof {
            assert(v@.take(j as int).drop_last() =~= v@.take(j - 1));
        }
        if v[j - 1] == '\n' {
            return Some(j - 1);
        }
        j = j - 1;
    }
    None
}

/// What to show of the note at `path`, given what the notes app replied.
pub fn read_note_context(path: &str, reply: NoteReply) -> (r: TaskContext)
    ensures
        r@ == note_context(path@, reply),
{
    let p = chars_of(path);
    let label = string_of(short_name(p.as_slice()).as_slice());
    match reply {
        NoteReply::NotInstalled => TaskContext {
            kind: "knowledge".to_owned(),
            label,
            excerpt: String::new(),
            truncated: false,
            unavailable: Some("Intentio Knowledge is not installed.".to_owned()),
        },
        NoteReply::Failed(e) => {
            let v = chars_of(e.as_str());
            let nf = chars_of("not found");
            let ns = chars_of("No such");
            let gone = contains(v.as_slice(), nf.as_slice()) || contains(v.as_slice(), ns.as_slice());
            TaskContext {
                kind: "knowledge".to_owned(),
                label,
                excerpt: String::new(),
                truncated: false,
                unavailable: Some(
                    if gone {
                        "That note is no longer in the vault.".to_owned()
                    } else {
                        e
                    },
                ),
            }
        },
        NoteReply::Read(title, body) => {
            let raw = chars_of(body.as_str());
            let b = trimmed(raw.as_slice());
            let truncated = b.len() > EXCERPT_CHARS;
            let excerpt = if truncated {
                let t = subvec(b.as_slice(), 0, EXCERPT_CHARS);
                let cut = match last_newline(t.as_slice()) {
                    Some(k) => subvec(t.as_slice(), 0, k),
                    None => t,
                };
                proof {
                    assert(t@ =~= b@.take(EXCERPT_CHARS as int));
                }
                trimmed(cut.as_slice())
            } else {
                trimmed(b.as_slice())
            };
            proof {
                if truncated {
                    let t = b@.take(EXCERPT_CHARS as int);
                    match last_index_of(t, '\n') {
                        Some(k) => assert(t.subrange(0, k) =~= t.take(k)),
                        None => {},
                    }
                }
            }
            let shown = match title {
                Some(t) => if t.as_str().is_empty() {
                    label
                } else {
                    t
                },
                None => label,
            };
            TaskContext {
                kind: "knowledge".to_owned(),
                label: shown,
                excerpt: string_of(excerpt.as_slice()),
                truncated,
                unavailable: None,
            }
        },
    }
}

} // verus!
