//! Reading structure out of a typed title.
//!
//! ```text
//! (stm) [chore] clean up the login page @vernon due:tomorrow i:8 e:3
//! ```
//!
//! becomes the title `clean up the login page`, filed under project `stm`,
//! tagged `chore`, owned by `vernon`, due tomorrow, impact 8, effort 3. Every
//! marker is optional.
//!
//! Project and tag are read from the front, owner, due date and scores from
//! the back, so prose is safe: `email max@intentio.co.za about it` ends in a
//! token that does not begin with `@`, and nothing is taken from it.

use vstd::prelude::*;

use crate::dates::{civil_date, civil_date_of, civil_days, civil_days_of, lemma_civil_days_bounded};
use crate::text::{
    any_space, append_to, chars_of, eq_ignore_case, has_prefix, has_space, is_space, is_space_char,
    lemma_trim_start_range, parse_i64, parse_i64_chars, parse_unsigned, parse_unsigned_at_most,
    same_ignoring_ascii_case, string_of, strip_prefix, subvec, trim, trim_end, trim_start, trimmed,
    trimmed_end, trimmed_start, first_non_space,
};

verus! {

/// What a typed line turned out to contain.
#[derive(Debug)]
pub struct Captured {
    pub title: String,
    pub project: Option<String>,
    pub tags: Vec<String>,
    /// Who the task is for, from a trailing `@owner`.
    pub owner: Option<String>,
    /// A due date as typed: `YYYY-MM-DD`, `today`, `tomorrow` or `+N`.
    pub due: Option<String>,
    /// How much finishing this is worth, 1-10.
    pub impact: Option<u8>,
    /// How much it will cost, 1-10.
    pub effort: Option<u8>,
}

pub struct CapturedView {
    pub title: Seq<char>,
    pub project: Option<Seq<char>>,
    pub tags: Seq<Seq<char>>,
    pub owner: Option<Seq<char>>,
    pub due: Option<Seq<char>>,
    pub impact: Option<u8>,
    pub effort: Option<u8>,
}

impl View for Captured {
    type V = CapturedView;

    open spec fn view(&self) -> CapturedView {
        CapturedView {
            title: self.title@,
            project: self.project.deep_view(),
            tags: self.tags.deep_view(),
            owner: self.owner.deep_view(),
            due: self.due.deep_view(),
            impact: self.impact,
            effort: self.effort,
        }
    }
}

// ---------------------------------------------------------------------------
// the grammar, as spec functions over characters
// ---------------------------------------------------------------------------

/// The first index at or after `i` holding `c`, or the length if none does.
pub open spec fn find_from(s: Seq<char>, c: char, i: int) -> int
    decreases s.len() - i,
{
    if i >= s.len() {
        s.len() as int
    } else if s[i] == c {
        i
    } else {
        find_from(s, c, i + 1)
    }
}

/// A leading `(word)` or `[word]`: the word, the bracket that opened it, and
/// what follows with leading white space dropped. The word must be non-empty
/// and hold no white space.
pub open spec fn marker_of(s: Seq<char>) -> Option<(Seq<char>, char, Seq<char>)> {
    if s.len() == 0 || (s[0] != '(' && s[0] != '[') {
        None
    } else {
        let close = if s[0] == '(' {
            ')'
        } else {
            ']'
        };
        let end = find_from(s, close, 0);
        if end >= s.len() {
            None
        } else {
            let body = s.subrange(1, end);
            if body.len() == 0 || has_space(body) {
                None
            } else {
                Some((body, s[0], trim_start(s.skip(end + 1))))
            }
        }
    }
}

pub proof fn lemma_trim_start_shorter(s: Seq<char>)
    ensures
        trim_start(s).len() <= s.len(),
    decreases s.len(),
{
    if s.len() > 0 && is_space(s[0]) {
        lemma_trim_start_shorter(s.drop_first());
    }
}

pub proof fn lemma_trim_end_shorter(s: Seq<char>)
    ensures
        trim_end(s).len() <= s.len(),
        trim_end(s) == s.take(trim_end(s).len() as int),
    decreases s.len(),
{
    if s.len() > 0 && is_space(s.last()) {
        lemma_trim_end_shorter(s.drop_last());
        assert(s.drop_last().take(trim_end(s).len() as int) =~= s.take(trim_end(s).len() as int));
    } else {
        assert(s.take(s.len() as int) =~= s);
    }
}

proof fn lemma_find_from_bounds(s: Seq<char>, c: char, i: int)
    requires
        0 <= i,
    ensures
        i <= find_from(s, c, i) || i > s.len(),
        find_from(s, c, i) <= s.len(),
        find_from(s, c, i) < s.len() ==> s[find_from(s, c, i)] == c,
    decreases s.len() - i,
{
    if i < s.len() && s[i] != c {
        lemma_find_from_bounds(s, c, i + 1);
    }
}

pub proof fn lemma_marker_shorter(s: Seq<char>)
    ensures
        marker_of(s) matches Some((m, o, rest)) ==> rest.len() < s.len() && rest == s.skip(
            s.len() - rest.len(),
        ),
{
    if let Some((m, o, rest)) = marker_of(s) {
        let close = if s[0] == '(' {
            ')'
        } else {
            ']'
        };
        let end = find_from(s, close, 0);
        lemma_find_from_bounds(s, close, 0);
        lemma_trim_start_range(s, end + 1, s.len() as int);
        assert(s.subrange(end + 1, s.len() as int) =~= s.skip(end + 1));
        let f = first_non_space(s, end + 1, s.len() as int);
        assert(rest =~= s.skip(s.len() - rest.len()));
    }
}

/// Leading markers, read until something that is not one: the project, the
/// tags, the pieces that had to be kept (a second project), and the rest.
pub open spec fn read_markers(
    rest: Seq<char>,
    project: Option<Seq<char>>,
    tags: Seq<Seq<char>>,
    kept: Seq<Seq<char>>,
) -> (Option<Seq<char>>, Seq<Seq<char>>, Seq<Seq<char>>, Seq<char>)
    decreases rest.len(),
{
    match marker_of(rest) {
        None => (project, tags, kept, rest),
        Some((word, open, remainder)) => {
            proof {
                lemma_marker_shorter(rest);
            }
            if open == '(' && project is None {
                read_markers(remainder, Some(word), tags, kept)
            } else if open == '[' {
                read_markers(remainder, project, tags.push(word), kept)
            } else {
                read_markers(
                    remainder,
                    project,
                    tags,
                    kept.push(rest.take(rest.len() - remainder.len())),
                )
            }
        },
    }
}

/// Each kept piece, trimmed and followed by one space.
pub open spec fn joined(kept: Seq<Seq<char>>) -> Seq<char>
    decreases kept.len(),
{
    if kept.len() == 0 {
        Seq::empty()
    } else {
        joined(kept.drop_last()) + trim(kept.last()) + seq![' ']
    }
}

pub enum Trailing {
    Owner(Seq<char>),
    Due(Seq<char>),
    Impact(u8),
    Effort(u8),
}

pub enum TrailStep {
    /// A trailing marker, and the text before it.
    Took(Trailing, Seq<char>),
    /// The last token is not a marker.
    Nothing,
    /// The last white space before the token is more than one byte long, so
    /// the byte-indexed split cannot be made.
    Unsplittable,
}

/// White space that takes more than one byte in UTF-8.
pub open spec fn is_wide_space(c: char) -> bool {
    is_space(c) && (c as u32) >= 0x80
}

/// The index of the last white space before `hi`, or -1.
pub open spec fn last_space_before(s: Seq<char>, hi: int) -> int
    decreases hi,
{
    if hi <= 0 {
        -1
    } else if is_space(s[hi - 1]) {
        hi - 1
    } else {
        last_space_before(s, hi - 1)
    }
}

/// A score is 1 to 10.
pub open spec fn score_of(s: Seq<char>) -> Option<u8> {
    match parse_unsigned(s, 255) {
        Some(n) => if 1 <= n <= 10 {
            Some(n as u8)
        } else {
            None
        },
        None => None,
    }
}

pub open spec fn today_word() -> Seq<char> {
    seq!['t', 'o', 'd', 'a', 'y']
}

pub open spec fn tomorrow_word() -> Seq<char> {
    seq!['t', 'o', 'm', 'o', 'r', 'r', 'o', 'w']
}

/// A `due:` value we understand: a real date, `today`, `tomorrow` (any
/// case), or `+N` with N at most 3650.
pub open spec fn is_due_word(s: Seq<char>) -> bool {
    ||| civil_days_of(s) is Some
    ||| same_ignoring_ascii_case(s, today_word())
    ||| same_ignoring_ascii_case(s, tomorrow_word())
    ||| (s.len() > 0 && s[0] == '+' && match parse_unsigned(s.drop_first(), 65535) {
        Some(n) => n <= 3650,
        None => false,
    })
}

pub open spec fn due_prefix() -> Seq<char> {
    seq!['d', 'u', 'e', ':']
}

pub open spec fn impact_long() -> Seq<char> {
    seq!['i', 'm', 'p', 'a', 'c', 't', ':']
}

pub open spec fn impact_short() -> Seq<char> {
    seq!['i', ':']
}

pub open spec fn effort_long() -> Seq<char> {
    seq!['e', 'f', 'f', 'o', 'r', 't', ':']
}

pub open spec fn effort_short() -> Seq<char> {
    seq!['e', ':']
}

/// What a final token says, if it is a marker.
pub open spec fn token_marker(token: Seq<char>) -> Option<Trailing> {
    if token.len() > 1 && token[0] == '@' {
        Some(Trailing::Owner(token.drop_first()))
    } else if has_prefix(token, due_prefix()) && is_due_word(token.skip(4)) {
        Some(Trailing::Due(token.skip(4)))
    } else if has_prefix(token, impact_long()) && score_of(token.skip(7)) is Some {
        Some(Trailing::Impact(score_of(token.skip(7))->0))
    } else if has_prefix(token, impact_short()) && score_of(token.skip(2)) is Some {
        Some(Trailing::Impact(score_of(token.skip(2))->0))
    } else if has_prefix(token, effort_long()) && score_of(token.skip(7)) is Some {
        Some(Trailing::Effort(score_of(token.skip(7))->0))
    } else if has_prefix(token, effort_short()) && score_of(token.skip(2)) is Some {
        Some(Trailing::Effort(score_of(token.skip(2))->0))
    } else {
        None
    }
}

/// One step from the back: the final white-space-separated token of the
/// line (trailing white space ignored), if it is a marker.
pub open spec fn trail_step(input: Seq<char>) -> TrailStep {
    let t = trim_end(input);
    let at = last_space_before(t, t.len() as int);
    if at >= 0 && is_wide_space(t[at]) {
        TrailStep::Unsplittable
    } else {
        let head = if at >= 0 {
            t.take(at)
        } else {
            Seq::empty()
        };
        let token = t.skip(at + 1);
        match token_marker(token) {
            Some(m) => TrailStep::Took(m, head),
            None => TrailStep::Nothing,
        }
    }
}

proof fn lemma_last_space_bounds(s: Seq<char>, hi: int)
    requires
        0 <= hi <= s.len(),
    ensures
        -1 <= last_space_before(s, hi) < hi,
        last_space_before(s, hi) >= 0 ==> is_space(s[last_space_before(s, hi)]),
        forall|j: int| last_space_before(s, hi) < j < hi ==> !is_space(#[trigger] s[j]),
    decreases hi,
{
    if hi > 0 && !is_space(s[hi - 1]) {
        lemma_last_space_bounds(s, hi - 1);
    }
}

pub proof fn lemma_trail_step_shorter(input: Seq<char>)
    ensures
        trail_step(input) matches TrailStep::Took(m, head) ==> head.len() < input.len(),
{
    let t = trim_end(input);
    lemma_trim_end_shorter(input);
    lemma_last_space_bounds(t, t.len() as int);
}

pub struct TrailingFound {
    pub head: Seq<char>,
    pub owner: Option<Seq<char>>,
    pub due: Option<Seq<char>>,
    pub impact: Option<u8>,
    pub effort: Option<u8>,
}

/// Trailing markers, rightmost first, until one is not a marker or repeats
/// one already read. `None` when a step is `Unsplittable`.
pub open spec fn read_trailing(found: TrailingFound) -> Option<TrailingFound>
    decreases found.head.len(),
{
    match trail_step(found.head) {
        TrailStep::Unsplittable => None,
        TrailStep::Nothing => Some(found),
        TrailStep::Took(m, rest) => {
            proof {
                lemma_trail_step_shorter(found.head);
            }
            match m {
                Trailing::Owner(n) => if found.owner is None {
                    read_trailing(TrailingFound { head: rest, owner: Some(n), ..found })
                } else {
                    Some(found)
                },
                Trailing::Due(d) => if found.due is None {
                    read_trailing(TrailingFound { head: rest, due: Some(d), ..found })
                } else {
                    Some(found)
                },
                Trailing::Impact(v) => if found.impact is None {
                    read_trailing(TrailingFound { head: rest, impact: Some(v), ..found })
                } else {
                    Some(found)
                },
                Trailing::Effort(v) => if found.effort is None {
                    read_trailing(TrailingFound { head: rest, effort: Some(v), ..found })
                } else {
                    Some(found)
                },
            }
        },
    }
}

/// Whether a tag equal to `t`, ignoring ASCII case, is among `kept`.
pub open spec fn has_tag(kept: Seq<Seq<char>>, t: Seq<char>) -> bool {
    exists|j: int| 0 <= j < kept.len() && same_ignoring_ascii_case(#[trigger] kept[j], t)
}

/// Each tag recorded once: a tag equal, ignoring ASCII case, to one
/// already kept is dropped, so the first spelling stays.
pub open spec fn dedup_tags(s: Seq<Seq<char>>) -> Seq<Seq<char>>
    decreases s.len(),
{
    if s.len() == 0 {
        s
    } else {
        let d = dedup_tags(s.drop_last());
        if has_tag(d, s.last()) {
            d
        } else {
            d.push(s.last())
        }
    }
}

/// The body left once the leading markers are read.
pub open spec fn body_of(input: Seq<char>) -> Seq<char> {
    let (project, tags, kept, rest) = read_markers(trim(input), None, Seq::empty(), Seq::empty());
    trim(joined(kept) + rest)
}

/// What `parse` reads from a line, or `None` where a byte-indexed split
/// would land inside a multi-byte white space character.
pub open spec fn capture_of(input: Seq<char>) -> Option<CapturedView> {
    let (project, tags, kept, rest) = read_markers(trim(input), None, Seq::empty(), Seq::empty());
    let body = trim(joined(kept) + rest);
    match read_trailing(
        TrailingFound { head: body, owner: None, due: None, impact: None, effort: None },
    ) {
        None => None,
        Some(found) => {
            let title = trim(found.head);
            if title.len() == 0 {
                Some(
                    CapturedView {
                        title: trim(input),
                        project: None,
                        tags: Seq::empty(),
                        owner: None,
                        due: None,
                        impact: None,
                        effort: None,
                    },
                )
            } else {
                Some(
                    CapturedView {
                        title,
                        project,
                        tags: dedup_tags(tags),
                        owner: found.owner,
                        due: found.due,
                        impact: found.impact,
                        effort: found.effort,
                    },
                )
            }
        },
    }
}

/// What `resolve_due` gives for a token on a given day.
pub open spec fn resolved_due(token: Seq<char>, today: Seq<char>) -> Option<Seq<char>> {
    if civil_days_of(token) is Some {
        Some(token)
    } else if same_ignoring_ascii_case(token, today_word()) {
        Some(today)
    } else {
        let offset = if same_ignoring_ascii_case(token, tomorrow_word()) {
            Some(1int)
        } else if token.len() > 0 && token[0] == '+' {
            parse_i64(token.drop_first())
        } else {
            None
        };
        match (offset, civil_days_of(today)) {
            (Some(n), Some(d)) => Some(civil_date_of(d + n)),
            _ => None,
        }
    }
}

/// Whether `resolve_due` can add the offset without leaving `i64`.
pub open spec fn resolvable(token: Seq<char>, today: Seq<char>) -> bool {
    civil_days_of(token) is None && !same_ignoring_ascii_case(token, today_word())
        && !same_ignoring_ascii_case(token, tomorrow_word()) && token.len() > 0 && token[0] == '+'
        ==> match (parse_i64(token.drop_first()), civil_days_of(today)) {
        (Some(n), Some(d)) => i64::MIN <= d + n <= i64::MAX,
        _ => true,
    }
}

// ---------------------------------------------------------------------------
// the grammar, executed
// ---------------------------------------------------------------------------

fn word_today() -> (v: Vec<char>)
    ensures
        v@ == today_word(),
{
    let mut v: Vec<char> = Vec::new();
    v.push('t');
    v.push('o');
    v.push('d');
    v.push('a');
    v.push('y');
    assert(v@ =~= today_word());
    v
}

fn word_tomorrow() -> (v: Vec<char>)
    ensures
        v@ == tomorrow_word(),
{
    let mut v: Vec<char> = Vec::new();
    v.push('t');
    v.push('o');
    v.push('m');
    v.push('o');
    v.push('r');
    v.push('r');
    v.push('o');
    v.push('w');
    assert(v@ =~= tomorrow_word());
    v
}

fn word_of(s: &str) -> (v: Vec<char>)
    ensures
        v@ == s@,
{
    chars_of(s)
}

/// `value.parse::<u8>()` within 1 to 10.
fn score(value: &[char]) -> (r: Option<u8>)
    ensures
        r == score_of(value@),
{
    match parse_unsigned_at_most(value, 255) {
        Some(n) => {
            if 1 <= n && n <= 10 {
                Some(n as u8)
            } else {
                None
            }
        },
        None => None,
    }
}

/// Whether a `due:` value is one we understand. Deliberately strict: a date
/// we cannot read is left in the title rather than guessed at.
fn is_due_token(value: &[char]) -> (r: bool)
    ensures
        r == is_due_word(value@),
{
    let text = string_of(value);
    if civil_days(text.as_str()).is_some() {
        return true;
    }
    let today = word_today();
    let tomorrow = word_tomorrow();
    if eq_ignore_case(value, today.as_slice()) || eq_ignore_case(value, tomorrow.as_slice()) {
        return true;
    }
    if value.len() > 0 && value[0] == '+' {
        let rest = subvec(value, 1, value.len());
        assert(rest@ =~= value@.drop_first());
        match parse_unsigned_at_most(rest.as_slice(), 65535) {
            Some(n) => n <= 3650,
            None => false,
        }
    } else {
        false
    }
}

/// Turn a due token into a date, given what day it is.
///
/// Kept out of `parse` so reading a line stays a pure function of the line;
/// the clock belongs to the caller.
pub fn resolve_due(token: &str, today: &str) -> (r: Option<String>)
    requires
        resolvable(token@, today@),
    ensures
        r.deep_view() == resolved_due(token@, today@),
{
    if civil_days(token).is_some() {
        return Some(token.to_owned());
    }
    let v = chars_of(token);
    let w_today = word_today();
    let w_tomorrow = word_tomorrow();
    if eq_ignore_case(v.as_slice(), w_today.as_slice()) {
        return Some(today.to_owned());
    }
    let days: i64 = if eq_ignore_case(v.as_slice(), w_tomorrow.as_slice()) {
        1
    } else if v.len() > 0 && v[0] == '+' {
        let rest = subvec(v.as_slice(), 1, v.len());
        assert(rest@ =~= v@.drop_first());
        match parse_i64_chars(rest.as_slice()) {
            Some(n) => n,
            None => return None,
        }
    } else {
        return None;
    };
    proof {
        lemma_civil_days_bounded(today@);
    }
    match civil_days(today) {
        Some(d) => Some(civil_date(d + days)),
        None => None,
    }
}

/// Whether `resolve_due` can take this token on this day, that is whether
/// an offset added to the day stays within `i64`.
pub fn can_resolve(token: &str, today: &str) -> (r: bool)
    ensures
        r == resolvable(token@, today@),
{
    if civil_days(token).is_some() {
        return true;
    }
    let v = chars_of(token);
    let w_today = word_today();
    let w_tomorrow = word_tomorrow();
    if eq_ignore_case(v.as_slice(), w_today.as_slice()) || eq_ignore_case(v.as_slice(), w_tomorrow.as_slice()) {
        return true;
    }
    if !(v.len() > 0 && v[0] == '+') {
        return true;
    }
    let rest = subvec(v.as_slice(), 1, v.len());
    assert(rest@ =~= v@.drop_first());
    let n = match parse_i64_chars(rest.as_slice()) {
        Some(n) => n,
        None => return true,
    };
    match civil_days(today) {
        Some(d) => {
            let sum: i128 = d as i128 + n as i128;
            sum >= -0x8000_0000_0000_0000i128 && sum <= 0x7fff_ffff_ffff_ffffi128
        },
        None => true,
    }
}

/// Whether a line can be captured on `today`: `parse` can read it, and a
/// due token it names can be resolved.
pub fn can_capture(input: &str, today: &str) -> (r: bool)
    ensures
        r == (capture_of(input@) is Some && (capture_of(input@)->0.due matches Some(d) ==> resolvable(d, today@))),
{
    match read_line(input) {
        Some(c) => match &c.due {
            Some(d) => can_resolve(d.as_str(), today),
            None => true,
        },
        None => false,
    }
}

/// `find_from(s, c, 0)`, computed.
fn find_index(v: &[char], c: char) -> (r: usize)
    ensures
        r as int == find_from(v@, c, 0),
{
    let mut i: usize = 0;
    while i < v.len() && v[i] != c
        invariant
            i <= v@.len(),
            find_from(v@, c, i as int) == find_from(v@, c, 0),
        decreases v@.len() - i,
    {
        i = i + 1;
    }
    i
}

/// Take one leading `(word)` or `[word]` marker.
fn take_marker(v: &[char]) -> (r: Option<(Vec<char>, char, Vec<char>)>)
    ensures
        match (r, marker_of(v@)) {
            (Some((w, o, rest)), Some((sw, so, srest))) => w@ == sw && o == so && rest@ == srest,
            (None, None) => true,
            _ => false,
        },
{
    if v.len() == 0 {
        return None;
    }
    let open = v[0];
    let close = if open == '(' {
        ')'
    } else if open == '[' {
        ']'
    } else {
        return None;
    };
    let end = find_index(v, close);
    if end >= v.len() {
        return None;
    }
    proof {
        lemma_find_from_bounds(v@, close, 0);
    }
    let body = subvec(v, 1, end);
    if body.len() == 0 || any_space(body.as_slice()) {
        return None;
    }
    let after = subvec(v, end + 1, v.len());
    assert(after@ =~= v@.skip(end + 1));
    let rest = trimmed_start(after.as_slice());
    Some((body, open, rest))
}

/// The final token's marker, if any, and whether the split is possible.
fn take_trailing(input: &[char]) -> (r: (bool, Option<(Trailing_, Vec<char>)>))
    ensures
        match trail_step(input@) {
            TrailStep::Unsplittable => !r.0,
            TrailStep::Nothing => r.0 && r.1 is None,
            TrailStep::Took(m, head) => r.0 && (r.1 matches Some((t, h)) && t.view() == m && h@ == head),
        },
{
    let t = trimmed_end(input);
    let mut j: usize = t.len();
    while j > 0 && !is_space_char(t[j - 1])
        invariant
            j <= t@.len(),
            last_space_before(t@, j as int) == last_space_before(t@, t@.len() as int),
        decreases j,
    {
        j = j - 1;
    }
    proof {
        lemma_last_space_bounds(t@, t@.len() as int);
    }
    // j is one past the last white space, or zero when there is none.
    let (head, token) = if j > 0 {
        let c = t[j - 1];
        if is_space_char(c) && (c as u32) >= 0x80 {
            return (false, None);
        }
        (subvec(t.as_slice(), 0, j - 1), subvec(t.as_slice(), j, t.len()))
    } else {
        (Vec::new(), subvec(t.as_slice(), 0, t.len()))
    };
    proof {
        let at = last_space_before(t@, t@.len() as int);
        assert(j as int == at + 1);
        assert(token@ =~= t@.skip(at + 1));
        if at >= 0 {
            assert(head@ =~= t@.take(at));
        } else {
            assert(head@ =~= Seq::<char>::empty());
        }
    }
    match token_marker_exec(token.as_slice()) {
        Some(m) => (true, Some((m, head))),
        None => (true, None),
    }
}

/// A trailing marker, as the executable code holds it.
pub enum Trailing_ {
    Owner(Vec<char>),
    Due(Vec<char>),
    Impact(u8),
    Effort(u8),
}

impl Trailing_ {
    pub open spec fn view(&self) -> Trailing {
        match self {
            Trailing_::Owner(v) => Trailing::Owner(v@),
            Trailing_::Due(v) => Trailing::Due(v@),
            Trailing_::Impact(n) => Trailing::Impact(*n),
            Trailing_::Effort(n) => Trailing::Effort(*n),
        }
    }
}

fn token_marker_exec(token: &[char]) -> (r: Option<Trailing_>)
    ensures
        match (r, token_marker(token@)) {
            (Some(t), Some(m)) => t.view() == m,
            (None, None) => true,
            _ => false,
        },
{
    if token.len() > 1 && token[0] == '@' {
        let name = subvec(token, 1, token.len());
        assert(name@ =~= token@.drop_first());
        return Some(Trailing_::Owner(name));
    }
    let due = word_of("due:");
    proof {
        reveal_strlit("due:");
        assert(due@ =~= due_prefix());
    }
    if let Some(date) = strip_prefix(token, due.as_slice()) {
        if is_due_token(date.as_slice()) {
            return Some(Trailing_::Due(date));
        }
    }
    let impact_l = word_of("impact:");
    let impact_s = word_of("i:");
    let effort_l = word_of("effort:");
    let effort_s = word_of("e:");
    proof {
        reveal_strlit("impact:");
        reveal_strlit("i:");
        reveal_strlit("effort:");
        reveal_strlit("e:");
        assert(impact_l@ =~= impact_long());
        assert(impact_s@ =~= impact_short());
        assert(effort_l@ =~= effort_long());
        assert(effort_s@ =~= effort_short());
    }
    if let Some(value) = strip_prefix(token, impact_l.as_slice()) {
        if let Some(n) = score(value.as_slice()) {
            return Some(Trailing_::Impact(n));
        }
    }
    if let Some(value) = strip_prefix(token, impact_s.as_slice()) {
        if let Some(n) = score(value.as_slice()) {
            return Some(Trailing_::Impact(n));
        }
    }
    if let Some(value) = strip_prefix(token, effort_l.as_slice()) {
        if let Some(n) = score(value.as_slice()) {
            return Some(Trailing_::Effort(n));
        }
    }
    if let Some(value) = strip_prefix(token, effort_s.as_slice()) {
        if let Some(n) = score(value.as_slice()) {
            return Some(Trailing_::Effort(n));
        }
    }
    None
}

fn strings_of(v: &Vec<Vec<char>>) -> (r: Vec<String>)
    ensures
        r.deep_view() == v@.map_values(|x: Vec<char>| x@),
{
    let mut r: Vec<String> = Vec::new();
    let mut i: usize = 0;
    while i < v.len()
        invariant
            i <= v@.len(),
            r@.len() == i,
            forall|j: int| 0 <= j < i ==> (#[trigger] r@[j])@ == v@[j]@,
        decreases v@.len() - i,
    {
        r.push(string_of(v[i].as_slice()));
        i = i + 1;
    }
    assert(r.deep_view() =~= v@.map_values(|x: Vec<char>| x@));
    r
}

fn opt_string(o: Option<Vec<char>>) -> (r: Option<String>)
    ensures
        r.deep_view() == match o {
            Some(v) => Some(v@),
            None => None,
        },
{
    match o {
        Some(v) => Some(string_of(v.as_slice())),
        None => None,
    }
}

/// Whether `parse` can read this line: false only where its byte-indexed
/// split would land inside a multi-byte white space character.
pub fn parses(input: &str) -> (r: bool)
    ensures
        r == capture_of(input@) is Some,
{
    match read_line(input) {
        Some(_) => true,
        None => false,
    }
}

/// Split a typed line into a title, a project, tags, an owner, a due token
/// and scores.
///
/// Leading `(project)` and `[tag]` markers are consumed in any order until
/// something that is not a marker appears; a second project marker is kept
/// in the title. Trailing `@owner`, `due:`, `impact:`/`i:` and
/// `effort:`/`e:` are taken from the end, rightmost first, until one is not
/// a marker or repeats. A line that is nothing but markers is kept as typed.
pub fn parse(input: &str) -> (r: Captured)
    requires
        capture_of(input@) is Some,
    ensures
        capture_of(input@) == Some(r@),
{
    match read_line(input) {
        Some(c) => c,
        None => {
            proof {
                assert(false);
            }
            Captured {
                title: String::new(),
                project: None,
                tags: Vec::new(),
                owner: None,
                due: None,
                impact: None,
                effort: None,
            }
        },
    }
}

fn read_line(input: &str) -> (r: Option<Captured>)
    ensures
        match (r, capture_of(input@)) {
            (Some(c), Some(s)) => c@ == s,
            (None, None) => true,
            _ => false,
        },
{
    let all = chars_of(input);
    let mut rest = trimmed(all.as_slice());
    let ghost start = rest@;
    let mut project: Option<Vec<char>> = None;
    let mut tags: Vec<Vec<char>> = Vec::new();
    let mut kept: Vec<Vec<char>> = Vec::new();
    assert(tags@.map_values(|x: Vec<char>| x@) =~= Seq::<Seq<char>>::empty());
    assert(kept@.map_values(|x: Vec<char>| x@) =~= Seq::<Seq<char>>::empty());
    loop
        invariant
            read_markers(
                rest@,
                match project {
                    Some(p) => Some(p@),
                    None => None,
                },
                tags@.map_values(|x: Vec<char>| x@),
                kept@.map_values(|x: Vec<char>| x@),
            ) == read_markers(start, None, Seq::empty(), Seq::empty()),
            start == trim(input@),
        ensures
            read_markers(
                rest@,
                match project {
                    Some(p) => Some(p@),
                    None => None,
                },
                tags@.map_values(|x: Vec<char>| x@),
                kept@.map_values(|x: Vec<char>| x@),
            ) == read_markers(start, None, Seq::empty(), Seq::empty()),
            start == trim(input@),
            marker_of(rest@) is None,
        decreases rest@.len(),
    {
        proof {
            lemma_marker_shorter(rest@);
        }
        match take_marker(rest.as_slice()) {
            None => {
                break ;
            },
            Some((word, open, remainder)) => {
                let ghost old_tags = tags@.map_values(|x: Vec<char>| x@);
                let ghost old_kept = kept@.map_values(|x: Vec<char>| x@);
                if open == '(' && project.is_none() {
                    project = Some(word);
                } else if open == '[' {
                    tags.push(word);
                    assert(tags@.map_values(|x: Vec<char>| x@) =~= old_tags.push(word@));
                } else {
                    let piece = subvec(rest.as_slice(), 0, rest.len() - remainder.len());
                    kept.push(piece);
                    assert(kept@.map_values(|x: Vec<char>| x@) =~= old_kept.push(
                        rest@.take(rest@.len() - remainder@.len()),
                    ));
                }
                rest = remainder;
            },
        }
    }
    let ghost markers = read_markers(start, None, Seq::empty(), Seq::empty());
    assert(markers.3 == rest@);
    assert(markers.2 == kept@.map_values(|x: Vec<char>| x@));
    assert(markers.1 == tags@.map_values(|x: Vec<char>| x@));
    // The body: each kept piece trimmed and followed by a space, then the rest.
    let mut body: Vec<char> = Vec::new();
    let mut i: usize = 0;
    while i < kept.len()
        invariant
            i <= kept@.len(),
            body@ == joined(kept@.map_values(|x: Vec<char>| x@).take(i as int)),
        decreases kept@.len() - i,
    {
        let piece = trimmed(kept[i].as_slice());
        append_to(&mut body, piece.as_slice());
        body.push(' ');
        i = i + 1;
        proof {
            let ks = kept@.map_values(|x: Vec<char>| x@);
            assert(ks.take(i as int).drop_last() =~= ks.take(i - 1));
            assert(body@ =~= joined(ks.take(i as int)));
        }
    }
    proof {
        let ks = kept@.map_values(|x: Vec<char>| x@);
        assert(ks.take(kept@.len() as int) =~= ks);
    }
    append_to(&mut body, rest.as_slice());
    let body = trimmed(body.as_slice());
    assert(body@ == trim(joined(markers.2) + markers.3));
    // Owner, due date and scores, from the back.
    let mut head = body;
    let mut owner: Option<Vec<char>> = None;
    let mut due: Option<Vec<char>> = None;
    let mut impact: Option<u8> = None;
    let mut effort: Option<u8> = None;
    let ghost first = TrailingFound {
        head: head@,
        owner: None,
        due: None,
        impact: None,
        effort: None,
    };
    assert(capture_of(input@) is None <==> read_trailing(first) is None);
    loop
        invariant
            capture_of(input@) is None <==> read_trailing(first) is None,
            read_trailing(first) == read_trailing(
                TrailingFound {
                    head: head@,
                    owner: match owner {
                        Some(v) => Some(v@),
                        None => None,
                    },
                    due: match due {
                        Some(v) => Some(v@),
                        None => None,
                    },
                    impact,
                    effort,
                },
            ),
        ensures
            read_trailing(first) == Some(
                TrailingFound {
                    head: head@,
                    owner: match owner {
                        Some(v) => Some(v@),
                        None => None,
                    },
                    due: match due {
                        Some(v) => Some(v@),
                        None => None,
                    },
                    impact,
                    effort,
                },
            ),
        decreases head@.len(),
    {
        proof {
            lemma_trail_step_shorter(head@);
        }
        let (splittable, step) = take_trailing(head.as_slice());
        if !splittable {
            assert(read_trailing(first) is None);
            return None;
        }
        match step {
            None => {
                break ;
            },
            Some((m, remainder)) => {
                match m {
                    Trailing_::Owner(name) => {
                        if owner.is_some() {
                            break ;
                        }
                        owner = Some(name);
                    },
                    Trailing_::Due(date) => {
                        if due.is_some() {
                            break ;
                        }
                        due = Some(date);
                    },
                    Trailing_::Impact(value) => {
                        if impact.is_some() {
                            break ;
                        }
                        impact = Some(value);
                    },
                    Trailing_::Effort(value) => {
                        if effort.is_some() {
                            break ;
                        }
                        effort = Some(value);
                    },
                }
                head = remainder;
            },
        }
    }
    let title = trimmed(head.as_slice());
    if title.len() == 0 {
        let whole = trimmed(all.as_slice());
        let r = Captured {
            title: string_of(whole.as_slice()),
            project: None,
            tags: Vec::new(),
            owner: None,
            due: None,
            impact: None,
            effort: None,
        };
        assert(r@.tags =~= Seq::<Seq<char>>::empty());
        return Some(r);
    }
    let deduped = dedup_ignoring_case(&tags);
    let r = Captured {
        title: string_of(title.as_slice()),
        project: opt_string(project),
        tags: strings_of(&deduped),
        owner: opt_string(owner),
        due: opt_string(due),
        impact,
        effort,
    };
    Some(r)
}

/// Each tag once, ignoring ASCII case; the first spelling stays.
fn dedup_ignoring_case(tags: &Vec<Vec<char>>) -> (r: Vec<Vec<char>>)
    ensures
        r@.map_values(|x: Vec<char>| x@) == dedup_tags(tags@.map_values(|x: Vec<char>| x@)),
{
    let ghost all = tags@.map_values(|x: Vec<char>| x@);
    let mut r: Vec<Vec<char>> = Vec::new();
    let mut i: usize = 0;
    while i < tags.len()
        invariant
            i <= tags@.len(),
            all == tags@.map_values(|x: Vec<char>| x@),
            r@.map_values(|x: Vec<char>| x@) == dedup_tags(all.take(i as int)),
        decreases tags@.len() - i,
    {
        let ghost before = r@.map_values(|x: Vec<char>| x@);
        let mut seen = false;
        let mut k: usize = 0;
        while k < r.len()
            invariant
                k <= r@.len(),
                i < tags@.len(),
                before == r@.map_values(|x: Vec<char>| x@),
                seen == exists|j: int| 0 <= j < k && same_ignoring_ascii_case(#[trigger] before[j], tags@[i as int]@),
            decreases r@.len() - k,
        {
            if eq_ignore_case(r[k].as_slice(), tags[i].as_slice()) {
                seen = true;
            }
            proof {
                assert(before[k as int] == r@[k as int]@);
            }
            k = k + 1;
        }
        if !seen {
            r.push(subvec(tags[i].as_slice(), 0, tags[i].len()));
        }
        i = i + 1;
        proof {
            let s = all.take(i as int);
            assert(s.drop_last() =~= all.take(i - 1));
            assert(s.last() == all[i - 1]);
            assert(all[i - 1] == tags@[i - 1]@);
            assert(tags@[i - 1]@.subrange(0, tags@[i - 1]@.len() as int) =~= tags@[i - 1]@);
            assert(seen == has_tag(before, s.last()));
            if !seen {
                assert(r@.map_values(|x: Vec<char>| x@) =~= before.push(all[i - 1]));
            } else {
                assert(r@.map_values(|x: Vec<char>| x@) =~= before);
            }
        }
    }
    proof {
        assert(all.take(tags@.len() as int) =~= all);
    }
    r
}

} // verus!
