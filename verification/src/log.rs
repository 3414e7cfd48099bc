//! The task log.
//!
//! Tasks are kept as an append-only log of records, one per change. Reading
//! the store replays the log: the newest record for each id wins, by
//! revision and then by write time, and a tombstone removes its task. That
//! makes two devices' logs safe to concatenate, because order within the log
//! stops mattering except between records that tie exactly.

use vstd::prelude::*;

use crate::error::{Result, TaskError};
use crate::model::{Task, TaskView};
use crate::sorting::{chars_lt, lemma_text_less_order, text_less};
use crate::store::{find_task, lemma_find_task};
use crate::text::{chars_of, str_eq};

verus! {

/// Once the log holds this many times as many records as live tasks, it is
/// folded back down to one record per task.
pub const COMPACT_RATIO: usize = 4;

/// A log shorter than this is never folded.
pub const COMPACT_FLOOR: usize = 200;

/// The views of a run of tasks.
pub open spec fn views(s: Seq<Task>) -> Seq<TaskView> {
    s.map_values(|t: Task| t@)
}

/// Two versions of a task that differ in nothing a user could have changed.
///
/// `revision` and `updated_at` are bookkeeping: comparing them would make
/// every task look changed on every save.
pub open spec fn same_task(a: TaskView, b: TaskView) -> bool {
    TaskView { revision: 0, updated_at: 0, ..a } == TaskView { revision: 0, updated_at: 0, ..b }
}

/// Whether record `a` is newer than record `b`: a higher revision, or the
/// same revision written later.
pub open spec fn beats(a: TaskView, b: TaskView) -> bool {
    a.revision > b.revision || (a.revision == b.revision && a.updated_at > b.updated_at)
}

/// The newest record for each id, reading the log from the start. A record
/// that ties with the one held replaces it.
pub open spec fn latest(records: Seq<TaskView>) -> Map<Seq<char>, TaskView>
    decreases records.len(),
{
    if records.len() == 0 {
        Map::empty()
    } else {
        let m = latest(records.drop_last());
        let t = records.last();
        if m.contains_key(t.id) && beats(m[t.id], t) {
            m
        } else {
            m.insert(t.id, t)
        }
    }
}

/// The order replayed tasks come back in: by creation time, then by id.
#[verifier::opaque]
pub open spec fn key_less(a: TaskView, b: TaskView) -> bool {
    a.created_at < b.created_at || (a.created_at == b.created_at && text_less(a.id, b.id))
}

/// `r` is the replay of the newest records `m`: every live one, nothing
/// else, in key order.
pub open spec fn is_replay(m: Map<Seq<char>, TaskView>, r: Seq<TaskView>) -> bool {
    &&& forall|i: int|
        0 <= i < r.len() ==> m.contains_key(#[trigger] r[i].id) && m[r[i].id] == r[i] && !r[i].deleted
    &&& forall|id: Seq<char>|
        #[trigger] m.contains_key(id) && !m[id].deleted ==> exists|i: int| 0 <= i < r.len() && r[i].id == id
    &&& forall|i: int, j: int| 0 <= i < j < r.len() ==> key_less(#[trigger] r[i], #[trigger] r[j])
}

/// Every record in the map is filed under its own id.
pub proof fn lemma_latest_keys(records: Seq<TaskView>)
    ensures
        forall|id: Seq<char>| #[trigger] latest(records).contains_key(id) ==> latest(records)[id].id == id,
    decreases records.len(),
{
    if records.len() > 0 {
        lemma_latest_keys(records.drop_last());
    }
}

/// Reading one more record is one more step of the fold.
pub proof fn lemma_latest_push(records: Seq<TaskView>, t: TaskView)
    ensures
        latest(records.push(t)) == ({
            let m = latest(records);
            if m.contains_key(t.id) && beats(m[t.id], t) {
                m
            } else {
                m.insert(t.id, t)
            }
        }),
{
    assert(records.push(t).drop_last() =~= records);
}

proof fn lemma_key_order(a: TaskView, b: TaskView, c: TaskView)
    ensures
        !key_less(a, a),
        key_less(a, b) && key_less(b, c) ==> key_less(a, c),
        a.id != b.id ==> key_less(a, b) || key_less(b, a),
{
    reveal(key_less);
    lemma_text_less_order(a.id, b.id, c.id);
    lemma_text_less_order(b.id, c.id, a.id);
    lemma_text_less_order(a.id, c.id, b.id);
}

fn opt_u8_eq(a: Option<u8>, b: Option<u8>) -> (r: bool)
    ensures
        r == (a == b),
{
    match (a, b) {
        (Some(x), Some(y)) => x == y,
        (None, None) => true,
        _ => false,
    }
}

fn opt_u32_eq(a: Option<u32>, b: Option<u32>) -> (r: bool)
    ensures
        r == (a == b),
{
    match (a, b) {
        (Some(x), Some(y)) => x == y,
        (None, None) => true,
        _ => false,
    }
}

fn opt_u64_eq(a: Option<u64>, b: Option<u64>) -> (r: bool)
    ensures
        r == (a == b),
{
    match (a, b) {
        (Some(x), Some(y)) => x == y,
        (None, None) => true,
        _ => false,
    }
}

/// Whether two optional texts are equal.
pub fn opt_str_eq(a: &Option<String>, b: &Option<String>) -> (r: bool)
    ensures
        r == (a.deep_view() == b.deep_view()),
{
    match (a, b) {
        (Some(x), Some(y)) => str_eq(x.as_str(), y.as_str()),
        (None, None) => true,
        _ => false,
    }
}

/// Whether two lists of texts are equal.
pub fn strings_eq(a: &Vec<String>, b: &Vec<String>) -> (r: bool)
    ensures
        r == (a.deep_view() == b.deep_view()),
{
    if a.len() != b.len() {
        assert(a.deep_view().len() != b.deep_view().len());
        return false;
    }
    let mut i: usize = 0;
    while i < a.len()
        invariant
            a@.len() == b@.len(),
            i <= a@.len(),
            forall|j: int| 0 <= j < i ==> a.deep_view()[j] == b.deep_view()[j],
        decreases a@.len() - i,
    {
        if !str_eq(a[i].as_str(), b[i].as_str()) {
            assert(a.deep_view()[i as int] != b.deep_view()[i as int]);
            return false;
        }
        i = i + 1;
    }
    assert(a.deep_view() =~= b.deep_view());
    true
}

/// Whether two versions of a task differ only in bookkeeping.
pub fn same_version(a: &Task, b: &Task) -> (r: bool)
    ensures
        r == same_task(a@, b@),
{
    str_eq(a.id.as_str(), b.id.as_str()) && str_eq(a.title.as_str(), b.title.as_str())
        && opt_str_eq(&a.notes, &b.notes) && a.status == b.status && str_eq(
        a.list_id.as_str(),
        b.list_id.as_str(),
    ) && a.order == b.order && opt_str_eq(&a.due, &b.due) && a.today == b.today && strings_eq(
        &a.tags,
        &b.tags,
    ) && opt_str_eq(&a.project, &b.project) && opt_str_eq(&a.project_code, &b.project_code)
        && opt_str_eq(&a.assignee, &b.assignee) && opt_str_eq(&a.assigned_by, &b.assigned_by)
        && opt_str_eq(&a.origin, &b.origin) && opt_u8_eq(a.priority, b.priority) && opt_u32_eq(
        a.estimate_minutes,
        b.estimate_minutes,
    ) && opt_u8_eq(a.impact, b.impact) && opt_u8_eq(a.effort, b.effort) && a.created_at
        == b.created_at && opt_u64_eq(a.completed_at, b.completed_at) && opt_str_eq(
        &a.external_id,
        &b.external_id,
    ) && a.deleted == b.deleted
}

/// Whether the record `a` is newer than `b`.
pub fn newer(a: &Task, b: &Task) -> (r: bool)
    ensures
        r == beats(a@, b@),
{
    a.revision > b.revision || (a.revision == b.revision && a.updated_at > b.updated_at)
}

/// Whether `a` comes before `b` in replay order.
pub fn replay_before(a: &Task, b: &Task) -> (r: bool)
    ensures
        r == key_less(a@, b@),
{
    reveal(key_less);
    if a.created_at < b.created_at {
        return true;
    }
    if a.created_at > b.created_at {
        return false;
    }
    let x = chars_of(a.id.as_str());
    let y = chars_of(b.id.as_str());
    chars_lt(x.as_slice(), y.as_slice())
}

/// The index of the task with this id, searching the whole run.
fn position_of(tasks: &Vec<Task>, id: &str) -> (r: Option<usize>)
    ensures
        match r {
            Some(i) => i < tasks@.len() && tasks@[i as int]@.id == id@ && i == find_task(views(tasks@), id@, 0),
            None => (forall|i: int| 0 <= i < tasks@.len() ==> tasks@[i]@.id != id@) && find_task(views(tasks@), id@, 0) == tasks@.len(),
        },
{
    let mut i: usize = 0;
    while i < tasks.len()
        invariant
            i <= tasks@.len(),
            forall|j: int| 0 <= j < i ==> tasks@[j]@.id != id@,
            find_task(views(tasks@), id@, i as int) == find_task(views(tasks@), id@, 0),
        decreases tasks@.len() - i,
    {
        if str_eq(tasks[i].id.as_str(), id) {
            return Some(i);
        }
        i = i + 1;
    }
    None
}

/// The text of the error for a log in which no record could be read.
pub open spec fn no_readable_records() -> Seq<char> {
    "no readable task records in tasks.jsonl"@
}

/// Fold the log down to the live tasks.
///
/// `records` are the log's records that could be read, in file order, and
/// `unreadable` counts the lines that could not. One unreadable line is
/// skipped; a log where nothing can be read is corruption, and is reported
/// rather than presented as an empty store.
pub fn replay(records: &Vec<Task>, unreadable: usize) -> (r: Result<Vec<Task>>)
    ensures
        match r {
            Ok(tasks) => !(records@.len() == 0 && unreadable > 0) && is_replay(
                latest(views(records@)),
                views(tasks@),
            ),
            Err(e) => records@.len() == 0 && unreadable > 0 && e == TaskError::Corrupt(
                e->Corrupt_0,
            ) && e->Corrupt_0@ == no_readable_records(),
        },
{
    if records.len() == 0 && unreadable > 0 {
        proof {
            reveal_strlit("no readable task records in tasks.jsonl");
        }
        return Err(TaskError::Corrupt("no readable task records in tasks.jsonl".to_owned()));
    }
    let newest = newest_records(records);
    let live = without_tombstones(&newest, Ghost(latest(views(records@))));
    Ok(in_replay_order(live, Ghost(latest(views(records@)))))
}

/// `acc` holds exactly the newest record for each id of `m`, once each.
pub open spec fn holds_newest(acc: Seq<TaskView>, m: Map<Seq<char>, TaskView>) -> bool {
    &&& forall|i: int, j: int| 0 <= i < j < acc.len() ==> (#[trigger] acc[i]).id != (#[trigger] acc[j]).id
    &&& forall|i: int| 0 <= i < acc.len() ==> m.contains_key(#[trigger] acc[i].id) && m[acc[i].id] == acc[i]
    &&& forall|id: Seq<char>| #[trigger] m.contains_key(id) ==> exists|i: int| 0 <= i < acc.len() && acc[i].id == id
}

fn newest_records(records: &Vec<Task>) -> (acc: Vec<Task>)
    ensures
        holds_newest(views(acc@), latest(views(records@))),
{
    let mut acc: Vec<Task> = Vec::new();
    let mut k: usize = 0;
    while k < records.len()
        invariant
            k <= records@.len(),
            holds_newest(views(acc@), latest(views(records@).take(k as int))),
        decreases records@.len() - k,
    {
        let ghost before = views(acc@);
        let ghost m = latest(views(records@).take(k as int));
        let t = &records[k];
        proof {
            assert(views(records@).take(k + 1) =~= views(records@).take(k as int).push(t@));
            lemma_latest_push(views(records@).take(k as int), t@);
        }
        let ghost m2 = latest(views(records@).take(k + 1));
        match position_of(&acc, t.id.as_str()) {
            Some(j) => {
                proof {
                    assert(views(acc@)[j as int] == acc@[j as int]@);
                    assert(m[t@.id] == acc@[j as int]@);
                }
                if !newer(&acc[j], t) {
                    let copy = t.duplicate();
                    acc.set(j, copy);
                    proof {
                        assert(views(acc@) =~= before.update(j as int, t@));
                        assert(m2 == m.insert(t@.id, t@));
                        assert forall|id: Seq<char>| #[trigger] m2.contains_key(id) implies exists|i: int|
                            0 <= i < views(acc@).len() && views(acc@)[i].id == id by {
                            if id != t@.id {
                                let i = choose|i: int| 0 <= i < before.len() && before[i].id == id;
                                assert(views(acc@)[i].id == id);
                            } else {
                                assert(views(acc@)[j as int].id == id);
                            }
                        }
                    }
                } else {
                    proof {
                        assert(m2 == m);
                    }
                }
            },
            None => {
                let copy = t.duplicate();
                acc.push(copy);
                proof {
                    assert(views(acc@) =~= before.push(t@));
                    assert(!m.contains_key(t@.id)) by {
                        if m.contains_key(t@.id) {
                            let i = choose|i: int| 0 <= i < before.len() && before[i].id == t@.id;
                            assert(acc@[i]@.id == t@.id);
                        }
                    }
                    assert(m2 == m.insert(t@.id, t@));
                    assert forall|id: Seq<char>| #[trigger] m2.contains_key(id) implies exists|i: int|
                        0 <= i < views(acc@).len() && views(acc@)[i].id == id by {
                        if id != t@.id {
                            let i = choose|i: int| 0 <= i < before.len() && before[i].id == id;
                            assert(views(acc@)[i].id == id);
                        } else {
                            assert(views(acc@)[before.len() as int].id == id);
                        }
                    }
                }
            },
        }
        k = k + 1;
    }
    proof {
        assert(views(records@).take(k as int) =~= views(records@));
    }
    acc
}

fn without_tombstones(acc: &Vec<Task>, Ghost(m): Ghost<Map<Seq<char>, TaskView>>) -> (live: Vec<Task>)
    requires
        holds_newest(views(acc@), m),
    ensures
        forall|i: int| 0 <= i < live@.len() ==> m.contains_key(#[trigger] live@[i]@.id) && m[live@[i]@.id] == live@[i]@ && !live@[i]@.deleted,
        forall|i: int, j: int| 0 <= i < j < live@.len() ==> (#[trigger] live@[i])@.id != (#[trigger] live@[j])@.id,
        forall|id: Seq<char>| #[trigger] m.contains_key(id) && !m[id].deleted ==> exists|i: int| 0 <= i < live@.len() && live@[i]@.id == id,
{
    let mut live: Vec<Task> = Vec::new();
    let ghost src: Seq<int> = Seq::empty();
    let mut i: usize = 0;
    while i < acc.len()
        invariant
            i <= acc@.len(),
            holds_newest(views(acc@), m),
            src.len() == live@.len(),
            forall|k: int| 0 <= k < src.len() ==> 0 <= #[trigger] src[k] < i && live@[k]@ == acc@[src[k]]@,
            forall|k: int, l: int| 0 <= k < l < src.len() ==> #[trigger] src[k] < #[trigger] src[l],
            forall|k: int| 0 <= k < live@.len() ==> !(#[trigger] live@[k])@.deleted,
            forall|j: int| 0 <= j < i && !(#[trigger] acc@[j])@.deleted ==> exists|k: int| 0 <= k < src.len() && src[k] == j,
        decreases acc@.len() - i,
    {
        let ghost old_src = src;
        if !acc[i].deleted {
            let copy = acc[i].duplicate();
            live.push(copy);
            proof {
                src = src.push(i as int);
                assert forall|j: int| 0 <= j < i + 1 && !(#[trigger] acc@[j])@.deleted implies exists|k: int| 0 <= k < src.len() && src[k] == j by {
                    if j == i {
                        assert(src[old_src.len() as int] == j);
                    } else {
                        let k = choose|k: int| 0 <= k < old_src.len() && old_src[k] == j;
                        assert(src[k] == j);
                    }
                }
            }
        }
        i = i + 1;
    }
    proof {
        assert forall|k: int| 0 <= k < live@.len() implies m.contains_key(#[trigger] live@[k]@.id) && m[live@[k]@.id] == live@[k]@ && !live@[k]@.deleted by {
            assert(views(acc@)[src[k]] == acc@[src[k]]@);
        }
        assert forall|k: int, l: int| 0 <= k < l < live@.len() implies (#[trigger] live@[k])@.id != (#[trigger] live@[l])@.id by {
            assert(views(acc@)[src[k]] == acc@[src[k]]@);
            assert(views(acc@)[src[l]] == acc@[src[l]]@);
        }
        assert forall|id: Seq<char>| #[trigger] m.contains_key(id) && !m[id].deleted implies exists|k: int| 0 <= k < live@.len() && live@[k]@.id == id by {
            let j = choose|j: int| 0 <= j < views(acc@).len() && views(acc@)[j].id == id;
            assert(views(acc@)[j] == acc@[j]@);
            assert(!acc@[j]@.deleted);
            let k = choose|k: int| 0 <= k < src.len() && src[k] == j;
            assert(live@[k]@.id == id);
        }
    }
    live
}

fn in_replay_order(live: Vec<Task>, Ghost(m): Ghost<Map<Seq<char>, TaskView>>) -> (r: Vec<Task>)
    requires
        forall|i: int| 0 <= i < live@.len() ==> m.contains_key(#[trigger] live@[i]@.id) && m[live@[i]@.id] == live@[i]@ && !live@[i]@.deleted,
        forall|i: int, j: int| 0 <= i < j < live@.len() ==> (#[trigger] live@[i])@.id != (#[trigger] live@[j])@.id,
        forall|id: Seq<char>| #[trigger] m.contains_key(id) && !m[id].deleted ==> exists|i: int| 0 <= i < live@.len() && live@[i]@.id == id,
    ensures
        is_replay(m, views(r@)),
{
    let ghost all = views(live@);
    let n = live.len();
    let mut r: Vec<Task> = Vec::new();
    let mut k: usize = 0;
    let ghost mut v: Seq<TaskView> = Seq::empty();
    let ghost mut src: Seq<int> = Seq::empty();
    let ghost mut pos: Seq<int> = Seq::empty();
    proof {
        assert forall|i: int, j: int| 0 <= i < j < all.len() implies (#[trigger] all[i]).id != (#[trigger] all[j]).id by {
            assert(all[i] == live@[i]@ && all[j] == live@[j]@);
        }
    }
    while k < n
        invariant
            forall|i: int, j: int| 0 <= i < j < all.len() ==> (#[trigger] all[i]).id != (#[trigger] all[j]).id,
            k <= all.len(),
            all.len() == n,
            n == live@.len(),
            all == views(live@),
            v == views(r@),
            tracks(v, all, k as int, src, pos),
            forall|i: int, j: int| 0 <= i < j < v.len() ==> key_less(#[trigger] v[i], #[trigger] v[j]),
        decreases n - k,
    {
        let x = live[k].duplicate();
        proof {
            assert(x@ == all[k as int]);
            assert forall|i: int| 0 <= i < r@.len() implies (#[trigger] r@[i])@.id != x@.id by {
                assert(v[i] == r@[i]@);
                assert(v[i] == all[src[i]]);
                assert(src[i] < k);
                assert(all[src[i]].id != all[k as int].id);
            }
            assert forall|a: int, b: int| 0 <= a < b < r@.len() implies key_less(#[trigger] r@[a]@, #[trigger] r@[b]@) by {
                assert(v[a] == r@[a]@ && v[b] == r@[b]@);
            }
        }
        let ghost v0 = v;
        let j = insert_in_order(&mut r, x);
        proof {
            let (s2, p2) = lemma_insert_tracks(v0, all, k as int, src, pos, j as int);
            v = v0.insert(j as int, all[k as int]);
            src = s2;
            pos = p2;
        }
        k = k + 1;
    }
    proof {
        assert forall|i: int| 0 <= i < v.len() implies m.contains_key(#[trigger] v[i].id) && m[v[i].id] == v[i] && !v[i].deleted by {
            assert(v[i] == all[src[i]]);
            assert(all[src[i]] == live@[src[i]]@);
        }
        assert forall|id: Seq<char>| #[trigger] m.contains_key(id) && !m[id].deleted implies exists|i: int| 0 <= i < v.len() && v[i].id == id by {
            let jj = choose|jj: int| 0 <= jj < live@.len() && live@[jj]@.id == id;
            assert(all[jj] == live@[jj]@);
            assert(v[pos[jj]] == all[jj]);
        }
    }
    r
}

/// `s` holds exactly the first `k` of `all`: `src` says where each of `s`
/// came from and `pos` where each of them went.
spec fn tracks(s: Seq<TaskView>, all: Seq<TaskView>, k: int, src: Seq<int>, pos: Seq<int>) -> bool {
    &&& src.len() == s.len()
    &&& pos.len() == k
    &&& forall|i: int| 0 <= i < s.len() ==> 0 <= #[trigger] src[i] < k && s[i] == all[src[i]]
    &&& forall|jj: int| 0 <= jj < k ==> 0 <= #[trigger] pos[jj] < s.len() && s[pos[jj]] == all[jj]
}

proof fn lemma_insert_tracks(s: Seq<TaskView>, all: Seq<TaskView>, k: int, src: Seq<int>, pos: Seq<int>, j: int) -> (r: (Seq<int>, Seq<int>))
    requires
        0 <= j <= s.len(),
        0 <= k < all.len(),
        tracks(s, all, k, src, pos),
    ensures
        tracks(s.insert(j, all[k]), all, k + 1, r.0, r.1),
{
    let t = s.insert(j, all[k]);
    let s2 = src.insert(j, k);
    let p2 = Seq::new(pos.len(), |jj: int| if pos[jj] >= j { pos[jj] + 1 } else { pos[jj] }).push(j);
    assert forall|i: int| 0 <= i < t.len() implies 0 <= #[trigger] s2[i] < k + 1 && t[i] == all[s2[i]] by {
        if i < j {
            assert(t[i] == s[i] && s2[i] == src[i]);
        } else if i > j {
            assert(t[i] == s[i - 1] && s2[i] == src[i - 1]);
        }
    }
    assert forall|jj: int| 0 <= jj < k + 1 implies 0 <= #[trigger] p2[jj] < t.len() && t[p2[jj]] == all[jj] by {
        if jj < k {
            if pos[jj] >= j {
                assert(t[pos[jj] + 1] == s[pos[jj]]);
            } else {
                assert(t[pos[jj]] == s[pos[jj]]);
            }
        }
    }
    (s2, p2)
}

/// Insert `x` where it belongs in the replay order of `r`.
fn insert_in_order(r: &mut Vec<Task>, x: Task) -> (j: usize)
    requires
        forall|a: int, b: int| 0 <= a < b < old(r)@.len() ==> key_less(#[trigger] old(r)@[a]@, #[trigger] old(r)@[b]@),
        forall|i: int| 0 <= i < old(r)@.len() ==> (#[trigger] old(r)@[i])@.id != x@.id,
    ensures
        j <= old(r)@.len(),
        views(final(r)@) == views(old(r)@).insert(j as int, x@),
        forall|a: int, b: int| 0 <= a < b < final(r)@.len() ==> key_less(#[trigger] final(r)@[a]@, #[trigger] final(r)@[b]@),
{
    let ghost v = views(r@);
    let mut j = r.len();
    while j > 0 && replay_before(&x, &r[j - 1])
        invariant
            j <= r@.len(),
            r@ == old(r)@,
            forall|l: int| j <= l < r@.len() ==> key_less(x@, #[trigger] r@[l]@),
        decreases j,
    {
        j = j - 1;
    }
    proof {
        if j > 0 {
            lemma_key_order(r@[j - 1]@, x@, x@);
        }
        assert forall|a: int, b: int| 0 <= a < b < v.len() implies key_less(#[trigger] v[a], #[trigger] v[b]) by {
            assert(v[a] == r@[a]@ && v[b] == r@[b]@);
        }
        assert forall|l: int| j <= l < v.len() implies key_less(x@, #[trigger] v[l]) by {
            assert(v[l] == r@[l]@);
        }
        lemma_insert_in_order(v, x@, j as int, v.insert(j as int, x@));
    }
    let ghost xv = x@;
    r.insert(j, x);
    proof {
        assert(views(r@) =~= v.insert(j as int, xv));
        assert forall|a: int, b: int| 0 <= a < b < r@.len() implies key_less(#[trigger] r@[a]@, #[trigger] r@[b]@) by {
            assert(views(r@)[a] == r@[a]@ && views(r@)[b] == r@[b]@);
        }
    }
    j
}

proof fn lemma_insert_in_order(s: Seq<TaskView>, x: TaskView, j: int, t: Seq<TaskView>)
    requires
        t == s.insert(j, x),
        0 <= j <= s.len(),
        forall|a: int, b: int| 0 <= a < b < s.len() ==> key_less(#[trigger] s[a], #[trigger] s[b]),
        forall|l: int| j <= l < s.len() ==> key_less(x, #[trigger] s[l]),
        j > 0 ==> key_less(s[j - 1], x),
    ensures
        forall|a: int, b: int| 0 <= a < b < t.len() ==> key_less(#[trigger] t[a], #[trigger] t[b]),
{
    assert forall|a: int, b: int| 0 <= a < b < t.len() implies key_less(#[trigger] t[a], #[trigger] t[b]) by {
        if b < j {
            assert(t[a] == s[a] && t[b] == s[b]);
        } else if b == j {
            assert(t[a] == s[a]);
            if a < j - 1 {
                lemma_key_order(s[a], s[j - 1], x);
            }
        } else if a == j {
            assert(t[b] == s[b - 1]);
        } else if a > j {
            assert(t[a] == s[a - 1] && t[b] == s[b - 1]);
        } else {
            assert(t[a] == s[a] && t[b] == s[b - 1]);
            lemma_key_order(s[a], x, s[b - 1]);
            lemma_key_order(s[a], s[j - 1], x);
        }
    }
}

// ---------------------------------------------------------------------------
// recording a change
// ---------------------------------------------------------------------------

/// The next revision, held at the top rather than wrapping.
pub open spec fn next_revision(n: u64) -> u64 {
    if n == u64::MAX {
        n
    } else {
        (n + 1) as u64
    }
}

/// The version of the task the store held before the change, if any.
pub open spec fn prior(before: Seq<TaskView>, t: TaskView) -> Option<TaskView> {
    let i = find_task(before, t.id, 0);
    if i < before.len() {
        Some(before[i])
    } else {
        None
    }
}

/// Whether a task is new, or differs from its prior version in something a
/// user could have changed.
pub open spec fn changed(before: Seq<TaskView>, t: TaskView) -> bool {
    match prior(before, t) {
        Some(o) => !same_task(o, t),
        None => true,
    }
}

/// A task as the store keeps it after a change: a changed task gets the
/// next revision and the time of the change; anything else is left as it is.
pub open spec fn stamped(before: Seq<TaskView>, t: TaskView, now: u64) -> TaskView {
    match prior(before, t) {
        Some(o) => if same_task(o, t) {
            t
        } else {
            TaskView { revision: next_revision(o.revision), updated_at: now, ..t }
        },
        None => t,
    }
}

/// What the log says of a task after a change: its new record if it
/// changed, otherwise the record it already had.
pub open spec fn recorded(before: Seq<TaskView>, t: TaskView, now: u64) -> TaskView {
    match prior(before, t) {
        Some(o) => if same_task(o, t) {
            o
        } else {
            stamped(before, t, now)
        },
        None => t,
    }
}

/// The records of the tasks that changed or are new, in data order.
pub open spec fn change_records(before: Seq<TaskView>, after: Seq<TaskView>, now: u64) -> Seq<TaskView>
    decreases after.len(),
{
    if after.len() == 0 {
        Seq::empty()
    } else {
        let rest = change_records(before, after.drop_last(), now);
        if changed(before, after.last()) {
            rest.push(stamped(before, after.last(), now))
        } else {
            rest
        }
    }
}

/// The record that says a task was deleted.
pub open spec fn tombstone(o: TaskView, now: u64) -> TaskView {
    TaskView { deleted: true, revision: next_revision(o.revision), updated_at: now, ..o }
}

/// Tombstones for the tasks that are gone, in their old order.
pub open spec fn tombstones(before: Seq<TaskView>, after: Seq<TaskView>, now: u64) -> Seq<TaskView>
    decreases before.len(),
{
    if before.len() == 0 {
        Seq::empty()
    } else {
        let rest = tombstones(before.drop_last(), after, now);
        let o = before.last();
        if find_task(after, o.id, 0) == after.len() {
            rest.push(tombstone(o, now))
        } else {
            rest
        }
    }
}

/// No id occurs twice.
pub open spec fn distinct_ids(s: Seq<TaskView>) -> bool {
    forall|i: int, j: int| 0 <= i < j < s.len() ==> (#[trigger] s[i]).id != (#[trigger] s[j]).id
}

/// Stamp the tasks that changed since `before` and say what to append to
/// the log: a record for each task that changed or is new, then a tombstone
/// for each task that is gone.
///
/// Revisions are bumped here rather than at each change, so no change can
/// forget and quietly break a merge.
pub fn record_changes(before: &Vec<Task>, after: &mut Vec<Task>, now: u64) -> (appended: Vec<Task>)
    requires
        distinct_ids(views(before@)),
    ensures
        views(final(after)@) == views(old(after)@).map_values(|t: TaskView| stamped(views(before@), t, now)),
        views(appended@) == change_records(views(before@), views(old(after)@), now) + tombstones(
            views(before@),
            views(old(after)@),
            now,
        ),
{
    let ghost b = views(before@);
    let ghost a0 = views(after@);
    let mut appended: Vec<Task> = Vec::new();
    let mut i: usize = 0;
    while i < after.len()
        invariant
            b == views(before@),
            a0.len() == after@.len(),
            i <= after@.len(),
            forall|k: int| 0 <= k < i ==> views(after@)[k] == stamped(b, a0[k], now),
            forall|k: int| i <= k < after@.len() ==> views(after@)[k] == a0[k],
            views(appended@) == change_records(b, a0.take(i as int), now),
        decreases after@.len() - i,
    {
        let ghost t0 = a0[i as int];
        proof {
            assert(a0.take(i + 1).drop_last() =~= a0.take(i as int));
            assert(after@[i as int]@ == views(after@)[i as int]);
        }
        match position_of(before, after[i].id.as_str()) {
            Some(j) => {
                proof {
                    assert(b[j as int] == before@[j as int]@);
                }
                if !same_version(&before[j], &after[i]) {
                    let mut t = after[i].duplicate();
                    t.revision = if before[j].revision == u64::MAX {
                        before[j].revision
                    } else {
                        before[j].revision + 1
                    };
                    t.updated_at = now;
                    let copy = t.duplicate();
                    appended.push(copy);
                    let ghost prev = views(after@);
                    after.set(i, t);
                    proof {
                        assert(views(after@) =~= prev.update(i as int, stamped(b, t0, now)));
                    }
                }
            },
            None => {
                let copy = after[i].duplicate();
                appended.push(copy);
            },
        }
        i = i + 1;
        proof {
            assert(views(appended@) =~= change_records(b, a0.take(i as int), now));
        }
    }
    proof {
        assert(a0.take(i as int) =~= a0);
        assert(views(after@) =~= a0.map_values(|t: TaskView| stamped(b, t, now)));
    }
    let ghost changes = views(appended@);
    let mut k: usize = 0;
    while k < before.len()
        invariant
            b == views(before@),
            k <= before@.len(),
            a0.len() == after@.len(),
            views(after@) == a0.map_values(|t: TaskView| stamped(b, t, now)),
            views(appended@) == changes + tombstones(b.take(k as int), a0, now),
        decreases before@.len() - k,
    {
        proof {
            assert(b.take(k + 1).drop_last() =~= b.take(k as int));
            assert(b[k as int] == before@[k as int]@);
            assert forall|x: int| 0 <= x < after@.len() implies #[trigger] views(after@)[x].id == a0[x].id by {
                assert(views(after@)[x] == stamped(b, a0[x], now));
            }
        }
        match position_of(after, before[k].id.as_str()) {
            Some(j) => {
                proof {
                    assert(views(after@)[j as int].id == a0[j as int].id);
                    lemma_find_task(a0, b[k as int].id, 0);
                    assert(find_task(a0, b[k as int].id, 0) < a0.len()) by {
                        if find_task(a0, b[k as int].id, 0) == a0.len() {
                            assert(a0[j as int].id == b[k as int].id);
                        }
                    }
                }
            },
            None => {
                let mut t = before[k].duplicate();
                t.deleted = true;
                t.revision = if t.revision == u64::MAX {
                    t.revision
                } else {
                    t.revision + 1
                };
                t.updated_at = now;
                let ghost prev = views(appended@);
                appended.push(t);
                proof {
                    assert(views(appended@) =~= prev.push(tombstone(b[k as int], now)));
                    lemma_find_task(a0, b[k as int].id, 0);
                    if find_task(a0, b[k as int].id, 0) < a0.len() {
                        let x = find_task(a0, b[k as int].id, 0);
                        assert(views(after@)[x].id == a0[x].id);
                    }
                }
            },
        }
        k = k + 1;
        proof {
            assert(views(appended@) =~= changes + tombstones(b.take(k as int), a0, now));
        }
    }
    proof {
        assert(b.take(k as int) =~= b);
    }
    appended
}

// ---------------------------------------------------------------------------
// reading back a change
// ---------------------------------------------------------------------------

proof fn lemma_find_task_shift(a: Seq<TaskView>, b: Seq<TaskView>, id: Seq<char>, k: int)
    requires
        0 <= k <= b.len(),
    ensures
        find_task(a + b, id, a.len() + k) == a.len() + find_task(b, id, k),
    decreases b.len() - k,
{
    if k < b.len() {
        assert((a + b)[a.len() + k] == b[k]);
        lemma_find_task_shift(a, b, id, k + 1);
    }
}

proof fn lemma_find_task_concat_from(a: Seq<TaskView>, b: Seq<TaskView>, id: Seq<char>, i: int)
    requires
        0 <= i <= a.len(),
    ensures
        find_task(a + b, id, i) == if find_task(a, id, i) < a.len() {
            find_task(a, id, i)
        } else {
            a.len() + find_task(b, id, 0)
        },
    decreases a.len() - i,
{
    if i == a.len() {
        lemma_find_task_shift(a, b, id, 0);
    } else {
        assert((a + b)[i] == a[i]);
        lemma_find_task_concat_from(a, b, id, i + 1);
        lemma_find_task(a, id, i + 1);
    }
}

/// Where an id is first found in two runs laid end to end.
pub proof fn lemma_find_task_concat(a: Seq<TaskView>, b: Seq<TaskView>, id: Seq<char>)
    ensures
        find_task(a + b, id, 0) == if find_task(a, id, 0) < a.len() {
            find_task(a, id, 0)
        } else {
            a.len() + find_task(b, id, 0)
        },
{
    lemma_find_task_concat_from(a, b, id, 0);
}

/// In a run without repeated ids, an id is found where it is.
pub proof fn lemma_find_distinct(a: Seq<TaskView>, j: int)
    requires
        distinct_ids(a),
        0 <= j < a.len(),
    ensures
        find_task(a, a[j].id, 0) == j,
{
    lemma_find_task(a, a[j].id, 0);
    let f = find_task(a, a[j].id, 0);
    if f < j {
        assert(a[f].id == a[j].id);
    }
}

/// A replay holds each id once.
pub proof fn lemma_replay_distinct(m: Map<Seq<char>, TaskView>, r: Seq<TaskView>)
    requires
        is_replay(m, r),
    ensures
        distinct_ids(r),
{
    assert forall|i: int, j: int| 0 <= i < j < r.len() implies (#[trigger] r[i]).id != (#[trigger] r[j]).id by {
        if r[i].id == r[j].id {
            assert(r[i] == m[r[i].id]);
            lemma_key_order(r[i], r[i], r[i]);
            assert(key_less(r[i], r[j]));
        }
    }
}

/// The records of a run, each filed under its id; the first wins.
pub open spec fn filed(s: Seq<TaskView>) -> Map<Seq<char>, TaskView> {
    Map::new(|id: Seq<char>| find_task(s, id, 0) < s.len(), |id: Seq<char>| s[find_task(s, id, 0)])
}

/// Appending records that each beat what the log held for their id, once
/// each, files every one of them over what was there.
pub proof fn lemma_latest_append(records: Seq<TaskView>, extra: Seq<TaskView>)
    requires
        distinct_ids(extra),
        forall|x: int|
            0 <= x < extra.len() ==> !(latest(records).contains_key((#[trigger] extra[x]).id) && beats(
                latest(records)[extra[x].id],
                extra[x],
            )),
    ensures
        latest(records + extra) == latest(records).union_prefer_right(filed(extra)),
    decreases extra.len(),
{
    let m = latest(records);
    if extra.len() == 0 {
        assert(records + extra =~= records);
        assert(m.union_prefer_right(filed(extra)) =~= m);
    } else {
        let front = extra.drop_last();
        let x = extra.last();
        assert(distinct_ids(front));
        assert forall|y: int| 0 <= y < front.len() implies !(m.contains_key((#[trigger] front[y]).id) && beats(m[front[y].id], front[y])) by {
            assert(front[y] == extra[y]);
        }
        lemma_latest_append(records, front);
        assert(records + extra =~= (records + front).push(x));
        lemma_latest_push(records + front, x);
        assert(extra =~= front + seq![x]);
        assert forall|id: Seq<char>| true implies find_task(extra, id, 0) == (if find_task(front, id, 0) < front.len() {
            find_task(front, id, 0)
        } else {
            front.len() + find_task(seq![x], id, 0)
        }) by {
            lemma_find_task_concat(front, seq![x], id);
        }
        lemma_find_task(front, x.id, 0);
        assert(find_task(front, x.id, 0) == front.len()) by {
            if find_task(front, x.id, 0) < front.len() {
                let f = find_task(front, x.id, 0);
                assert(extra[f].id == extra[extra.len() - 1].id);
            }
        }
        assert(find_task(seq![x], x.id, 0) == 0);
        let before_x = latest(records + front);
        assert(before_x.contains_key(x.id) == m.contains_key(x.id));
        assert(!(before_x.contains_key(x.id) && beats(before_x[x.id], x))) by {
            assert(extra[extra.len() - 1] == x);
        }
        assert forall|id: Seq<char>| id != x.id implies find_task(seq![x], id, 0) == 1 by {
            assert(seq![x][0].id != id);
            assert(find_task(seq![x], id, 1) == 1);
        }
        let lhs = latest(records + extra);
        let rhs = m.union_prefer_right(filed(extra));
        let mid = m.union_prefer_right(filed(front));
        assert(before_x == mid);
        assert(lhs == mid.insert(x.id, x));
        assert forall|id: Seq<char>| #[trigger] lhs.contains_key(id) == rhs.contains_key(id) by {
            if id != x.id {
                assert(find_task(extra, id, 0) == if find_task(front, id, 0) < front.len() { find_task(front, id, 0) } else { front.len() + 1int });
            }
        }
        assert forall|id: Seq<char>| #[trigger] lhs.contains_key(id) implies lhs[id] == rhs[id] by {
            if id == x.id {
                assert(find_task(extra, id, 0) == front.len());
                assert(extra[front.len() as int] == x);
            } else {
                assert(find_task(extra, id, 0) == if find_task(front, id, 0) < front.len() { find_task(front, id, 0) } else { front.len() + 1int });
                lemma_find_task(front, id, 0);
                if find_task(front, id, 0) < front.len() {
                    let f = find_task(front, id, 0);
                    assert(extra[f] == front[f]);
                }
            }
        }
        assert(lhs =~= rhs);
    }
}

/// A run of records is filed by its ids, each once.
pub proof fn lemma_filed(s: Seq<TaskView>)
    requires
        distinct_ids(s),
    ensures
        forall|j: int| 0 <= j < s.len() ==> filed(s).contains_key((#[trigger] s[j]).id) && filed(s)[s[j].id] == s[j],
        forall|id: Seq<char>| #[trigger] filed(s).contains_key(id) ==> filed(s)[id].id == id,
{
    assert forall|j: int| 0 <= j < s.len() implies filed(s).contains_key((#[trigger] s[j]).id) && filed(s)[s[j].id] == s[j] by {
        lemma_find_distinct(s, j);
    }
    assert forall|id: Seq<char>| #[trigger] filed(s).contains_key(id) implies filed(s)[id].id == id by {
        lemma_find_task(s, id, 0);
    }
}

proof fn lemma_change_records(before: Seq<TaskView>, after: Seq<TaskView>, now: u64)
    requires
        distinct_ids(after),
    ensures
        distinct_ids(change_records(before, after, now)),
        forall|x: int|
            0 <= x < change_records(before, after, now).len() ==> {
                let c = #[trigger] change_records(before, after, now)[x];
                let j = find_task(after, c.id, 0);
                &&& j < after.len()
                &&& changed(before, after[j])
                &&& c == stamped(before, after[j], now)
            },
        forall|j: int|
            0 <= j < after.len() && changed(before, #[trigger] after[j]) ==> find_task(
                change_records(before, after, now),
                after[j].id,
                0,
            ) < change_records(before, after, now).len(),
    decreases after.len(),
{
    let cr = change_records(before, after, now);
    if after.len() > 0 {
        let front = after.drop_last();
        let t = after.last();
        assert(distinct_ids(front));
        lemma_change_records(before, front, now);
        let cf = change_records(before, front, now);
        assert forall|id: Seq<char>| true implies find_task(after, id, 0) == (if find_task(front, id, 0) < front.len() {
            find_task(front, id, 0)
        } else {
            front.len() + find_task(seq![t], id, 0)
        }) by {
            assert(after =~= front + seq![t]);
            lemma_find_task_concat(front, seq![t], id);
        }
        assert(find_task(seq![t], t.id, 0) == 0);
        lemma_find_task(front, t.id, 0);
        assert(find_task(front, t.id, 0) == front.len()) by {
            if find_task(front, t.id, 0) < front.len() {
                let f = find_task(front, t.id, 0);
                assert(after[f].id == after[after.len() - 1].id);
            }
        }
        assert forall|x: int| 0 <= x < cf.len() implies find_task(after, (#[trigger] cf[x]).id, 0) == find_task(front, cf[x].id, 0) by {
            lemma_find_task(front, cf[x].id, 0);
        }
        if changed(before, t) {
            assert(cr == cf.push(stamped(before, t, now)));
            assert(stamped(before, t, now).id == t.id);
            assert forall|x: int| 0 <= x < cf.len() implies (#[trigger] cf[x]).id != t.id by {
                lemma_find_task(front, cf[x].id, 0);
            }
            assert forall|a: int, b: int| 0 <= a < b < cr.len() implies (#[trigger] cr[a]).id != (#[trigger] cr[b]).id by {
                if b == cf.len() {
                    assert(cr[a] == cf[a]);
                } else {
                    assert(cr[a] == cf[a] && cr[b] == cf[b]);
                }
            }
            assert forall|x: int| 0 <= x < cr.len() implies {
                let c = #[trigger] cr[x];
                let j = find_task(after, c.id, 0);
                &&& j < after.len()
                &&& changed(before, after[j])
                &&& c == stamped(before, after[j], now)
            } by {
                if x < cf.len() {
                    assert(cr[x] == cf[x]);
                    let c = change_records(before, front, now)[x];
                    let j = find_task(front, c.id, 0);
                    lemma_find_task(front, c.id, 0);
                    assert(j < front.len());
                    assert(after[j] == front[j]);
                } else {
                    assert(after[front.len() as int] == t);
                }
            }
            assert forall|j: int| 0 <= j < after.len() && changed(before, #[trigger] after[j]) implies find_task(cr, after[j].id, 0) < cr.len() by {
                lemma_find_task_concat(cf, seq![stamped(before, t, now)], after[j].id);
                assert(cr =~= cf + seq![stamped(before, t, now)]);
                if j < front.len() {
                    assert(after[j] == front[j]);
                    assert(find_task(cf, after[j].id, 0) < cf.len());
                } else {
                    assert(seq![stamped(before, t, now)][0].id == after[j].id);
                }
            }
        } else {
            assert(cr == cf);
            assert forall|x: int| 0 <= x < cr.len() implies {
                let c = #[trigger] cr[x];
                let j = find_task(after, c.id, 0);
                &&& j < after.len()
                &&& changed(before, after[j])
                &&& c == stamped(before, after[j], now)
            } by {
                let c = change_records(before, front, now)[x];
                let j = find_task(front, c.id, 0);
                lemma_find_task(front, c.id, 0);
                assert(j < front.len());
                assert(after[j] == front[j]);
            }
            assert forall|j: int| 0 <= j < after.len() && changed(before, #[trigger] after[j]) implies find_task(cr, after[j].id, 0) < cr.len() by {
                if j < front.len() {
                    assert(after[j] == front[j]);
                } else {
                    assert(after[j] == t);
                }
            }
        }
    }
}

proof fn lemma_tombstones(before: Seq<TaskView>, after: Seq<TaskView>, now: u64)
    requires
        distinct_ids(before),
    ensures
        distinct_ids(tombstones(before, after, now)),
        forall|x: int|
            0 <= x < tombstones(before, after, now).len() ==> {
                let c = #[trigger] tombstones(before, after, now)[x];
                let i = find_task(before, c.id, 0);
                &&& i < before.len()
                &&& find_task(after, c.id, 0) == after.len()
                &&& c == tombstone(before[i], now)
            },
        forall|i: int|
            0 <= i < before.len() && find_task(after, (#[trigger] before[i]).id, 0) == after.len() ==> find_task(
                tombstones(before, after, now),
                before[i].id,
                0,
            ) < tombstones(before, after, now).len(),
    decreases before.len(),
{
    let ts = tombstones(before, after, now);
    if before.len() > 0 {
        let front = before.drop_last();
        let o = before.last();
        assert(distinct_ids(front));
        lemma_tombstones(front, after, now);
        let tf = tombstones(front, after, now);
        assert forall|id: Seq<char>| true implies find_task(before, id, 0) == (if find_task(front, id, 0) < front.len() {
            find_task(front, id, 0)
        } else {
            front.len() + find_task(seq![o], id, 0)
        }) by {
            assert(before =~= front + seq![o]);
            lemma_find_task_concat(front, seq![o], id);
        }
        assert(find_task(seq![o], o.id, 0) == 0);
        lemma_find_task(front, o.id, 0);
        assert(find_task(front, o.id, 0) == front.len()) by {
            if find_task(front, o.id, 0) < front.len() {
                let f = find_task(front, o.id, 0);
                assert(before[f].id == before[before.len() - 1].id);
            }
        }
        if find_task(after, o.id, 0) == after.len() {
            assert(ts == tf.push(tombstone(o, now)));
            assert forall|x: int| 0 <= x < tf.len() implies (#[trigger] tf[x]).id != o.id by {
                lemma_find_task(front, tf[x].id, 0);
            }
            assert forall|a: int, b: int| 0 <= a < b < ts.len() implies (#[trigger] ts[a]).id != (#[trigger] ts[b]).id by {
                if b == tf.len() {
                    assert(ts[a] == tf[a]);
                } else {
                    assert(ts[a] == tf[a] && ts[b] == tf[b]);
                }
            }
            assert forall|x: int| 0 <= x < ts.len() implies {
                let c = #[trigger] ts[x];
                let i = find_task(before, c.id, 0);
                &&& i < before.len()
                &&& find_task(after, c.id, 0) == after.len()
                &&& c == tombstone(before[i], now)
            } by {
                if x < tf.len() {
                    assert(ts[x] == tf[x]);
                    let c = tombstones(front, after, now)[x];
                    let i = find_task(front, c.id, 0);
                    lemma_find_task(front, c.id, 0);
                    assert(i < front.len());
                    assert(before[i] == front[i]);
                } else {
                    assert(before[front.len() as int] == o);
                }
            }
            assert forall|i: int| 0 <= i < before.len() && find_task(after, (#[trigger] before[i]).id, 0) == after.len() implies find_task(ts, before[i].id, 0) < ts.len() by {
                lemma_find_task_concat(tf, seq![tombstone(o, now)], before[i].id);
                assert(ts =~= tf + seq![tombstone(o, now)]);
                if i < front.len() {
                    assert(before[i] == front[i]);
                } else {
                    assert(seq![tombstone(o, now)][0].id == before[i].id);
                }
            }
        } else {
            assert(ts == tf);
            assert forall|x: int| 0 <= x < ts.len() implies {
                let c = #[trigger] ts[x];
                let i = find_task(before, c.id, 0);
                &&& i < before.len()
                &&& find_task(after, c.id, 0) == after.len()
                &&& c == tombstone(before[i], now)
            } by {
                let c = tombstones(front, after, now)[x];
                let i = find_task(front, c.id, 0);
                lemma_find_task(front, c.id, 0);
                assert(i < front.len());
                assert(before[i] == front[i]);
            }
            assert forall|i: int| 0 <= i < before.len() && find_task(after, (#[trigger] before[i]).id, 0) == after.len() implies find_task(ts, before[i].id, 0) < ts.len() by {
                if i < front.len() {
                    assert(before[i] == front[i]);
                } else {
                    assert(before[i] == o);
                }
            }
        }
    }
}

/// Every record a change appends beats what the log held for its id: a
/// changed or deleted task can take a higher revision (or, at the top
/// revision, is not older than the change), and a new task beats whatever
/// the log held under its id.
pub open spec fn change_wins(m: Map<Seq<char>, TaskView>, before: Seq<TaskView>, after: Seq<TaskView>, now: u64) -> bool {
    &&& forall|j: int|
        0 <= j < after.len() ==> match prior(before, #[trigger] after[j]) {
            Some(o) => !same_task(o, after[j]) ==> (o.revision < u64::MAX || o.updated_at <= now),
            None => !(m.contains_key(after[j].id) && beats(m[after[j].id], after[j])),
        }
    &&& forall|i: int|
        0 <= i < before.len() && find_task(after, (#[trigger] before[i]).id, 0) == after.len() ==> (
        before[i].revision < u64::MAX || before[i].updated_at <= now)
}

/// What the log holds after a change is appended: each task of the changed
/// data as `recorded`, and tombstones for what was removed.
pub open spec fn log_after(records: Seq<TaskView>, before: Seq<TaskView>, after: Seq<TaskView>, now: u64) -> Seq<TaskView> {
    records + (change_records(before, after, now) + tombstones(before, after, now))
}

/// A read after a change gives the change back.
///
/// If `before` is what the log replayed to and `after` is the data once
/// changed, then replaying the log with the change's records appended gives
/// every task of `after` as the log now records it (the new version of what
/// changed, the old record of what did not) and nothing else.
#[verifier::rlimit(40)]
pub proof fn lemma_read_after_change(
    records: Seq<TaskView>,
    before: Seq<TaskView>,
    after: Seq<TaskView>,
    now: u64,
    r: Seq<TaskView>,
)
    requires
        is_replay(latest(records), before),
        distinct_ids(after),
        change_wins(latest(records), before, after, now),
        is_replay(latest(log_after(records, before, after, now)), r),
    ensures
        forall|i: int|
            0 <= i < r.len() ==> exists|j: int| 0 <= j < after.len() && #[trigger] r[i] == recorded(before, after[j], now),
        forall|j: int|
            0 <= j < after.len() && !recorded(before, #[trigger] after[j], now).deleted ==> exists|i: int|
                0 <= i < r.len() && r[i] == recorded(before, after[j], now),
{
    let cr = change_records(before, after, now);
    let ts = tombstones(before, after, now);
    let extra = cr + ts;
    assert(latest(records + extra) == latest(records).union_prefer_right(filed(extra))) by {
        lemma_extra_wins(records, before, after, now);
        lemma_latest_append(records, extra);
    }
    let m2 = latest(records + extra);
    assert(log_after(records, before, after, now) == records + extra);
    lemma_after_read_back(records, before, after, now);
    assert forall|id: Seq<char>| #[trigger] m2.contains_key(id) && !m2[id].deleted implies find_task(after, id, 0) < after.len() by {
        lemma_nothing_else(records, before, after, now, id);
    }
    lemma_replay_matches(m2, after, |t: TaskView| recorded(before, t, now), r);
}

pub proof fn lemma_replay_matches(
    m: Map<Seq<char>, TaskView>,
    after: Seq<TaskView>,
    rec: spec_fn(TaskView) -> TaskView,
    r: Seq<TaskView>,
)
    requires
        is_replay(m, r),
        forall|j: int| 0 <= j < after.len() ==> m.contains_key((#[trigger] after[j]).id) && m[after[j].id] == rec(after[j]),
        forall|id: Seq<char>| #[trigger] m.contains_key(id) && !m[id].deleted ==> find_task(after, id, 0) < after.len(),
    ensures
        forall|i: int| 0 <= i < r.len() ==> exists|j: int| 0 <= j < after.len() && #[trigger] r[i] == rec(after[j]),
        forall|j: int| 0 <= j < after.len() && !rec(#[trigger] after[j]).deleted ==> exists|i: int| 0 <= i < r.len() && r[i] == rec(after[j]),
{
    assert forall|i: int| 0 <= i < r.len() implies exists|j: int| 0 <= j < after.len() && #[trigger] r[i] == rec(after[j]) by {
        lemma_find_task(after, r[i].id, 0);
        let ja = find_task(after, r[i].id, 0);
        assert(m.contains_key(after[ja].id) && m[after[ja].id] == rec(after[ja]));
    }
    assert forall|j: int| 0 <= j < after.len() && !rec(#[trigger] after[j]).deleted implies exists|i: int| 0 <= i < r.len() && r[i] == rec(after[j]) by {
        let id = after[j].id;
        assert(m.contains_key(id));
        let i = choose|i: int| 0 <= i < r.len() && r[i].id == id;
        assert(r[i] == m[r[i].id]);
    }
}

proof fn lemma_extra_wins(records: Seq<TaskView>, before: Seq<TaskView>, after: Seq<TaskView>, now: u64)
    requires
        is_replay(latest(records), before),
        distinct_ids(after),
        change_wins(latest(records), before, after, now),
    ensures
        distinct_ids(change_records(before, after, now) + tombstones(before, after, now)),
        forall|x: int|
            0 <= x < (change_records(before, after, now) + tombstones(before, after, now)).len() ==> !(latest(records).contains_key(
                (#[trigger] (change_records(before, after, now) + tombstones(before, after, now))[x]).id,
            ) && beats(
                latest(records)[(change_records(before, after, now) + tombstones(before, after, now))[x].id],
                (change_records(before, after, now) + tombstones(before, after, now))[x],
            )),
{
    let m = latest(records);
    let cr = change_records(before, after, now);
    let ts = tombstones(before, after, now);
    let extra = cr + ts;
    lemma_replay_distinct(m, before);
    lemma_change_records(before, after, now);
    lemma_tombstones(before, after, now);
    assert forall|a: int, b: int| 0 <= a < b < extra.len() implies (#[trigger] extra[a]).id != (#[trigger] extra[b]).id by {
        if b < cr.len() {
            assert(extra[a] == cr[a] && extra[b] == cr[b]);
        } else if a >= cr.len() {
            assert(extra[a] == ts[a - cr.len()] && extra[b] == ts[b - cr.len()]);
        } else {
            assert(extra[a] == cr[a] && extra[b] == ts[b - cr.len()]);
            let c = cr[a];
            lemma_find_task(after, c.id, 0);
        }
    }
    assert forall|x: int| 0 <= x < extra.len() implies !(m.contains_key((#[trigger] extra[x]).id) && beats(m[extra[x].id], extra[x])) by {
        if x < cr.len() {
            assert(extra[x] == cr[x]);
            let j = find_task(after, cr[x].id, 0);
            lemma_find_task(after, cr[x].id, 0);
            let t = after[j];
            lemma_find_task(before, t.id, 0);
            let bi = find_task(before, t.id, 0);
            if bi < before.len() {
                assert(m[before[bi].id] == before[bi]);
            }
        } else {
            assert(extra[x] == ts[x - cr.len()]);
            let c = ts[x - cr.len()];
            let bi = find_task(before, c.id, 0);
            lemma_find_task(before, c.id, 0);
            assert(m[before[bi].id] == before[bi]);
        }
    }
}

proof fn lemma_after_read_back(records: Seq<TaskView>, before: Seq<TaskView>, after: Seq<TaskView>, now: u64)
    requires
        is_replay(latest(records), before),
        distinct_ids(after),
        latest(records + (change_records(before, after, now) + tombstones(before, after, now))) == latest(records).union_prefer_right(
            filed(change_records(before, after, now) + tombstones(before, after, now)),
        ),
    ensures
        forall|j: int|
            0 <= j < after.len() ==> latest(records + (change_records(before, after, now) + tombstones(before, after, now))).contains_key(
                (#[trigger] after[j]).id,
            ) && latest(records + (change_records(before, after, now) + tombstones(before, after, now)))[after[j].id]
                == recorded(before, after[j], now),
{
    let m = latest(records);
    let cr = change_records(before, after, now);
    let ts = tombstones(before, after, now);
    let extra = cr + ts;
    let m2 = latest(records + extra);
    lemma_replay_distinct(m, before);
    lemma_change_records(before, after, now);
    lemma_tombstones(before, after, now);
    assert forall|j: int| 0 <= j < after.len() implies m2.contains_key((#[trigger] after[j]).id) && m2[after[j].id] == recorded(before, after[j], now) by {
        let t = after[j];
        lemma_find_distinct(after, j);
        lemma_find_task(before, t.id, 0);
        lemma_find_task(cr, t.id, 0);
        lemma_find_task_concat(cr, ts, t.id);
        if changed(before, t) {
            let f = find_task(cr, t.id, 0);
            assert(extra[f] == cr[f]);
        } else {
            let bi = find_task(before, t.id, 0);
            assert(m[before[bi].id] == before[bi]);
            assert(find_task(cr, t.id, 0) == cr.len()) by {
                if find_task(cr, t.id, 0) < cr.len() {
                    let f = find_task(cr, t.id, 0);
                    assert(cr[f].id == t.id);
                }
            }
            lemma_find_task(ts, t.id, 0);
            assert(find_task(ts, t.id, 0) == ts.len()) by {
                if find_task(ts, t.id, 0) < ts.len() {
                    let f = find_task(ts, t.id, 0);
                    assert(ts[f].id == t.id);
                }
            }
        }
    }
}

proof fn lemma_nothing_else(records: Seq<TaskView>, before: Seq<TaskView>, after: Seq<TaskView>, now: u64, id: Seq<char>)
    requires
        is_replay(latest(records), before),
        distinct_ids(after),
        latest(records + (change_records(before, after, now) + tombstones(before, after, now))) == latest(records).union_prefer_right(
            filed(change_records(before, after, now) + tombstones(before, after, now)),
        ),
        latest(records + (change_records(before, after, now) + tombstones(before, after, now))).contains_key(id),
        !latest(records + (change_records(before, after, now) + tombstones(before, after, now)))[id].deleted,
    ensures
        find_task(after, id, 0) < after.len(),
{
    let m = latest(records);
    let cr = change_records(before, after, now);
    let ts = tombstones(before, after, now);
    let extra = cr + ts;
    let m2 = latest(records + extra);
    lemma_replay_distinct(m, before);
    lemma_change_records(before, after, now);
    lemma_tombstones(before, after, now);
    lemma_find_task_concat(cr, ts, id);
    lemma_find_task(cr, id, 0);
    lemma_find_task(ts, id, 0);
    lemma_find_task(after, id, 0);
    if find_task(after, id, 0) == after.len() {
        if find_task(cr, id, 0) < cr.len() {
            let f = find_task(cr, id, 0);
            assert(cr[f].id == id);
        } else if find_task(ts, id, 0) < ts.len() {
            let f = find_task(ts, id, 0);
            assert(extra[cr.len() + f] == ts[f]);
            assert(ts[f].deleted);
        } else {
            assert(m2[id] == m[id]);
            let bi = choose|bi: int| 0 <= bi < before.len() && before[bi].id == id;
            assert(find_task(after, before[bi].id, 0) == after.len());
        }
    }
}

// ---------------------------------------------------------------------------
// merging logs
// ---------------------------------------------------------------------------

/// Whether some record in `s` carries this id.
pub open spec fn has_id(s: Seq<TaskView>, id: Seq<char>) -> bool {
    exists|i: int| 0 <= i < s.len() && #[trigger] s[i].id == id
}

/// Two different records of one task are never written with the same
/// revision at the same moment.
pub open spec fn no_ties(s: Seq<TaskView>) -> bool {
    forall|i: int, j: int|
        0 <= i < s.len() && 0 <= j < s.len() && (#[trigger] s[i]).id == (#[trigger] s[j]).id && s[i] != s[j]
            ==> beats(s[i], s[j]) || beats(s[j], s[i])
}

/// What the fold keeps for each id: a record of the log with that id, which
/// no record of the log with that id beats; and an id is kept exactly when
/// the log has it.
proof fn lemma_latest_is_newest(s: Seq<TaskView>)
    ensures
        forall|id: Seq<char>| #[trigger] latest(s).contains_key(id) <==> has_id(s, id),
        forall|id: Seq<char>| #[trigger] latest(s).contains_key(id) ==> exists|k: int|
            0 <= k < s.len() && s[k] == latest(s)[id] && s[k].id == id,
        forall|id: Seq<char>, i: int| #[trigger] latest(s).contains_key(id) && 0 <= i < s.len() && (#[trigger] s[i]).id == id
            ==> !beats(s[i], latest(s)[id]),
    decreases s.len(),
{
    if s.len() > 0 {
        let p = s.drop_last();
        lemma_latest_is_newest(p);
        let m = latest(p);
        let t = s.last();
        assert forall|id: Seq<char>| #[trigger] latest(s).contains_key(id) <==> has_id(s, id) by {
            if has_id(s, id) {
                let i = choose|i: int| 0 <= i < s.len() && #[trigger] s[i].id == id;
                if i < s.len() - 1 {
                    assert(p[i] == s[i]);
                    assert(has_id(p, id));
                }
            }
            if has_id(p, id) {
                let i = choose|i: int| 0 <= i < p.len() && #[trigger] p[i].id == id;
                assert(s[i] == p[i]);
            }
            assert(s[s.len() - 1] == t);
        }
        assert forall|id: Seq<char>| #[trigger] latest(s).contains_key(id) implies exists|k: int|
            0 <= k < s.len() && s[k] == latest(s)[id] && s[k].id == id by {
            if m.contains_key(id) && latest(s)[id] == m[id] {
                let k = choose|k: int| 0 <= k < p.len() && p[k] == m[id] && p[k].id == id;
                assert(s[k] == p[k]);
            } else {
                assert(s[s.len() - 1] == t);
            }
        }
        assert forall|id: Seq<char>, i: int| #[trigger] latest(s).contains_key(id) && 0 <= i < s.len() && (#[trigger] s[i]).id == id
            implies !beats(s[i], latest(s)[id]) by {
            if m.contains_key(t.id) && beats(m[t.id], t) {
                assert(latest(s) == m);
                if i < s.len() - 1 {
                    assert(p[i] == s[i]);
                    assert(m.contains_key(id));
                } else {
                    assert(s[i] == t);
                }
            } else {
                assert(latest(s) == m.insert(t.id, t));
                if id != t.id {
                    assert(latest(s)[id] == m[id]);
                    if i < s.len() - 1 {
                        assert(p[i] == s[i]);
                        assert(has_id(p, id));
                    } else {
                        assert(s[i] == t);
                    }
                } else {
                    assert(latest(s)[id] == t);
                    if i < s.len() - 1 {
                        assert(p[i] == s[i]);
                        assert(has_id(p, id));
                        assert(m.contains_key(id));
                        assert(!beats(p[i], m[id]));
                        assert(!beats(m[id], t));
                    }
                }
            }
        }
    }
}

/// Every record of `x` is one of `y`.
pub open spec fn within(x: Seq<TaskView>, y: Seq<TaskView>) -> bool {
    forall|i: int| 0 <= i < x.len() ==> #[trigger] y.contains(x[i])
}

proof fn lemma_has_id_within(x: Seq<TaskView>, y: Seq<TaskView>, id: Seq<char>)
    requires
        within(x, y),
        has_id(x, id),
    ensures
        has_id(y, id),
{
    let i = choose|i: int| 0 <= i < x.len() && #[trigger] x[i].id == id;
    assert(y.contains(x[i]));
    let j = choose|j: int| 0 <= j < y.len() && y[j] == x[i];
    assert(y[j].id == id);
}

proof fn lemma_newest_agree(x: Seq<TaskView>, y: Seq<TaskView>, id: Seq<char>)
    requires
        within(x, y),
        within(y, x),
        no_ties(x),
        latest(x).contains_key(id),
        latest(y).contains_key(id),
    ensures
        latest(x)[id] == latest(y)[id],
{
    lemma_latest_is_newest(x);
    lemma_latest_is_newest(y);
    let kx = choose|k: int| 0 <= k < x.len() && x[k] == latest(x)[id] && x[k].id == id;
    let ky = choose|k: int| 0 <= k < y.len() && y[k] == latest(y)[id] && y[k].id == id;
    assert(x.contains(y[ky]));
    assert(y.contains(x[kx]));
    let ix = choose|i: int| 0 <= i < x.len() && x[i] == y[ky];
    let jy = choose|j: int| 0 <= j < y.len() && y[j] == x[kx];
    assert(!beats(x[ix], latest(x)[id]));
    assert(!beats(y[jy], latest(y)[id]));
    if x[kx] != x[ix] {
        assert(x[kx].id == x[ix].id);
        assert(beats(x[kx], x[ix]) || beats(x[ix], x[kx]));
    }
}

/// Two logs holding the same records, with no ties, keep the same newest
/// record for every task.
proof fn lemma_same_records_same_newest(x: Seq<TaskView>, y: Seq<TaskView>)
    requires
        within(x, y),
        within(y, x),
        no_ties(x),
    ensures
        latest(x) == latest(y),
{
    lemma_latest_is_newest(x);
    lemma_latest_is_newest(y);
    assert forall|id: Seq<char>| #[trigger] latest(x).contains_key(id) <==> latest(y).contains_key(id) by {
        if has_id(x, id) {
            lemma_has_id_within(x, y, id);
        }
        if has_id(y, id) {
            lemma_has_id_within(y, x, id);
        }
    }
    assert forall|id: Seq<char>| #[trigger] latest(x).contains_key(id) implies latest(x)[id] == latest(y)[id] by {
        lemma_newest_agree(x, y, id);
    }
    assert(latest(x) =~= latest(y));
}

proof fn lemma_concat_within(a: Seq<TaskView>, b: Seq<TaskView>)
    ensures
        within(a + b, b + a),
{
    let x = a + b;
    let y = b + a;
    assert forall|i: int| 0 <= i < x.len() implies #[trigger] y.contains(x[i]) by {
        if i < a.len() {
            let j = b.len() + i;
            assert(y[j] == a[i]);
            assert(x[i] == a[i]);
        } else {
            let j = i - a.len();
            assert(y[j] == b[j]);
            assert(x[i] == b[j]);
        }
    }
}

/// Merging is order-free: two logs concatenated either way give the same
/// newest record for every task, where no two different records of a task
/// tie. This is what lets two devices' logs simply be appended.
pub proof fn lemma_merge_order_free(a: Seq<TaskView>, b: Seq<TaskView>)
    requires
        no_ties(a + b),
    ensures
        latest(a + b) == latest(b + a),
{
    lemma_concat_within(a, b);
    lemma_concat_within(b, a);
    lemma_same_records_same_newest(a + b, b + a);
}

} // verus!
