//! A stable sort, and the comparison of text.
//!
//! Every ordering in the library is a stable sort under a strict "goes
//! before" relation. The spec is insertion: each element, in input order,
//! is placed after everything it does not go before, so equal elements keep
//! their input order, which is exactly what `slice::sort_by` promises.

use vstd::prelude::*;

verus! {

/// A strict "goes before" relation for sorting.
pub trait Ranked: Sized {
    spec fn before(&self, other: &Self) -> bool;

    fn goes_before(&self, other: &Self) -> (r: bool)
        ensures
            r == self.before(other),
    ;
}

/// Where `x` lands in the sorted `s`: after the last element it does not go before.
pub open spec fn slot_by<T>(s: Seq<T>, x: T, less: spec_fn(T, T) -> bool) -> int
    decreases s.len(),
{
    if s.len() == 0 {
        0
    } else if less(x, s.last()) {
        slot_by(s.drop_last(), x, less)
    } else {
        s.len() as int
    }
}

pub open spec fn insert_by<T>(s: Seq<T>, x: T, less: spec_fn(T, T) -> bool) -> Seq<T> {
    s.take(slot_by(s, x, less)) + seq![x] + s.skip(slot_by(s, x, less))
}

/// The stable sort of `s` under the strict order `less`, by insertion.
pub open spec fn sorted_by<T>(s: Seq<T>, less: spec_fn(T, T) -> bool) -> Seq<T>
    decreases s.len(),
{
    if s.len() == 0 {
        Seq::empty()
    } else {
        insert_by(sorted_by(s.drop_last(), less), s.last(), less)
    }
}

pub open spec fn ranked_less<T: Ranked>() -> spec_fn(T, T) -> bool {
    |a: T, b: T| a.before(&b)
}

pub open spec fn slot<T: Ranked>(s: Seq<T>, x: T) -> int {
    slot_by(s, x, ranked_less::<T>())
}

pub open spec fn insert_sorted<T: Ranked>(s: Seq<T>, x: T) -> Seq<T> {
    insert_by(s, x, ranked_less::<T>())
}

/// The stable sort of `s` by `before`.
pub open spec fn sorted<T: Ranked>(s: Seq<T>) -> Seq<T> {
    sorted_by(s, ranked_less::<T>())
}

proof fn lemma_slot_by_map<A, B>(s: Seq<A>, x: A, f: spec_fn(A) -> B, la: spec_fn(A, A) -> bool, lb: spec_fn(B, B) -> bool)
    requires
        forall|a: A, b: A| #[trigger] la(a, b) == lb(f(a), f(b)),
    ensures
        slot_by(s.map_values(f), f(x), lb) == slot_by(s, x, la),
    decreases s.len(),
{
    if s.len() > 0 {
        assert(s.map_values(f).drop_last() =~= s.drop_last().map_values(f));
        assert(s.map_values(f).last() == f(s.last()));
        lemma_slot_by_map(s.drop_last(), x, f, la, lb);
    }
}

/// Sorting commutes with a map when the order is read through it.
pub proof fn lemma_sorted_by_map<A, B>(s: Seq<A>, f: spec_fn(A) -> B, la: spec_fn(A, A) -> bool, lb: spec_fn(B, B) -> bool)
    requires
        forall|a: A, b: A| #[trigger] la(a, b) == lb(f(a), f(b)),
    ensures
        sorted_by(s.map_values(f), lb) == sorted_by(s, la).map_values(f),
    decreases s.len(),
{
    if s.len() > 0 {
        lemma_sorted_by_map(s.drop_last(), f, la, lb);
        assert(s.map_values(f).drop_last() =~= s.drop_last().map_values(f));
        let p = sorted_by(s.drop_last(), la);
        lemma_slot_by_map(p, s.last(), f, la, lb);
        lemma_slot_by_bounds(p, s.last(), la);
        assert(insert_by(p.map_values(f), f(s.last()), lb) =~= insert_by(p, s.last(), la).map_values(f));
    }
}

proof fn lemma_slot_by_bounds<T>(s: Seq<T>, x: T, less: spec_fn(T, T) -> bool)
    ensures
        0 <= slot_by(s, x, less) <= s.len(),
    decreases s.len(),
{
    if s.len() > 0 && less(x, s.last()) {
        lemma_slot_by_bounds(s.drop_last(), x, less);
    }
}

proof fn lemma_slot_bounds<T: Ranked>(s: Seq<T>, x: T)
    ensures
        0 <= slot(s, x) <= s.len(),
        forall|j: int| slot(s, x) <= j < s.len() ==> x.before(&#[trigger] s[j]),
        slot(s, x) > 0 ==> !x.before(&s[slot(s, x) - 1]),
    decreases s.len(),
{
    if s.len() > 0 && x.before(&s.last()) {
        lemma_slot_bounds(s.drop_last(), x);
        assert forall|j: int| slot(s, x) <= j < s.len() implies x.before(&#[trigger] s[j]) by {
            if j < s.len() - 1 {
                assert(s[j] == s.drop_last()[j]);
            }
        }
        if slot(s, x) > 0 {
            assert(s[slot(s, x) - 1] == s.drop_last()[slot(s, x) - 1]);
        }
    }
}

proof fn lemma_slot_is_scan<T: Ranked>(s: Seq<T>, x: T, j: int)
    requires
        0 <= j <= s.len(),
        forall|k: int| j <= k < s.len() ==> x.before(&#[trigger] s[k]),
        j == 0 || !x.before(&s[j - 1]),
    ensures
        slot(s, x) == j,
    decreases s.len(),
{
    if s.len() > 0 && j < s.len() {
        assert(x.before(&s.last()));
        lemma_slot_is_scan(s.drop_last(), x, j);
    }
}

/// Where an element lands lies within the sequence.
pub proof fn lemma_slot_bounds_pub<T: Ranked>(s: Seq<T>, x: T)
    ensures
        0 <= slot(s, x) <= s.len(),
{
    lemma_slot_bounds(s, x);
}

pub proof fn lemma_sorted_len<T: Ranked>(s: Seq<T>)
    ensures
        sorted(s).len() == s.len(),
    decreases s.len(),
{
    if s.len() > 0 {
        lemma_sorted_len(s.drop_last());
        lemma_slot_bounds(sorted(s.drop_last()), s.last());
    }
}

/// The stable sort only reorders: nothing repeats in its output that did not
/// repeat in its input, and it holds the same elements.
pub proof fn lemma_sorted_permutes<T: Ranked>(s: Seq<T>)
    requires
        s.no_duplicates(),
    ensures
        sorted(s).no_duplicates(),
        forall|x: T| sorted(s).contains(x) <==> s.contains(x),
    decreases s.len(),
{
    lemma_sorted_len(s);
    if s.len() > 0 {
        let d = s.drop_last();
        assert forall|i: int, j: int| 0 <= i < d.len() && 0 <= j < d.len() && i != j implies d[i]
            != d[j] by {
            assert(d[i] == s[i] && d[j] == s[j]);
        }
        lemma_sorted_permutes(d);
        lemma_sorted_len(d);
        let p = sorted(d);
        let x = s.last();
        if d.contains(x) {
            let i = choose|i: int| 0 <= i < d.len() && d[i] == x;
            assert(s[i] == s[s.len() - 1]);
        }
        lemma_slot_bounds(p, x);
        let k = slot(p, x);
        let r = sorted(s);
        assert(r =~= p.take(k) + seq![x] + p.skip(k));
        assert(r.len() == p.len() + 1);
        assert forall|i: int| 0 <= i < r.len() implies #[trigger] r[i] == (if i < k {
            p[i]
        } else if i == k {
            x
        } else {
            p[i - 1]
        }) by {}
        assert forall|y: T| r.contains(y) <==> s.contains(y) by {
            if r.contains(y) {
                let i = choose|i: int| 0 <= i < r.len() && r[i] == y;
                if i < k {
                    assert(p.contains(y));
                    assert(d.contains(y));
                    let j = choose|j: int| 0 <= j < d.len() && d[j] == y;
                    assert(d[j] == s[j]);
                } else if i == k {
                    assert(s[s.len() - 1] == y);
                } else {
                    assert(p[i - 1] == y);
                    assert(p.contains(y));
                    assert(d.contains(y));
                    let j = choose|j: int| 0 <= j < d.len() && d[j] == y;
                    assert(d[j] == s[j]);
                }
            }
            if s.contains(y) {
                let i = choose|i: int| 0 <= i < s.len() && s[i] == y;
                if i == s.len() - 1 {
                    assert(r[k] == y);
                } else {
                    assert(d[i] == y);
                    assert(d.contains(y));
                    let j = choose|j: int| 0 <= j < p.len() && p[j] == y;
                    if j < k {
                        assert(r[j] == y);
                    } else {
                        assert(r[j + 1] == y);
                    }
                }
            }
        }
        assert forall|i: int, j: int| 0 <= i < r.len() && 0 <= j < r.len() && i != j implies r[i]
            != r[j] by {
            if i != k && j != k {
                let pi = if i < k {
                    i
                } else {
                    i - 1
                };
                let pj = if j < k {
                    j
                } else {
                    j - 1
                };
                assert(r[i] == p[pi] && r[j] == p[pj] && pi != pj);
            } else if i == k {
                let pj = if j < k {
                    j
                } else {
                    j - 1
                };
                assert(r[j] == p[pj]);
            } else {
                let pi = if i < k {
                    i
                } else {
                    i - 1
                };
                assert(r[i] == p[pi]);
            }
        }
    }
}

/// A strict order that sorting can rely on: no two elements go before each
/// other, and if `a` goes before `c`, then any `b` goes after `a` or before
/// `c` (a strict weak order).
pub open spec fn strict_weak<T>(less: spec_fn(T, T) -> bool) -> bool {
    &&& forall|a: T, b: T| #[trigger] less(a, b) ==> !less(b, a)
    &&& forall|a: T, b: T, c: T| #![trigger less(a, b), less(b, c)] less(a, c) ==> less(a, b) || less(b, c)
}

proof fn lemma_slot_by_props<T>(s: Seq<T>, x: T, less: spec_fn(T, T) -> bool)
    ensures
        0 <= slot_by(s, x, less) <= s.len(),
        forall|j: int| slot_by(s, x, less) <= j < s.len() ==> less(x, #[trigger] s[j]),
        slot_by(s, x, less) > 0 ==> !less(x, s[slot_by(s, x, less) - 1]),
    decreases s.len(),
{
    if s.len() > 0 && less(x, s.last()) {
        lemma_slot_by_props(s.drop_last(), x, less);
        assert forall|j: int| slot_by(s, x, less) <= j < s.len() implies less(x, #[trigger] s[j]) by {
            if j < s.len() - 1 {
                assert(s[j] == s.drop_last()[j]);
            }
        }
        if slot_by(s, x, less) > 0 {
            assert(s[slot_by(s, x, less) - 1] == s.drop_last()[slot_by(s, x, less) - 1]);
        }
    }
}

/// What a stable sort gives is in order: under a strict weak order, no
/// element goes before one that comes ahead of it.
pub proof fn lemma_sorted_by_in_order<T>(s: Seq<T>, less: spec_fn(T, T) -> bool)
    requires
        strict_weak(less),
    ensures
        sorted_by(s, less).len() == s.len(),
        forall|i: int, j: int|
            0 <= i < j < sorted_by(s, less).len() ==> !less(
                #[trigger] sorted_by(s, less)[j],
                #[trigger] sorted_by(s, less)[i],
            ),
    decreases s.len(),
{
    if s.len() > 0 {
        let p = sorted_by(s.drop_last(), less);
        lemma_sorted_by_in_order(s.drop_last(), less);
        let x = s.last();
        lemma_slot_by_props(p, x, less);
        let k = slot_by(p, x, less);
        let r = sorted_by(s, less);
        assert(r =~= p.take(k) + seq![x] + p.skip(k));
        assert forall|i: int| 0 <= i < r.len() implies #[trigger] r[i] == (if i < k {
            p[i]
        } else if i == k {
            x
        } else {
            p[i - 1]
        }) by {}
        assert forall|i: int, j: int| 0 <= i < j < r.len() implies !less(#[trigger] r[j], #[trigger] r[i]) by {
            if j < k {
                assert(!less(p[j], p[i]));
            } else if j == k {
                if less(x, p[i]) {
                    assert(less(x, p[k - 1]) || less(p[k - 1], p[i]));
                    if i < k - 1 {
                        assert(!less(p[k - 1], p[i]));
                    }
                }
            } else if i == k {
                assert(less(x, p[j - 1]));
            } else if i < k {
                assert(!less(p[j - 1], p[i]));
            } else {
                assert(!less(p[j - 1], p[i - 1]));
            }
        }
    }
}

/// What a stable sort gives holds only what it was given.
pub proof fn lemma_sorted_by_members<T>(s: Seq<T>, less: spec_fn(T, T) -> bool)
    ensures
        sorted_by(s, less).len() == s.len(),
        forall|i: int| 0 <= i < sorted_by(s, less).len() ==> s.contains(#[trigger] sorted_by(s, less)[i]),
    decreases s.len(),
{
    if s.len() > 0 {
        let p = sorted_by(s.drop_last(), less);
        lemma_sorted_by_members(s.drop_last(), less);
        let x = s.last();
        lemma_slot_by_props(p, x, less);
        let k = slot_by(p, x, less);
        let r = sorted_by(s, less);
        assert(r =~= p.take(k) + seq![x] + p.skip(k));
        assert forall|i: int| 0 <= i < r.len() implies s.contains(#[trigger] r[i]) by {
            if i == k {
                assert(r[i] == s[s.len() - 1]);
            } else {
                let q = if i < k {
                    i
                } else {
                    i - 1
                };
                assert(r[i] == p[q]);
                assert(s.drop_last().contains(p[q]));
                let w = choose|w: int| 0 <= w < s.drop_last().len() && s.drop_last()[w] == p[q];
                assert(s[w] == p[q]);
            }
        }
    }
}

/// A stable sort loses nothing it was given.
pub proof fn lemma_sorted_by_keeps<T>(s: Seq<T>, less: spec_fn(T, T) -> bool)
    ensures
        forall|i: int| 0 <= i < s.len() ==> sorted_by(s, less).contains(#[trigger] s[i]),
    decreases s.len(),
{
    if s.len() > 0 {
        let p = sorted_by(s.drop_last(), less);
        lemma_sorted_by_keeps(s.drop_last(), less);
        let x = s.last();
        lemma_slot_by_props(p, x, less);
        let k = slot_by(p, x, less);
        let r = sorted_by(s, less);
        assert(r =~= p.take(k) + seq![x] + p.skip(k));
        assert forall|i: int| 0 <= i < s.len() implies r.contains(#[trigger] s[i]) by {
            if i == s.len() - 1 {
                assert(r[k] == s[i]);
            } else {
                assert(s[i] == s.drop_last()[i]);
                assert(p.contains(s.drop_last()[i]));
                let w = choose|w: int| 0 <= w < p.len() && p[w] == s.drop_last()[i];
                if w < k {
                    assert(r[w] == p[w]);
                } else {
                    assert(r[w + 1] == p[w]);
                }
            }
        }
    }
}

/// Insert `x` into an already sorted vector at its slot.
fn insert_in_place<T: Ranked>(r: &mut Vec<T>, x: T)
    ensures
        final(r)@ == insert_sorted(old(r)@, x),
{
    let mut j = r.len();
    while j > 0 && x.goes_before(&r[j - 1])
        invariant
            j <= r@.len(),
            r@ == old(r)@,
            forall|k: int| j <= k < r@.len() ==> x.before(&#[trigger] r@[k]),
        decreases j,
    {
        j = j - 1;
    }
    proof {
        lemma_slot_is_scan(r@, x, j as int);
    }
    r.insert(j, x);
    proof {
        assert(r@ =~= insert_sorted(old(r)@, x));
    }
}

/// Sort stably by `goes_before`.
pub fn sort_stable<T: Ranked>(v: Vec<T>) -> (r: Vec<T>)
    ensures
        r@ == sorted(v@),
{
    let ghost all = v@;
    let n = v.len();
    let mut rest = v;
    let mut r: Vec<T> = Vec::new();
    let mut k: usize = 0;
    while rest.len() > 0
        invariant
            k <= all.len(),
            all.len() == n,
            rest@ == all.skip(k as int),
            r@ == sorted(all.take(k as int)),
        decreases rest@.len(),
    {
        let x = rest.remove(0);
        proof {
            assert(x == all[k as int]);
            assert(all.take(k + 1).drop_last() =~= all.take(k as int));
            assert(all.take(k + 1).last() == x);
        }
        insert_in_place(&mut r, x);
        k = k + 1;
        proof {
            assert(rest@ =~= all.skip(k as int));
        }
    }
    proof {
        assert(all.take(k as int) =~= all);
    }
    r
}

/// `str` ordering: lexicographic by code point (UTF-8 byte order agrees).
pub open spec fn text_less(a: Seq<char>, b: Seq<char>) -> bool
    decreases a.len(),
{
    if a.len() == 0 {
        b.len() > 0
    } else if b.len() == 0 {
        false
    } else if (a[0] as int) < (b[0] as int) {
        true
    } else if a[0] == b[0] {
        text_less(a.drop_first(), b.drop_first())
    } else {
        false
    }
}

/// Text order is a strict total order.
pub proof fn lemma_text_less_order(a: Seq<char>, b: Seq<char>, c: Seq<char>)
    ensures
        !text_less(a, a),
        text_less(a, b) ==> !text_less(b, a),
        a != b ==> text_less(a, b) || text_less(b, a),
        text_less(a, b) && text_less(b, c) ==> text_less(a, c),
    decreases a.len(),
{
    if a.len() > 0 && b.len() > 0 && c.len() > 0 {
        lemma_text_less_order(a.drop_first(), b.drop_first(), c.drop_first());
        if a != b && a[0] == b[0] {
            assert(a.drop_first() != b.drop_first()) by {
                if a.drop_first() == b.drop_first() {
                    assert(a =~= seq![a[0]] + a.drop_first());
                    assert(b =~= seq![b[0]] + b.drop_first());
                }
            }
        }
    } else if a.len() > 0 && b.len() > 0 {
        lemma_text_less_order(a.drop_first(), b.drop_first(), b.drop_first());
        if a != b && a[0] == b[0] {
            assert(a.drop_first() != b.drop_first()) by {
                if a.drop_first() == b.drop_first() {
                    assert(a =~= seq![a[0]] + a.drop_first());
                    assert(b =~= seq![b[0]] + b.drop_first());
                }
            }
        }
    } else if a.len() > 0 {
        lemma_text_less_order(a.drop_first(), a.drop_first(), a.drop_first());
    }
    if a.len() == 0 && b.len() == 0 {
        assert(a =~= b);
    }
    if a.len() > 0 && b.len() > 0 && a[0] != b[0] {
        assert(a[0] as int != b[0] as int);
    }
}

proof fn lemma_text_less_step(a: Seq<char>, b: Seq<char>, i: int)
    requires
        0 <= i <= a.len(),
        i <= b.len(),
        forall|k: int| 0 <= k < i ==> a[k] == b[k],
    ensures
        text_less(a, b) == text_less(a.skip(i), b.skip(i)),
    decreases i,
{
    if i > 0 {
        lemma_text_less_step(a.drop_first(), b.drop_first(), i - 1);
        assert(a.drop_first().skip(i - 1) =~= a.skip(i));
        assert(b.drop_first().skip(i - 1) =~= b.skip(i));
    } else {
        assert(a.skip(0) =~= a);
        assert(b.skip(0) =~= b);
    }
}

/// Whether `a < b` as strings.
pub fn text_lt(a: &str, b: &str) -> (r: bool)
    ensures
        r == text_less(a@, b@),
{
    let x = crate::text::chars_of(a);
    let y = crate::text::chars_of(b);
    chars_lt(x.as_slice(), y.as_slice())
}

pub fn chars_lt(x: &[char], y: &[char]) -> (r: bool)
    ensures
        r == text_less(x@, y@),
{
    let mut i: usize = 0;
    while i < x.len() && i < y.len() && x[i] == y[i]
        invariant
            i <= x@.len(),
            i <= y@.len(),
            forall|k: int| 0 <= k < i ==> x@[k] == y@[k],
        decreases x@.len() - i,
    {
        i = i + 1;
    }
    proof {
        lemma_text_less_step(x@, y@, i as int);
    }
    if i == x.len() {
        i < y.len()
    } else if i == y.len() {
        false
    } else {
        x[i] < y[i]
    }
}

/// A text that sorts in `str` order.
pub struct TextKey {
    pub text: String,
}

impl Ranked for TextKey {
    open spec fn before(&self, other: &Self) -> bool {
        text_less(self.text@, other.text@)
    }

    fn goes_before(&self, other: &Self) -> (r: bool) {
        text_lt(self.text.as_str(), other.text.as_str())
    }
}

/// `str` order as a relation.
pub open spec fn text_order() -> spec_fn(Seq<char>, Seq<char>) -> bool {
    |a: Seq<char>, b: Seq<char>| text_less(a, b)
}

/// Texts in `str` order.
pub open spec fn sorted_text(s: Seq<Seq<char>>) -> Seq<Seq<char>> {
    sorted_by(s, text_order())
}

/// Sort texts into `str` order (`slice::sort` on `String`s).
pub fn sort_strings(v: Vec<String>) -> (r: Vec<String>)
    ensures
        r.deep_view() == sorted_text(v.deep_view()),
{
    let mut keys: Vec<TextKey> = Vec::new();
    let mut i: usize = 0;
    while i < v.len()
        invariant
            i <= v@.len(),
            keys@.len() == i,
            forall|k: int| 0 <= k < i ==> (#[trigger] keys@[k]).text@ == v@[k]@,
        decreases v@.len() - i,
    {
        keys.push(TextKey { text: v[i].clone() });
        i = i + 1;
    }
    let ghost f = |k: TextKey| k.text@;
    proof {
        assert(keys@.map_values(f) =~= v.deep_view());
        lemma_sorted_by_map(keys@, f, ranked_less::<TextKey>(), text_order());
    }
    let sorted_keys = sort_stable(keys);
    let mut r: Vec<String> = Vec::new();
    let mut j: usize = 0;
    while j < sorted_keys.len()
        invariant
            j <= sorted_keys@.len(),
            r@.len() == j,
            forall|k: int| 0 <= k < j ==> (#[trigger] r@[k])@ == sorted_keys@[k].text@,
        decreases sorted_keys@.len() - j,
    {
        r.push(sorted_keys[j].text.clone());
        j = j + 1;
    }
    proof {
        assert(r.deep_view() =~= sorted_keys@.map_values(f));
    }
    r
}

} // verus!
