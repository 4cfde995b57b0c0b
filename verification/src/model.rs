//! Tables of rows: views, selection, and ranked results.

use crate::order;
use crate::order::{rank, Key, KeyView};
use vstd::prelude::*;
use vstd::string::*;

verus! {

/// The views of a sequence of values.
pub open spec fn views<T: View>(s: Seq<T>) -> Seq<T::V> {
    Seq::new(s.len(), |i: int| s[i]@)
}

/// The text of an optional string.
pub open spec fn text_of(o: Option<String>) -> Option<Seq<char>> {
    match o {
        Some(s) => Some(s@),
        None => None,
    }
}

/// The number of an optional integer.
pub open spec fn number_of(o: Option<i64>) -> Option<int> {
    match o {
        Some(n) => Some(n as int),
        None => None,
    }
}

/// Copies an optional string.
pub fn copy_text(o: &Option<String>) -> (r: Option<String>)
    ensures
        text_of(r) == text_of(*o),
{
    match o {
        Some(s) => Some(s.clone()),
        None => None,
    }
}

/// Copies bytes.
pub fn copy_bytes(bytes: &Vec<u8>) -> (r: Vec<u8>)
    ensures
        r@ == bytes@,
{
    let mut out: Vec<u8> = Vec::new();
    let mut i: usize = 0;
    while i < bytes.len()
        invariant
            i <= bytes@.len(),
            out@ == bytes@.take(i as int),
        decreases bytes@.len() - i,
    {
        out.push(bytes[i]);
        assert(out@ =~= bytes@.take(i + 1));
        i = i + 1;
    }
    assert(bytes@.take(i as int) =~= bytes@);
    out
}

/// A row of a table: a value that can be copied without changing its view.
pub trait Row: View + Sized {
    /// A copy of the row.
    fn duplicate(&self) -> (r: Self)
        ensures
            r@ == self@,
    ;
}

impl Row for String {
    fn duplicate(&self) -> (r: String) {
        self.clone()
    }
}

/// Selecting from one row more either adds that row at the end or not.
pub proof fn lemma_filter_step<T>(s: Seq<T>, i: int, p: spec_fn(T) -> bool)
    requires
        0 <= i < s.len(),
    ensures
        s.take(i + 1).filter(p) == (if p(s[i]) {
            s.take(i).filter(p).push(s[i])
        } else {
            s.take(i).filter(p)
        }),
{
    reveal(Seq::filter);
    assert(s.take(i + 1).drop_last() =~= s.take(i));
}

/// A selected row is a row of the table that meets the condition, and each
/// such row is selected.
pub proof fn lemma_filter_contains<T>(s: Seq<T>, p: spec_fn(T) -> bool)
    ensures
        forall|i: int|
            0 <= i < s.filter(p).len() ==> p(#[trigger] s.filter(p)[i]) && s.contains(
                s.filter(p)[i],
            ),
        forall|i: int| 0 <= i < s.len() && p(#[trigger] s[i]) ==> s.filter(p).contains(s[i]),
        s.filter(p).len() <= s.len(),
{
    s.lemma_filter_len(p);
    let kept = s.filter(p);
    assert forall|i: int| 0 <= i < kept.len() implies p(#[trigger] kept[i]) && s.contains(
        kept[i],
    ) by {
        s.lemma_filter_pred(p, i);
        assert(kept.contains(kept[i]));
        s.lemma_filter_contains_rev(p, kept[i]);
    }
    assert forall|i: int| 0 <= i < s.len() && p(#[trigger] s[i]) implies kept.contains(s[i]) by {
        s.lemma_filter_contains(p, i);
    }
}

/// Rows that meet a condition, in table order.
pub(crate) fn select<T: Row, F: Fn(&T) -> bool>(
    table: &Vec<T>,
    test: F,
    Ghost(p): Ghost<spec_fn(T::V) -> bool>,
) -> (r: Vec<T>)
    requires
        forall|x: &T| #[trigger] call_requires(test, (x,)),
        forall|x: &T, y: bool| #[trigger] call_ensures(test, (x,), y) ==> y == p(x@),
    ensures
        views(r@) == views(table@).filter(p),
{
    let mut out: Vec<T> = Vec::new();
    let ghost all = views(table@);
    let mut i: usize = 0;
    assert(all.take(0).filter(p) =~= Seq::empty()) by {
        reveal(Seq::filter);
    }
    assert(views(out@) =~= Seq::empty());
    while i < table.len()
        invariant
            i <= table@.len(),
            all == views(table@),
            forall|x: &T| #[trigger] call_requires(test, (x,)),
            forall|x: &T, y: bool| #[trigger] call_ensures(test, (x,), y) ==> y == p(x@),
            views(out@) == all.take(i as int).filter(p),
        decreases table@.len() - i,
    {
        let ghost before = out@;
        if test(&table[i]) {
            out.push(table[i].duplicate());
            assert(views(out@) =~= views(before).push(all[i as int]));
        }
        proof {
            lemma_filter_step(all, i as int, p);
        }
        i = i + 1;
    }
    assert(all.take(i as int) =~= all);
    out
}

/// Number of rows that meet a condition.
pub(crate) fn count<T: Row, F: Fn(&T) -> bool>(
    table: &Vec<T>,
    test: F,
    Ghost(p): Ghost<spec_fn(T::V) -> bool>,
) -> (r: usize)
    requires
        forall|x: &T| #[trigger] call_requires(test, (x,)),
        forall|x: &T, y: bool| #[trigger] call_ensures(test, (x,), y) ==> y == p(x@),
    ensures
        r == views(table@).filter(p).len(),
{
    let mut n: usize = 0;
    let ghost all = views(table@);
    let mut i: usize = 0;
    assert(all.take(0).filter(p) =~= Seq::empty()) by {
        reveal(Seq::filter);
    }
    while i < table.len()
        invariant
            i <= table@.len(),
            n <= i,
            all == views(table@),
            forall|x: &T| #[trigger] call_requires(test, (x,)),
            forall|x: &T, y: bool| #[trigger] call_ensures(test, (x,), y) ==> y == p(x@),
            n == all.take(i as int).filter(p).len(),
        decreases table@.len() - i,
    {
        if test(&table[i]) {
            n = n + 1;
        }
        proof {
            lemma_filter_step(all, i as int, p);
        }
        i = i + 1;
    }
    assert(all.take(i as int) =~= all);
    n
}

/// Holds when some row meets a condition.
pub open spec fn any_row<V>(s: Seq<V>, p: spec_fn(V) -> bool) -> bool {
    exists|i: int| 0 <= i < s.len() && p(#[trigger] s[i])
}

/// Holds when every row meets a condition.
pub open spec fn all_rows<V>(s: Seq<V>, p: spec_fn(V) -> bool) -> bool {
    forall|i: int| 0 <= i < s.len() ==> p(#[trigger] s[i])
}

/// Holds when no two rows have the same key.
pub open spec fn distinct<V, K>(s: Seq<V>, key: spec_fn(V) -> K) -> bool {
    forall|i: int, j: int|
        0 <= i < j < s.len() ==> key(#[trigger] s[i]) != key(#[trigger] s[j])
}

/// The first row that meets a condition.
pub open spec fn first_row<V>(s: Seq<V>, p: spec_fn(V) -> bool) -> Option<V> {
    if s.filter(p).len() > 0 {
        Some(s.filter(p)[0])
    } else {
        None
    }
}

/// The last row that meets a condition.
pub open spec fn last_row<V>(s: Seq<V>, p: spec_fn(V) -> bool) -> Option<V> {
    if s.filter(p).len() > 0 {
        Some(s.filter(p).last())
    } else {
        None
    }
}

/// What is selected from the first rows begins what is selected from all.
proof fn lemma_filter_prefix<T>(s: Seq<T>, i: int, p: spec_fn(T) -> bool)
    requires
        0 <= i <= s.len(),
    ensures
        s.take(i).filter(p).len() <= s.filter(p).len(),
        forall|k: int|
            0 <= k < s.take(i).filter(p).len() ==> s.filter(p)[k] == #[trigger] s.take(
                i,
            ).filter(p)[k],
    decreases s.len() - i,
{
    if i < s.len() {
        lemma_filter_prefix(s, i + 1, p);
        lemma_filter_step(s, i, p);
        let less = s.take(i).filter(p);
        let more = s.take(i + 1).filter(p);
        assert forall|k: int| 0 <= k < less.len() implies s.filter(p)[k] == #[trigger] less[k] by {
            assert(more[k] == less[k]);
        }
    } else {
        assert(s.take(i) =~= s);
    }
}

/// The first row that meets a condition is there exactly when some row does.
pub proof fn lemma_first_row<V>(s: Seq<V>, p: spec_fn(V) -> bool)
    ensures
        first_row(s, p) is Some <==> any_row(s, p),
        first_row(s, p) is Some ==> p(first_row(s, p)->0) && s.contains(first_row(s, p)->0),
        any_row(s, p) <==> s.filter(p).len() > 0,
{
    lemma_filter_contains(s, p);
    if any_row(s, p) {
        let i = choose|i: int| 0 <= i < s.len() && p(#[trigger] s[i]);
        assert(s.filter(p).contains(s[i]));
    }
    if s.filter(p).len() > 0 {
        assert(p(s.filter(p)[0]));
        let i = choose|i: int| 0 <= i < s.len() && s[i] == s.filter(p)[0];
        assert(p(s[i]));
    }
}

/// Selecting from a table with one more row.
pub proof fn lemma_filter_push<V>(s: Seq<V>, x: V, p: spec_fn(V) -> bool)
    ensures
        s.push(x).filter(p) == (if p(x) {
            s.filter(p).push(x)
        } else {
            s.filter(p)
        }),
{
    let t = s.push(x);
    lemma_filter_step(t, s.len() as int, p);
    assert(t.take(s.len() as int) =~= s);
    assert(t.take(s.len() as int + 1) =~= t);
}

/// Selecting from a changed table gives the changed rows of the selection, where
/// the change leaves the condition alone.
pub proof fn lemma_filter_map<V>(s: Seq<V>, g: spec_fn(V) -> V, p: spec_fn(V) -> bool)
    requires
        forall|v: V| p(#[trigger] g(v)) == p(v),
    ensures
        s.map_values(g).filter(p) == s.filter(p).map_values(g),
    decreases s.len(),
{
    reveal(Seq::filter);
    if s.len() == 0 {
        assert(s.map_values(g).filter(p) =~= s.filter(p).map_values(g));
    } else {
        lemma_filter_map(s.drop_last(), g, p);
        assert(s.map_values(g).drop_last() =~= s.drop_last().map_values(g));
        assert(s.map_values(g).filter(p) =~= s.filter(p).map_values(g));
    }
}

/// Selecting twice gives what the second condition selects, where it implies the
/// first.
pub proof fn lemma_filter_filter<V>(s: Seq<V>, p: spec_fn(V) -> bool, q: spec_fn(V) -> bool)
    requires
        forall|v: V| #[trigger] q(v) ==> p(v),
    ensures
        s.filter(p).filter(q) == s.filter(q),
    decreases s.len(),
{
    reveal(Seq::filter);
    if s.len() > 0 {
        lemma_filter_filter(s.drop_last(), p, q);
        if p(s.last()) {
            lemma_filter_push(s.drop_last().filter(p), s.last(), q);
        }
    }
}

/// Selecting what every row meets selects all rows.
pub proof fn lemma_filter_all<V>(s: Seq<V>, p: spec_fn(V) -> bool)
    requires
        all_rows(s, p),
    ensures
        s.filter(p) == s,
    decreases s.len(),
{
    reveal(Seq::filter);
    if s.len() > 0 {
        let front = s.drop_last();
        assert forall|i: int| 0 <= i < front.len() implies p(#[trigger] front[i]) by {
            assert(front[i] == s[i]);
        }
        lemma_filter_all(front, p);
        assert(p(s[s.len() - 1]));
        assert(front.push(s.last()) =~= s);
    } else {
        assert(s.filter(p) =~= s);
    }
}

/// Conditions that agree on every row select the same rows.
proof fn lemma_filter_alike<V>(s: Seq<V>, p: spec_fn(V) -> bool, q: spec_fn(V) -> bool)
    requires
        forall|i: int| 0 <= i < s.len() ==> p(#[trigger] s[i]) == q(s[i]),
    ensures
        s.filter(p) == s.filter(q),
    decreases s.len(),
{
    reveal(Seq::filter);
    if s.len() > 0 {
        let front = s.drop_last();
        assert forall|i: int| 0 <= i < front.len() implies p(#[trigger] front[i]) == q(
            front[i],
        ) by {
            assert(front[i] == s[i]);
        }
        lemma_filter_alike(front, p, q);
        assert(p(s[s.len() - 1]) == q(s[s.len() - 1]));
    }
}

/// A condition that leaves out one more row selects one row less.
pub proof fn lemma_filter_without<V>(
    s: Seq<V>,
    p: spec_fn(V) -> bool,
    q: spec_fn(V) -> bool,
    k: int,
)
    requires
        0 <= k < s.len(),
        p(s[k]) && !q(s[k]),
        forall|i: int| 0 <= i < s.len() && i != k ==> p(#[trigger] s[i]) == q(s[i]),
    ensures
        s.filter(p).len() == s.filter(q).len() + 1,
    decreases s.len(),
{
    reveal(Seq::filter);
    let front = s.drop_last();
    assert forall|i: int| 0 <= i < front.len() && i != k implies p(#[trigger] front[i]) == q(
        front[i],
    ) by {
        assert(front[i] == s[i]);
    }
    if k < front.len() {
        assert(front[k] == s[k]);
        lemma_filter_without(front, p, q, k);
        assert(p(s[s.len() - 1]) == q(s[s.len() - 1]));
    } else {
        lemma_filter_alike(front, p, q);
    }
}

/// The first row that meets a condition is the one before which none does.
pub proof fn lemma_first_row_at<V>(s: Seq<V>, p: spec_fn(V) -> bool, i: int)
    requires
        0 <= i < s.len(),
        p(s[i]),
        forall|k: int| 0 <= k < i ==> !p(#[trigger] s[k]),
    ensures
        first_row(s, p) == Some(s[i]),
{
    let front = s.take(i);
    assert forall|k: int| 0 <= k < front.len() implies !p(#[trigger] front[k]) by {
        assert(front[k] == s[k]);
    }
    lemma_first_row(front, p);
    lemma_filter_step(s, i, p);
    lemma_filter_prefix(s, i + 1, p);
    assert(s.take(i + 1).filter(p)[0] == s[i]);
}

/// Appending a row with a new key keeps keys distinct.
pub proof fn lemma_distinct_push<V, K>(s: Seq<V>, x: V, key: spec_fn(V) -> K)
    requires
        distinct(s, key),
        forall|i: int| 0 <= i < s.len() ==> key(#[trigger] s[i]) != key(x),
    ensures
        distinct(s.push(x), key),
{
    let t = s.push(x);
    assert forall|i: int, j: int| 0 <= i < j < t.len() implies key(#[trigger] t[i]) != key(
        #[trigger] t[j],
    ) by {
        assert(t[i] == s[i]);
        if j < s.len() {
            assert(t[j] == s[j]);
        }
    }
}

/// Removing rows keeps keys distinct.
pub proof fn lemma_distinct_filter<V, K>(s: Seq<V>, p: spec_fn(V) -> bool, key: spec_fn(V) -> K)
    requires
        distinct(s, key),
    ensures
        distinct(s.filter(p), key),
    decreases s.len(),
{
    reveal(Seq::filter);
    if s.len() > 0 {
        let front = s.drop_last();
        assert(distinct(front, key)) by {
            assert forall|i: int, j: int| 0 <= i < j < front.len() implies key(
                #[trigger] front[i],
            ) != key(#[trigger] front[j]) by {
                assert(front[i] == s[i] && front[j] == s[j]);
            }
        }
        lemma_distinct_filter(front, p, key);
        if p(s.last()) {
            lemma_filter_contains(front, p);
            assert forall|i: int| 0 <= i < front.filter(p).len() implies key(
                #[trigger] front.filter(p)[i],
            ) != key(s.last()) by {
                let k = choose|k: int| 0 <= k < front.len() && front[k] == front.filter(p)[i];
                assert(s[k] == front[k]);
            }
            lemma_distinct_push(front.filter(p), s.last(), key);
        }
    }
}

/// Removing rows keeps the others in order.
pub proof fn lemma_ordered_filter<V>(s: Seq<V>, p: spec_fn(V) -> bool, key: spec_fn(V) -> KeyView)
    requires
        forall|i: int, j: int|
            0 <= i < j < s.len() ==> order::key_le(key(#[trigger] s[i]), key(#[trigger] s[j])),
    ensures
        forall|i: int, j: int|
            0 <= i < j < s.filter(p).len() ==> order::key_le(
                key(#[trigger] s.filter(p)[i]),
                key(#[trigger] s.filter(p)[j]),
            ),
    decreases s.len(),
{
    reveal(Seq::filter);
    if s.len() > 0 {
        let front = s.drop_last();
        lemma_ordered_filter(front, p, key);
        lemma_filter_contains(front, p);
        let kept = front.filter(p);
        assert forall|i: int| 0 <= i < kept.len() implies order::key_le(
            key(#[trigger] kept[i]),
            key(s.last()),
        ) by {
            let k = choose|k: int| 0 <= k < front.len() && front[k] == kept[i];
            assert(s[k] == front[k]);
            assert(s[s.len() - 1] == s.last());
        }
    }
}

/// Changing rows but not their keys keeps keys distinct.
pub proof fn lemma_distinct_map<V, K>(s: Seq<V>, g: spec_fn(V) -> V, key: spec_fn(V) -> K)
    requires
        distinct(s, key),
        forall|v: V| key(#[trigger] g(v)) == key(v),
    ensures
        distinct(s.map_values(g), key),
{
    let t = s.map_values(g);
    assert forall|i: int, j: int| 0 <= i < j < t.len() implies key(#[trigger] t[i]) != key(
        #[trigger] t[j],
    ) by {
        assert(t[i] == g(s[i]) && t[j] == g(s[j]));
    }
}

/// When keys are distinct, at most one row has a given key.
pub proof fn lemma_distinct_filter_len<V, K>(s: Seq<V>, p: spec_fn(V) -> bool, key: spec_fn(V) -> K)
    requires
        distinct(s, key),
        forall|v: V, w: V| p(v) && p(w) ==> #[trigger] key(v) == #[trigger] key(w),
    ensures
        s.filter(p).len() <= 1,
{
    lemma_distinct_filter(s, p, key);
    lemma_filter_contains(s, p);
    let t = s.filter(p);
    if t.len() > 1 {
        assert(p(t[0]) && p(t[1]));
        assert(key(t[0]) == key(t[1]));
    }
}

/// The first row that meets a condition.
pub(crate) fn pick<T: Row, F: Fn(&T) -> bool>(
    table: &Vec<T>,
    test: F,
    Ghost(p): Ghost<spec_fn(T::V) -> bool>,
) -> (r: Option<T>)
    requires
        forall|x: &T| #[trigger] call_requires(test, (x,)),
        forall|x: &T, y: bool| #[trigger] call_ensures(test, (x,), y) ==> y == p(x@),
    ensures
        row_of(r) == first_row(views(table@), p),
{
    let mut i: usize = 0;
    let ghost all = views(table@);
    assert(all.take(0).filter(p) =~= Seq::empty()) by {
        reveal(Seq::filter);
    }
    while i < table.len()
        invariant
            i <= table@.len(),
            all == views(table@),
            forall|x: &T| #[trigger] call_requires(test, (x,)),
            forall|x: &T, y: bool| #[trigger] call_ensures(test, (x,), y) ==> y == p(x@),
            all.take(i as int).filter(p) == Seq::<T::V>::empty(),
        decreases table@.len() - i,
    {
        let hit: bool = test(&table[i]);
        proof {
            lemma_filter_step(all, i as int, p);
        }
        if hit {
            proof {
                lemma_filter_prefix(all, i + 1, p);
                assert(all.take(i + 1).filter(p)[0] == all[i as int]);
            }
            return Some(table[i].duplicate());
        }
        i = i + 1;
    }
    assert(all.take(i as int) =~= all);
    None
}

/// The last row that meets a condition.
pub(crate) fn pick_last<T: Row, F: Fn(&T) -> bool>(
    table: &Vec<T>,
    test: F,
    Ghost(p): Ghost<spec_fn(T::V) -> bool>,
) -> (r: Option<T>)
    requires
        forall|x: &T| #[trigger] call_requires(test, (x,)),
        forall|x: &T, y: bool| #[trigger] call_ensures(test, (x,), y) ==> y == p(x@),
    ensures
        row_of(r) == last_row(views(table@), p),
{
    let mut rows: Vec<T> = select(table, test, Ghost(p));
    assert(views(rows@).len() == rows@.len());
    let ghost all = rows@;
    let last: Option<T> = rows.pop();
    assert(last is Some ==> views(all).last() == (last->0)@);
    last
}

/// Tells whether some row meets a condition.
pub(crate) fn has<T: Row, F: Fn(&T) -> bool>(
    table: &Vec<T>,
    test: F,
    Ghost(p): Ghost<spec_fn(T::V) -> bool>,
) -> (r: bool)
    requires
        forall|x: &T| #[trigger] call_requires(test, (x,)),
        forall|x: &T, y: bool| #[trigger] call_ensures(test, (x,), y) ==> y == p(x@),
    ensures
        r == any_row(views(table@), p),
{
    let mut i: usize = 0;
    while i < table.len()
        invariant
            i <= table@.len(),
            forall|x: &T| #[trigger] call_requires(test, (x,)),
            forall|x: &T, y: bool| #[trigger] call_ensures(test, (x,), y) ==> y == p(x@),
            forall|k: int| 0 <= k < i ==> !p(#[trigger] views(table@)[k]),
        decreases table@.len() - i,
    {
        if test(&table[i]) {
            assert(p(views(table@)[i as int]));
            return true;
        }
        i = i + 1;
    }
    false
}

/// The table with a change applied to each row.
pub(crate) fn rewrite<T: Row, F: Fn(&T) -> T>(
    table: &Vec<T>,
    change: F,
    Ghost(g): Ghost<spec_fn(T::V) -> T::V>,
) -> (r: Vec<T>)
    requires
        forall|x: &T| #[trigger] call_requires(change, (x,)),
        forall|x: &T, y: T| #[trigger] call_ensures(change, (x,), y) ==> y@ == g(x@),
    ensures
        views(r@) == views(table@).map_values(g),
{
    let mut out: Vec<T> = Vec::new();
    let mut i: usize = 0;
    while i < table.len()
        invariant
            i <= table@.len(),
            out@.len() == i,
            forall|x: &T| #[trigger] call_requires(change, (x,)),
            forall|x: &T, y: T| #[trigger] call_ensures(change, (x,), y) ==> y@ == g(x@),
            forall|k: int| 0 <= k < i ==> (#[trigger] out@[k])@ == g(table@[k]@),
        decreases table@.len() - i,
    {
        out.push(change(&table[i]));
        i = i + 1;
    }
    assert(views(out@) =~= views(table@).map_values(g));
    out
}

/// The view of an optional row.
pub open spec fn row_of<T: View>(o: Option<T>) -> Option<T::V> {
    match o {
        Some(x) => Some(x@),
        None => None,
    }
}

/// The keys of a sequence of rows.
pub open spec fn keys_of<V>(s: Seq<V>, key: spec_fn(V) -> KeyView) -> Seq<KeyView> {
    Seq::new(s.len(), |i: int| key(s[i]))
}

/// The rows of `s` in the given order of positions.
pub open spec fn picked<V>(s: Seq<V>, order: Seq<usize>) -> Seq<V> {
    Seq::new(order.len(), |i: int| s[order[i] as int])
}

/// The first `limit` elements, or all when there are no more.
pub open spec fn first<V>(s: Seq<V>, limit: int) -> Seq<V> {
    if limit < s.len() {
        s.take(limit)
    } else {
        s
    }
}

/// Holds when `result` lists the rows of `source` by ascending key and stops
/// after `limit` rows.
pub open spec fn ranked<V>(
    result: Seq<V>,
    source: Seq<V>,
    key: spec_fn(V) -> KeyView,
    limit: int,
) -> bool {
    exists|order: Seq<usize>|
        #![trigger order::ranks(order, keys_of(source, key))]
        order::ranks(order, keys_of(source, key)) && result == first(picked(source, order), limit)
}

/// The first `limit` rows by ascending key.
fn top<T: Row>(
    source: &Vec<T>,
    keys: &Vec<Key>,
    Ghost(key): Ghost<spec_fn(T::V) -> KeyView>,
    limit: usize,
) -> (r: Vec<T>)
    requires
        views(keys@) == keys_of(views(source@), key),
    ensures
        ranked(views(r@), views(source@), key, limit as int),
{
    let order: Vec<usize> = rank(keys);
    let mut out: Vec<T> = Vec::new();
    let mut i: usize = 0;
    assert(keys_of(views(source@), key).len() == source@.len());
    let ghost all = picked(views(source@), order@);
    while i < order.len() && i < limit
        invariant
            i <= order@.len(),
            i <= limit,
            order::permutes(order@, source@.len()),
            all == picked(views(source@), order@),
            out@.len() == i,
            forall|k: int| 0 <= k < i ==> (#[trigger] out@[k])@ == all[k],
        decreases order@.len() - i,
    {
        let at: usize = order[i];
        out.push(source[at].duplicate());
        i = i + 1;
    }
    assert(views(out@) =~= first(all, limit as int));
    assert(order::ranks(order@, keys_of(views(source@), key)));
    out
}

/// The first `limit` rows by the ascending keys that `key_of` gives.
pub(crate) fn top_by<T: Row, F: Fn(&T) -> Key>(
    source: &Vec<T>,
    key_of: F,
    Ghost(key): Ghost<spec_fn(T::V) -> KeyView>,
    limit: usize,
) -> (r: Vec<T>)
    requires
        forall|x: &T| #[trigger] call_requires(key_of, (x,)),
        forall|x: &T, y: Key| #[trigger] call_ensures(key_of, (x,), y) ==> y@ == key(x@),
    ensures
        ranked(views(r@), views(source@), key, limit as int),
{
    let mut keys: Vec<Key> = Vec::new();
    let mut i: usize = 0;
    while i < source.len()
        invariant
            i <= source@.len(),
            keys@.len() == i,
            forall|x: &T| #[trigger] call_requires(key_of, (x,)),
            forall|x: &T, y: Key| #[trigger] call_ensures(key_of, (x,), y) ==> y@ == key(x@),
            forall|k: int| 0 <= k < i ==> (#[trigger] keys@[k])@ == key(source@[k]@),
        decreases source@.len() - i,
    {
        keys.push(key_of(&source[i]));
        i = i + 1;
    }
    assert(views(keys@) =~= keys_of(views(source@), key));
    top(source, &keys, Ghost(key), limit)
}

/// The rows that `g` gives for the rows of a table, without those for which it
/// gives none.
pub open spec fn joined<V, W>(s: Seq<V>, g: spec_fn(V) -> Option<W>) -> Seq<W> {
    s.filter(gives(g)).map_values(given(g))
}

/// Selects the rows for which `g` gives a row.
pub open spec fn gives<V, W>(g: spec_fn(V) -> Option<W>) -> spec_fn(V) -> bool {
    |v: V| g(v) is Some
}

/// The row that `g` gives.
pub open spec fn given<V, W>(g: spec_fn(V) -> Option<W>) -> spec_fn(V) -> W {
    |v: V| g(v)->0
}

/// The rows that `f` gives for the rows of a table.
pub(crate) fn join<T: Row, U: Row, F: Fn(&T) -> Option<U>>(
    table: &Vec<T>,
    f: F,
    Ghost(g): Ghost<spec_fn(T::V) -> Option<U::V>>,
) -> (r: Vec<U>)
    requires
        forall|x: &T| #[trigger] call_requires(f, (x,)),
        forall|x: &T, y: Option<U>| #[trigger] call_ensures(f, (x,), y) ==> row_of(y) == g(x@),
    ensures
        views(r@) == joined(views(table@), g),
{
    let mut out: Vec<U> = Vec::new();
    let ghost all = views(table@);
    let mut i: usize = 0;
    assert(all.take(0).filter(gives(g)) =~= Seq::empty()) by {
        reveal(Seq::filter);
    }
    assert(views(out@) =~= joined(all.take(0), g));
    while i < table.len()
        invariant
            i <= table@.len(),
            all == views(table@),
            forall|x: &T| #[trigger] call_requires(f, (x,)),
            forall|x: &T, y: Option<U>|
                #[trigger] call_ensures(f, (x,), y) ==> row_of(y) == g(x@),
            views(out@) == joined(all.take(i as int), g),
        decreases table@.len() - i,
    {
        let ghost before = out@;
        let hit: Option<U> = f(&table[i]);
        proof {
            lemma_filter_step(all, i as int, gives(g));
        }
        match hit {
            Some(row) => {
                let ghost added = row@;
                out.push(row);
                assert(views(out@) =~= views(before).push(added));
                assert(joined(all.take(i + 1), g) =~= joined(all.take(i as int), g).push(added));
            },
            None => {},
        }
        i = i + 1;
    }
    assert(all.take(i as int) =~= all);
    out
}

/// A ranked result holds as many rows as the limit and the source allow, each
/// row of it comes from the source, the rows stand in key order, and no row that
/// is left out belongs before one that is there.
pub proof fn law_ranked_rows<V>(
    result: Seq<V>,
    source: Seq<V>,
    key: spec_fn(V) -> KeyView,
    limit: int,
)
    requires
        ranked(result, source, key, limit),
        limit >= 0,
    ensures
        result.len() == (if limit < source.len() {
            limit
        } else {
            source.len() as int
        }),
        forall|i: int| 0 <= i < result.len() ==> source.contains(#[trigger] result[i]),
        forall|i: int, j: int|
            0 <= i < j < result.len() ==> order::key_le(
                key(#[trigger] result[i]),
                key(#[trigger] result[j]),
            ),
        forall|k: int, i: int|
            0 <= k < source.len() && 0 <= i < result.len() ==> result.contains(
                #[trigger] source[k],
            ) || order::key_le(key(#[trigger] result[i]), key(source[k])),
{
    let order = choose|order: Seq<usize>|
        #![trigger order::ranks(order, keys_of(source, key))]
        order::ranks(order, keys_of(source, key)) && result == first(picked(source, order), limit);
    assert forall|k: int, i: int|
        0 <= k < source.len() && 0 <= i < result.len() && !result.contains(
            #[trigger] source[k],
        ) implies order::key_le(key(#[trigger] result[i]), key(source[k])) by {
        order::lemma_permutes_covers(order, source.len(), k);
        let p = choose|p: int| 0 <= p < order.len() && #[trigger] order[p] == k;
        if p < result.len() {
            assert(result[p] == source[k]);
        }
        assert(keys_of(source, key)[order[i] as int] == key(result[i]));
        assert(keys_of(source, key)[order[p] as int] == key(source[k]));
    }
    assert forall|i: int| 0 <= i < result.len() implies source.contains(#[trigger] result[i]) by {
        assert(result[i] == source[order[i] as int]);
    }
    assert forall|i: int, j: int| 0 <= i < j < result.len() implies order::key_le(
        key(#[trigger] result[i]),
        key(#[trigger] result[j]),
    ) by {
        assert(keys_of(source, key)[order[i] as int] == key(result[i]));
        assert(keys_of(source, key)[order[j] as int] == key(result[j]));
    }
}

/// A ranked result without a limit holds every row of its source.
pub proof fn lemma_ranked_all<V>(
    result: Seq<V>,
    source: Seq<V>,
    key: spec_fn(V) -> KeyView,
    limit: int,
    k: int,
)
    requires
        ranked(result, source, key, limit),
        limit >= source.len(),
        0 <= k < source.len(),
    ensures
        result.contains(source[k]),
{
    let order = choose|order: Seq<usize>|
        #![trigger order::ranks(order, keys_of(source, key))]
        order::ranks(order, keys_of(source, key)) && result == first(picked(source, order), limit);
    order::lemma_permutes_covers(order, source.len(), k);
    let p = choose|p: int| 0 <= p < order.len() && #[trigger] order[p] == k;
    assert(result[p] == source[k]);
}

/// A result that is ranked by keys which differ from each other is the only one.
pub proof fn law_ranked_result_is_unique<V>(
    a: Seq<V>,
    b: Seq<V>,
    source: Seq<V>,
    key: spec_fn(V) -> KeyView,
    limit: int,
)
    requires
        ranked(a, source, key, limit),
        ranked(b, source, key, limit),
        distinct(source, key),
    ensures
        a == b,
{
    let keys = keys_of(source, key);
    let x = choose|order: Seq<usize>|
        #![trigger order::ranks(order, keys_of(source, key))]
        order::ranks(order, keys_of(source, key)) && a == first(picked(source, order), limit);
    let y = choose|order: Seq<usize>|
        #![trigger order::ranks(order, keys_of(source, key))]
        order::ranks(order, keys_of(source, key)) && b == first(picked(source, order), limit);
    assert forall|i: int, j: int| 0 <= i < j < keys.len() implies #[trigger] keys[i]
        != #[trigger] keys[j] by {
        assert(key(source[i]) != key(source[j]));
    }
    order::law_distinct_keys_rank_in_one_way(x, y, keys);
}

/// A ranked result repeats no row of a source without repetition.
pub proof fn lemma_ranked_distinct<V, K>(
    result: Seq<V>,
    source: Seq<V>,
    rank: spec_fn(V) -> KeyView,
    limit: int,
    key: spec_fn(V) -> K,
)
    requires
        ranked(result, source, rank, limit),
        limit >= 0,
        distinct(source, key),
    ensures
        distinct(result, key),
{
    let order = choose|order: Seq<usize>|
        #![trigger order::ranks(order, keys_of(source, rank))]
        order::ranks(order, keys_of(source, rank)) && result == first(
            picked(source, order),
            limit,
        );
    assert forall|i: int, j: int| 0 <= i < j < result.len() implies key(#[trigger] result[i])
        != key(#[trigger] result[j]) by {
        let a = order[i] as int;
        let b = order[j] as int;
        assert(result[i] == source[a] && result[j] == source[b]);
        assert(a != b);
        if a < b {
            assert(key(source[a]) != key(source[b]));
        } else {
            assert(key(source[b]) != key(source[a]));
        }
    }
}

} // verus!
