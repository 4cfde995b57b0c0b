//! Row ordering: composite keys, and the ranking of rows by key.

use crate::model;
use crate::text::to_chars;
use vstd::prelude::*;
use vstd::set_lib::*;
use vstd::string::*;

verus! {

/// Lexicographic order by character code.
pub open spec fn text_le(a: Seq<char>, b: Seq<char>) -> bool
    decreases a.len(),
{
    if a.len() == 0 {
        true
    } else if b.len() == 0 {
        false
    } else if a[0] == b[0] {
        text_le(a.skip(1), b.skip(1))
    } else {
        (a[0] as int) < (b[0] as int)
    }
}

/// The character's code.
fn code(c: char) -> (r: u32)
    ensures
        r == c as int,
{
    c as u32
}

/// Tells whether `a` comes before `b` or equals it.
pub fn is_text_le(a: &str, b: &str) -> (r: bool)
    ensures
        r == text_le(a@, b@),
{
    let x: Vec<char> = to_chars(a);
    let y: Vec<char> = to_chars(b);
    let mut i: usize = 0;
    assert(x@.skip(0) =~= x@);
    assert(y@.skip(0) =~= y@);
    while i < x.len() && i < y.len() && x[i] == y[i]
        invariant
            i <= x@.len(),
            i <= y@.len(),
            text_le(x@, y@) == text_le(x@.skip(i as int), y@.skip(i as int)),
        decreases x@.len() - i,
    {
        assert(x@.skip(i as int).skip(1) =~= x@.skip(i + 1));
        assert(y@.skip(i as int).skip(1) =~= y@.skip(i + 1));
        i = i + 1;
    }
    if i == x.len() {
        true
    } else if i == y.len() {
        false
    } else {
        code(x[i]) < code(y[i])
    }
}

/// The order on texts is total and antisymmetric.
pub proof fn lemma_text_le_total(a: Seq<char>, b: Seq<char>)
    ensures
        text_le(a, b) || text_le(b, a),
        text_le(a, b) && text_le(b, a) ==> a == b,
    decreases a.len(),
{
    if a.len() > 0 && b.len() > 0 {
        if a[0] == b[0] {
            lemma_text_le_total(a.skip(1), b.skip(1));
            if text_le(a, b) && text_le(b, a) {
                assert(a =~= seq![a[0]] + a.skip(1));
                assert(b =~= seq![b[0]] + b.skip(1));
            }
        }
    } else if text_le(a, b) && text_le(b, a) {
        assert(a =~= b);
    }
}

/// The order on texts is transitive.
pub proof fn lemma_text_le_trans(a: Seq<char>, b: Seq<char>, c: Seq<char>)
    requires
        text_le(a, b),
        text_le(b, c),
    ensures
        text_le(a, c),
    decreases a.len(),
{
    if a.len() > 0 && b.len() > 0 && c.len() > 0 {
        if a[0] == b[0] && b[0] == c[0] {
            lemma_text_le_trans(a.skip(1), b.skip(1), c.skip(1));
        }
    }
}

/// Model of a sort key: three numbers, then a text.
pub struct KeyView {
    pub first: int,
    pub second: int,
    pub third: int,
    pub text: Seq<char>,
}

/// A sort key. Rows with smaller keys come first; a column in descending order
/// takes part with its sign changed.
pub struct Key {
    pub first: i128,
    pub second: i128,
    pub third: i128,
    pub text: String,
}

impl View for Key {
    type V = KeyView;

    open spec fn view(&self) -> KeyView {
        KeyView {
            first: self.first as int,
            second: self.second as int,
            third: self.third as int,
            text: self.text@,
        }
    }
}

/// Order of keys: column by column.
pub open spec fn key_le(a: KeyView, b: KeyView) -> bool {
    if a.first != b.first {
        a.first < b.first
    } else if a.second != b.second {
        a.second < b.second
    } else if a.third != b.third {
        a.third < b.third
    } else {
        text_le(a.text, b.text)
    }
}

fn is_key_le(a: &Key, b: &Key) -> (r: bool)
    ensures
        r == key_le(a@, b@),
{
    if a.first != b.first {
        a.first < b.first
    } else if a.second != b.second {
        a.second < b.second
    } else if a.third != b.third {
        a.third < b.third
    } else {
        is_text_le(a.text.as_str(), b.text.as_str())
    }
}

/// The order on keys is total, and keys that are each before the other are equal.
pub proof fn lemma_key_le_total(a: KeyView, b: KeyView)
    ensures
        key_le(a, b) || key_le(b, a),
        key_le(a, b) && key_le(b, a) ==> a == b,
{
    lemma_text_le_total(a.text, b.text);
}

/// The order on keys is transitive.
pub proof fn lemma_key_le_trans(a: KeyView, b: KeyView, c: KeyView)
    requires
        key_le(a, b),
        key_le(b, c),
    ensures
        key_le(a, c),
{
    if a.first == b.first == c.first && a.second == b.second == c.second && a.third == b.third
        == c.third {
        lemma_text_le_trans(a.text, b.text, c.text);
    }
}

/// Holds when `order` lists each of the positions `0..n` once.
pub open spec fn permutes(order: Seq<usize>, n: nat) -> bool {
    &&& order.len() == n
    &&& forall|i: int| 0 <= i < order.len() ==> (#[trigger] order[i]) < n
    &&& forall|i: int, j: int|
        0 <= i < j < order.len() ==> #[trigger] order[i] != #[trigger] order[j]
}

/// A list of each position once lists every position.
pub proof fn lemma_permutes_covers(order: Seq<usize>, n: nat, position: int)
    requires
        permutes(order, n),
        0 <= position < n,
    ensures
        exists|i: int| 0 <= i < order.len() && #[trigger] order[i] == position,
{
    let places = Seq::new(order.len(), |i: int| order[i] as int);
    let all = set_int_range(0, n as int);
    assert forall|i: int, j: int|
        0 <= i < places.len() && 0 <= j < places.len() && i != j implies places[i] != places[j] by {
        if i < j {
            assert(order[i] != order[j]);
        } else {
            assert(order[j] != order[i]);
        }
    }
    places.unique_seq_to_set();
    lemma_int_range(0, n as int);
    assert(places.to_set().subset_of(all)) by {
        assert forall|x: int| places.to_set().contains(x) implies all.contains(x) by {
            let i = choose|i: int| 0 <= i < places.len() && places[i] == x;
            assert(order[i] < n);
        }
    }
    lemma_len_subset(places.to_set(), all);
    lemma_subset_equality(places.to_set(), all);
    assert(places.to_set().contains(position));
    let i = choose|i: int| 0 <= i < places.len() && places[i] == position;
    assert(order[i] == position);
}

/// Holds when `order` lists every position of `keys` once, smallest key first.
pub open spec fn ranks(order: Seq<usize>, keys: Seq<KeyView>) -> bool {
    &&& permutes(order, keys.len())
    &&& forall|i: int, j: int|
        0 <= i < j < order.len() ==> key_le(
            keys[#[trigger] order[i] as int],
            keys[#[trigger] order[j] as int],
        )
}

/// Keys that differ from each other are ranked in one way only.
pub proof fn law_distinct_keys_rank_in_one_way(a: Seq<usize>, b: Seq<usize>, keys: Seq<KeyView>)
    requires
        ranks(a, keys),
        ranks(b, keys),
        forall|i: int, j: int|
            0 <= i < j < keys.len() ==> #[trigger] keys[i] != #[trigger] keys[j],
    ensures
        a == b,
{
    assert forall|i: int| 0 <= i < a.len() implies a[i] == b[i] by {
        lemma_same_rank(a, b, keys, i);
    }
    assert(a =~= b);
}

proof fn lemma_same_rank(a: Seq<usize>, b: Seq<usize>, keys: Seq<KeyView>, i: int)
    requires
        ranks(a, keys),
        ranks(b, keys),
        forall|i: int, j: int|
            0 <= i < j < keys.len() ==> #[trigger] keys[i] != #[trigger] keys[j],
        0 <= i < a.len(),
    ensures
        a[i] == b[i],
    decreases i,
{
    let x = a[i] as int;
    let y = b[i] as int;
    if x != y {
        lemma_permutes_covers(a, keys.len(), y);
        lemma_permutes_covers(b, keys.len(), x);
        let p = choose|p: int| 0 <= p < a.len() && #[trigger] a[p] == y;
        let q = choose|q: int| 0 <= q < b.len() && #[trigger] b[q] == x;
        if p < i {
            lemma_same_rank(a, b, keys, p);
            assert(b[p] != b[i]);
        }
        if q < i {
            lemma_same_rank(a, b, keys, q);
            assert(a[q] != a[i]);
        }
        assert(key_le(keys[a[i] as int], keys[a[p] as int]));
        assert(key_le(keys[b[i] as int], keys[b[q] as int]));
        lemma_key_le_total(keys[x], keys[y]);
        if x < y {
            assert(keys[x] != keys[y]);
        } else {
            assert(keys[y] != keys[x]);
        }
    }
}

/// Ranks positions by their keys.
pub fn rank(keys: &Vec<Key>) -> (r: Vec<usize>)
    ensures
        ranks(r@, model::views(keys@)),
{
    let mut order: Vec<usize> = Vec::new();
    let mut n: usize = 0;
    while n < keys.len()
        invariant
            n <= keys@.len(),
            permutes(order@, n as nat),
            forall|i: int, j: int|
                0 <= i < j < order@.len() ==> key_le(
                    keys@[#[trigger] order@[i] as int]@,
                    keys@[#[trigger] order@[j] as int]@,
                ),
        decreases keys@.len() - n,
    {
        let ghost before = order@;
        let mut at: usize = order.len();
        while at > 0 && !is_key_le(&keys[order[at - 1]], &keys[n])
            invariant
                at <= order@.len(),
                n < keys@.len(),
                order@ == before,
                permutes(order@, n as nat),
                forall|k: int|
                    at <= k < order@.len() ==> !key_le(
                        keys@[#[trigger] order@[k] as int]@,
                        keys@[n as int]@,
                    ),
            decreases at,
        {
            at = at - 1;
        }
        order.insert(at, n);
        proof {
            assert(order@ == before.insert(at as int, n));
            assert forall|i: int, j: int| 0 <= i < j < order@.len() implies key_le(
                keys@[#[trigger] order@[i] as int]@,
                keys@[#[trigger] order@[j] as int]@,
            ) by {
                let bi = if i < at {
                    i
                } else {
                    i - 1
                };
                let bj = if j < at {
                    j
                } else {
                    j - 1
                };
                if i != at {
                    assert(order@[i] == before[bi]);
                }
                if j != at {
                    assert(order@[j] == before[bj]);
                }
                if j == at {
                    let last = before[at - 1];
                    if i < at - 1 {
                        lemma_key_le_trans(
                            keys@[before[i] as int]@,
                            keys@[last as int]@,
                            keys@[n as int]@,
                        );
                    }
                } else if i == at {
                    lemma_key_le_total(keys@[before[bj] as int]@, keys@[n as int]@);
                }
            }
            assert forall|i: int, j: int| 0 <= i < j < order@.len() implies #[trigger] order@[i]
                != #[trigger] order@[j] by {
                if i != at {
                    assert(order@[i] == before[if i < at {
                        i
                    } else {
                        i - 1
                    }]);
                }
                if j != at {
                    assert(order@[j] == before[if j < at {
                        j
                    } else {
                        j - 1
                    }]);
                }
            }
            assert forall|i: int| 0 <= i < order@.len() implies (#[trigger] order@[i]) < n + 1 by {
                if i != at {
                    assert(order@[i] == before[if i < at {
                        i
                    } else {
                        i - 1
                    }]);
                }
            }
        }
        n = n + 1;
    }
    proof {
        let kv = model::views(keys@);
        assert forall|i: int, j: int| 0 <= i < j < order@.len() implies key_le(
            kv[#[trigger] order@[i] as int],
            kv[#[trigger] order@[j] as int],
        ) by {
            assert(kv[order@[i] as int] == keys@[order@[i] as int]@);
            assert(kv[order@[j] as int] == keys@[order@[j] as int]@);
        }
    }
    order
}

/// The place of a 64-bit floating-point number, given by its bits, in the total
/// order of such numbers: negative ones by descending magnitude, then the others
/// by ascending magnitude.
pub open spec fn float_place(bits: u64) -> int {
    if bits < 0x8000_0000_0000_0000 {
        bits as int
    } else {
        0x7fff_ffff_ffff_ffff - bits
    }
}

/// The place of a floating-point number in the total order of such numbers.
pub fn float_key(bits: u64) -> (r: i64)
    ensures
        r == float_place(bits),
{
    (if bits < 0x8000_0000_0000_0000 {
        bits as i128
    } else {
        0x7fff_ffff_ffff_ffff - bits as i128
    }) as i64
}

/// The bits of the floating-point number at a place of the total order.
pub fn float_bits(key: i64) -> (r: u64)
    ensures
        float_place(r) == key,
{
    if key >= 0 {
        key as u64
    } else {
        (0x7fff_ffff_ffff_ffff - key as i128) as u64
    }
}

/// No two numbers have the same place.
pub proof fn law_float_places_are_distinct(a: u64, b: u64)
    requires
        float_place(a) == float_place(b),
    ensures
        a == b,
{
}

} // verus!
