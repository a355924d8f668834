//! Rows of keyed entries in the order of their keys, as an ordered map lists them.

use crate::text::chars_of;
use vstd::prelude::*;

verus! {

/// The lexicographic order of texts, by the code points of their characters.
pub open spec fn text_less(a: Seq<char>, b: Seq<char>) -> bool
    decreases a.len(),
{
    if b.len() == 0 {
        false
    } else if a.len() == 0 {
        true
    } else {
        a[0] < b[0] || (a[0] == b[0] && text_less(a.drop_first(), b.drop_first()))
    }
}

/// The entries with `value` under `key`: in the place of the entry with that key,
/// or before the first entry with a greater one.
pub open spec fn insert_ordered<V>(entries: Seq<(Seq<char>, V)>, key: Seq<char>, value: V) -> Seq<
    (Seq<char>, V),
>
    decreases entries.len(),
{
    if entries.len() == 0 {
        seq![(key, value)]
    } else if entries[0].0 == key {
        seq![(key, value)] + entries.drop_first()
    } else if text_less(key, entries[0].0) {
        seq![(key, value)] + entries
    } else {
        seq![entries[0]] + insert_ordered(entries.drop_first(), key, value)
    }
}

/// Whether the keys of the entries rise strictly.
pub open spec fn ordered<V>(entries: Seq<(Seq<char>, V)>) -> bool {
    forall|i: int, j: int|
        0 <= i < j < entries.len() ==> text_less(#[trigger] entries[i].0, #[trigger] entries[j].0)
}

/// Whether the first text comes before the second.
pub fn less(a: &str, b: &str) -> (r: bool)
    ensures
        r == text_less(a@, b@),
{
    let v = chars_of(a);
    let w = chars_of(b);
    let mut i: usize = 0;
    assert(v@.skip(0) == v@);
    assert(w@.skip(0) == w@);
    while i < v.len() && i < w.len()
        invariant
            i <= v@.len(),
            i <= w@.len(),
            v@ == a@,
            w@ == b@,
            text_less(a@, b@) == text_less(v@.skip(i as int), w@.skip(i as int)),
        decreases v@.len() - i,
    {
        let ghost x = v@.skip(i as int);
        let ghost y = w@.skip(i as int);
        assert(x[0] == v@[i as int] && y[0] == w@[i as int]);
        if v[i] < w[i] {
            return true;
        }
        if v[i] != w[i] {
            return false;
        }
        assert(x.drop_first() == v@.skip(i + 1));
        assert(y.drop_first() == w@.skip(i + 1));
        i += 1;
    }
    i < w.len()
}

/// No text comes before itself.
pub proof fn less_irreflexive(a: Seq<char>)
    ensures
        !text_less(a, a),
    decreases a.len(),
{
    if a.len() > 0 {
        less_irreflexive(a.drop_first());
    }
}

/// What comes before a text comes before all that the text comes before.
pub proof fn less_transitive(a: Seq<char>, b: Seq<char>, c: Seq<char>)
    requires
        text_less(a, b),
        text_less(b, c),
    ensures
        text_less(a, c),
    decreases a.len(),
{
    if a.len() > 0 && a[0] == b[0] && b[0] == c[0] {
        less_transitive(a.drop_first(), b.drop_first(), c.drop_first());
    }
}

/// Of two different texts one comes before the other.
pub proof fn less_total(a: Seq<char>, b: Seq<char>)
    requires
        a != b,
    ensures
        text_less(a, b) || text_less(b, a),
    decreases a.len(),
{
    if a.len() == 0 {
        assert(b.len() > 0) by {
            if b.len() == 0 {
                assert(a =~= b);
            }
        }
    } else if b.len() > 0 && a[0] == b[0] {
        if a.drop_first() == b.drop_first() {
            assert(a =~= seq![a[0]] + a.drop_first());
            assert(b =~= seq![b[0]] + b.drop_first());
        }
        less_total(a.drop_first(), b.drop_first());
    }
}

/// The entries before the place of insertion stay where they are.
pub proof fn insert_after<V>(entries: Seq<(Seq<char>, V)>, key: Seq<char>, value: V, p: int)
    requires
        0 <= p <= entries.len(),
        forall|i: int|
            0 <= i < p ==> (#[trigger] entries[i]).0 != key && !text_less(key, entries[i].0),
    ensures
        insert_ordered(entries, key, value) == entries.take(p) + insert_ordered(
            entries.skip(p),
            key,
            value,
        ),
    decreases p,
{
    if p == 0 {
        assert(entries.skip(0) == entries);
        assert(entries.take(0) + insert_ordered(entries, key, value) =~= insert_ordered(
            entries,
            key,
            value,
        ));
    } else {
        let rest = entries.drop_first();
        assert forall|i: int| 0 <= i < p - 1 implies (#[trigger] rest[i]).0 != key && !text_less(
            key,
            rest[i].0,
        ) by {
            assert(rest[i] == entries[i + 1]);
        }
        insert_after(rest, key, value, p - 1);
        assert(entries[0].0 != key);
        assert(rest.skip(p - 1) == entries.skip(p));
        assert(seq![entries[0]] + rest.take(p - 1) =~= entries.take(p));
        assert(seq![entries[0]] + (rest.take(p - 1) + insert_ordered(entries.skip(p), key, value))
            =~= entries.take(p) + insert_ordered(entries.skip(p), key, value));
    }
}

/// What stands under a key.
pub open spec fn looked_up<V>(entries: Seq<(Seq<char>, V)>, key: Seq<char>) -> Option<V>
    decreases entries.len(),
{
    if entries.len() == 0 {
        None
    } else if entries[0].0 == key {
        Some(entries[0].1)
    } else {
        looked_up(entries.drop_first(), key)
    }
}

/// After an insertion the new value stands under its key, and every other key has
/// what it had.
pub proof fn insert_then_look_up<V>(
    entries: Seq<(Seq<char>, V)>,
    key: Seq<char>,
    value: V,
    other: Seq<char>,
)
    ensures
        looked_up(insert_ordered(entries, key, value), other) == if other == key {
            Some(value)
        } else {
            looked_up(entries, other)
        },
    decreases entries.len(),
{
    let one = seq![(key, value)];
    if entries.len() == 0 {
        assert(one.drop_first() =~= entries);
        reveal_with_fuel(looked_up, 2);
    } else if entries[0].0 == key {
        assert((one + entries.drop_first()).drop_first() =~= entries.drop_first());
    } else if text_less(key, entries[0].0) {
        assert((one + entries).drop_first() =~= entries);
    } else {
        let rest = insert_ordered(entries.drop_first(), key, value);
        assert((seq![entries[0]] + rest).drop_first() =~= rest);
        insert_then_look_up(entries.drop_first(), key, value, other);
    }
}

/// An insertion keeps the keys in strict order.
pub proof fn insert_keeps_order<V>(entries: Seq<(Seq<char>, V)>, key: Seq<char>, value: V)
    requires
        ordered(entries),
    ensures
        ordered(insert_ordered(entries, key, value)),
        forall|i: int|
            0 <= i < insert_ordered(entries, key, value).len() ==> {
                let k = (#[trigger] insert_ordered(entries, key, value)[i]).0;
                k == key || exists|j: int| 0 <= j < entries.len() && (#[trigger] entries[j]).0 == k
            },
    decreases entries.len(),
{
    let out = insert_ordered(entries, key, value);
    if entries.len() == 0 {
    } else if entries[0].0 == key {
        assert(out.len() == entries.len());
        assert(forall|i: int| 0 <= i < out.len() ==> (#[trigger] out[i]).0 == entries[i].0);
    } else if text_less(key, entries[0].0) {
        assert(forall|i: int| 0 < i < out.len() ==> #[trigger] out[i] == entries[i - 1]);
        assert forall|i: int, j: int| 0 <= i < j < out.len() implies text_less(
            #[trigger] out[i].0,
            #[trigger] out[j].0,
        ) by {
            assert(out[j] == entries[j - 1]);
            if i == 0 {
                if j > 1 {
                    assert(text_less(entries[0].0, entries[j - 1].0));
                    less_transitive(key, entries[0].0, entries[j - 1].0);
                }
            } else {
                assert(out[i] == entries[i - 1]);
            }
        }
    } else {
        less_total(key, entries[0].0);
        let rest = entries.drop_first();
        assert(forall|i: int| 0 <= i < rest.len() ==> #[trigger] rest[i] == entries[i + 1]);
        insert_keeps_order(rest, key, value);
        let tail = insert_ordered(rest, key, value);
        assert(forall|i: int| 0 < i < out.len() ==> #[trigger] out[i] == tail[i - 1]);
        assert forall|i: int, j: int| 0 <= i < j < out.len() implies text_less(
            #[trigger] out[i].0,
            #[trigger] out[j].0,
        ) by {
            assert(out[j] == tail[j - 1]);
            if i == 0 {
                let k = tail[j - 1].0;
                if k != key {
                    let m = choose|m: int| 0 <= m < rest.len() && (#[trigger] rest[m]).0 == k;
                    assert(rest[m] == entries[m + 1]);
                }
            } else {
                assert(out[i] == tail[i - 1]);
            }
        }
        assert forall|i: int| 0 <= i < out.len() implies {
            let k = (#[trigger] out[i]).0;
            k == key || exists|j: int| 0 <= j < entries.len() && (#[trigger] entries[j]).0 == k
        } by {
            if i > 0 {
                let k = tail[i - 1].0;
                if k != key {
                    let m = choose|m: int| 0 <= m < rest.len() && (#[trigger] rest[m]).0 == k;
                    assert(rest[m] == entries[m + 1]);
                }
            }
        }
    }
}

/// A key that is new makes the row one longer.
pub proof fn insert_new_key<V>(entries: Seq<(Seq<char>, V)>, key: Seq<char>, value: V)
    requires
        looked_up(entries, key) is None,
    ensures
        insert_ordered(entries, key, value).len() == entries.len() + 1,
    decreases entries.len(),
{
    if entries.len() > 0 && !text_less(key, entries[0].0) {
        insert_new_key(entries.drop_first(), key, value);
    }
}

proof fn lemma_not_before_first<V>(entries: Seq<(Seq<char>, V)>, key: Seq<char>)
    requires
        ordered(entries),
        entries.len() == 0 || text_less(key, entries[0].0),
    ensures
        looked_up(entries, key) is None,
    decreases entries.len(),
{
    if entries.len() > 0 {
        less_irreflexive(key);
        let rest = entries.drop_first();
        assert(forall|i: int| 0 <= i < rest.len() ==> #[trigger] rest[i] == entries[i + 1]);
        if rest.len() > 0 {
            assert(text_less(entries[0].0, entries[1].0));
            less_transitive(key, entries[0].0, rest[0].0);
        }
        lemma_not_before_first(rest, key);
    }
}

/// Two rows in order that have the same under every key are the same row.
pub proof fn ordered_rows_agree<V>(a: Seq<(Seq<char>, V)>, b: Seq<(Seq<char>, V)>)
    requires
        ordered(a),
        ordered(b),
        forall|key: Seq<char>| #[trigger] looked_up(a, key) == looked_up(b, key),
    ensures
        a == b,
    decreases a.len(),
{
    if a.len() == 0 {
        if b.len() > 0 {
            assert(looked_up(a, b[0].0) == looked_up(b, b[0].0));
        }
        assert(a =~= b);
    } else {
        let x = a[0].0;
        assert(looked_up(a, x) == looked_up(b, x));
        assert(b.len() > 0);
        let y = b[0].0;
        assert(looked_up(a, y) == looked_up(b, y));
        if x != y {
            less_total(x, y);
            if text_less(x, y) {
                lemma_not_before_first(b, x);
            } else {
                lemma_not_before_first(a, y);
            }
        }
        let p = a.drop_first();
        let q = b.drop_first();
        assert(forall|i: int| 0 <= i < p.len() ==> #[trigger] p[i] == a[i + 1]);
        assert(forall|i: int| 0 <= i < q.len() ==> #[trigger] q[i] == b[i + 1]);
        if p.len() > 0 {
            assert(text_less(a[0].0, a[1].0));
        }
        if q.len() > 0 {
            assert(text_less(b[0].0, b[1].0));
        }
        lemma_not_before_first(p, x);
        lemma_not_before_first(q, x);
        assert forall|key: Seq<char>| #[trigger] looked_up(p, key) == looked_up(q, key) by {
            assert(looked_up(a, key) == looked_up(b, key));
        }
        ordered_rows_agree(p, q);
        assert(a =~= seq![a[0]] + p);
        assert(b =~= seq![b[0]] + q);
    }
}

} // verus!
