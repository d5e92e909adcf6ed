//! Sorting by name, stable: items of one name keep their order.

use vstd::prelude::*;
use vstd::multiset::Multiset;
use vstd::seq_lib::{to_multiset_build, to_multiset_insert, to_multiset_remove};
use crate::names::{
    bytes_le, lemma_bytes_le_antisymmetric, lemma_bytes_le_reflexive, lemma_bytes_le_total,
    lemma_bytes_le_transitive, name_bytes, name_no_later,
};

verus! {

/// Something that has a name to be sorted by.
pub trait Named {
    /// The name.
    spec fn name_spec(&self) -> Seq<char>;

    /// The name.
    fn name(&self) -> (name: &str)
        ensures
            name@ == self.name_spec(),
    ;
}

/// The key of a named thing: the bytes of its name.
pub open spec fn by_name<T: Named>() -> spec_fn(T) -> Seq<u8> {
    |t: T| name_bytes(t.name_spec())
}

/// The keys of `s` never step down.
pub open spec fn sorted<T>(s: Seq<T>, key: spec_fn(T) -> Seq<u8>) -> bool {
    forall|i: int, j: int|
        0 <= i < j < s.len() ==> bytes_le(#[trigger] key(s[i]), #[trigger] key(s[j]))
}

/// The place that `x` takes in `s`: behind the last item whose key comes no
/// later than its own, and so behind every item with its own key.
pub open spec fn slot<T>(s: Seq<T>, x: T, key: spec_fn(T) -> Seq<u8>) -> int
    decreases s.len(),
{
    if s.len() == 0 {
        0
    } else if bytes_le(key(s.last()), key(x)) {
        s.len() as int
    } else {
        slot(s.drop_last(), x, key)
    }
}

/// `s` with `x` in its place.
pub open spec fn place<T>(s: Seq<T>, x: T, key: spec_fn(T) -> Seq<u8>) -> Seq<T> {
    s.insert(slot(s, x, key), x)
}

/// `s` sorted: its items put in their places one after the other, in the
/// order in which `s` holds them.
pub open spec fn stable_sort<T>(s: Seq<T>, key: spec_fn(T) -> Seq<u8>) -> Seq<T>
    decreases s.len(),
{
    if s.len() == 0 {
        Seq::empty()
    } else {
        place(stable_sort(s.drop_last(), key), s.last(), key)
    }
}

/// The place of `x` lies in `s` or at its end; every item from there on has a
/// later key than `x`, and the item before it has none.
pub proof fn lemma_slot<T>(s: Seq<T>, x: T, key: spec_fn(T) -> Seq<u8>)
    ensures
        0 <= slot(s, x, key) <= s.len(),
        forall|m: int| slot(s, x, key) <= m < s.len() ==> !bytes_le(#[trigger] key(s[m]), key(x)),
        slot(s, x, key) > 0 ==> bytes_le(key(s[slot(s, x, key) - 1]), key(x)),
    decreases s.len(),
{
    if s.len() > 0 && !bytes_le(key(s.last()), key(x)) {
        lemma_slot(s.drop_last(), x, key);
        let front = s.drop_last();
        assert forall|m: int| slot(s, x, key) <= m < s.len() implies !bytes_le(
            #[trigger] key(s[m]),
            key(x),
        ) by {
            if m < front.len() {
                assert(front[m] == s[m]);
            }
        }
        if slot(s, x, key) > 0 {
            assert(front[slot(s, x, key) - 1] == s[slot(s, x, key) - 1]);
        }
    }
}

/// A place with the two properties of `lemma_slot` is the place of `x`.
pub proof fn lemma_slot_is<T>(s: Seq<T>, x: T, key: spec_fn(T) -> Seq<u8>, j: int)
    requires
        0 <= j <= s.len(),
        forall|m: int| j <= m < s.len() ==> !bytes_le(#[trigger] key(s[m]), key(x)),
        j > 0 ==> bytes_le(key(s[j - 1]), key(x)),
    ensures
        slot(s, x, key) == j,
    decreases s.len(),
{
    if s.len() > 0 {
        if bytes_le(key(s.last()), key(x)) {
            if j < s.len() {
                assert(!bytes_le(key(s[s.len() - 1]), key(x)));
            }
        } else {
            let front = s.drop_last();
            assert forall|m: int| j <= m < front.len() implies !bytes_le(
                #[trigger] key(front[m]),
                key(x),
            ) by {
                assert(front[m] == s[m]);
            }
            if j > 0 {
                assert(front[j - 1] == s[j - 1]);
            }
            lemma_slot_is(front, x, key, j);
        }
    }
}

/// Putting an item in its place keeps a sorted sequence sorted.
pub proof fn lemma_place_sorted<T>(s: Seq<T>, x: T, key: spec_fn(T) -> Seq<u8>)
    requires
        sorted(s, key),
    ensures
        sorted(place(s, x, key), key),
{
    lemma_slot(s, x, key);
    let j = slot(s, x, key);
    let r = place(s, x, key);
    assert forall|a: int, b: int| 0 <= a < b < r.len() implies bytes_le(
        #[trigger] key(r[a]),
        #[trigger] key(r[b]),
    ) by {
        if a == j {
            assert(r[b] == s[b - 1]);
            assert(!bytes_le(key(s[b - 1]), key(x)));
            lemma_bytes_le_total(key(s[b - 1]), key(x));
        } else if b == j {
            assert(r[a] == s[a]);
            if a < j - 1 {
                assert(bytes_le(key(s[a]), key(s[j - 1])));
            } else {
                lemma_bytes_le_reflexive(key(s[a]));
            }
            lemma_bytes_le_transitive(key(s[a]), key(s[j - 1]), key(x));
        } else {
            let a0 = if a < j { a } else { a - 1 };
            let b0 = if b < j { b } else { b - 1 };
            assert(r[a] == s[a0]);
            assert(r[b] == s[b0]);
            assert(bytes_le(key(s[a0]), key(s[b0])));
        }
    }
}

/// A sorted sequence has as many items as the sequence it was made of.
pub proof fn lemma_sort_len<T>(s: Seq<T>, key: spec_fn(T) -> Seq<u8>)
    ensures
        stable_sort(s, key).len() == s.len(),
    decreases s.len(),
{
    if s.len() > 0 {
        lemma_sort_len(s.drop_last(), key);
        lemma_slot(stable_sort(s.drop_last(), key), s.last(), key);
    }
}

/// Sorting sorts.
pub proof fn lemma_sort_sorted<T>(s: Seq<T>, key: spec_fn(T) -> Seq<u8>)
    ensures
        sorted(stable_sort(s, key), key),
    decreases s.len(),
{
    if s.len() > 0 {
        lemma_sort_sorted(s.drop_last(), key);
        lemma_place_sorted(stable_sort(s.drop_last(), key), s.last(), key);
    }
}

/// Sorting neither adds an item nor loses one: each item is in the sorted
/// sequence as often as it was in the sequence.
pub proof fn lemma_sort_permutes<T>(s: Seq<T>, key: spec_fn(T) -> Seq<u8>)
    ensures
        stable_sort(s, key).to_multiset() == s.to_multiset(),
    decreases s.len(),
{
    if s.len() > 0 {
        let front = s.drop_last();
        lemma_sort_permutes(front, key);
        lemma_slot(stable_sort(front, key), s.last(), key);
        to_multiset_insert(stable_sort(front, key), slot(stable_sort(front, key), s.last(), key), s.last());
        to_multiset_build(front, s.last());
        assert(front.push(s.last()) =~= s);
    } else {
        assert(stable_sort(s, key) =~= s);
    }
}

/// Items of one key are one item: whatever two items of `m` have the same key
/// are the same item.
pub open spec fn key_decides<T>(m: Multiset<T>, key: spec_fn(T) -> Seq<u8>) -> bool {
    forall|a: T, b: T|
        m.contains(a) && m.contains(b) && #[trigger] key(a) == #[trigger] key(b) ==> a == b
}

/// Two sorted sequences of the same items are the same sequence, where items
/// of one key are one item.
pub proof fn lemma_sorted_is_unique<T>(x: Seq<T>, y: Seq<T>, key: spec_fn(T) -> Seq<u8>)
    requires
        sorted(x, key),
        sorted(y, key),
        x.to_multiset() == y.to_multiset(),
        key_decides(x.to_multiset(), key),
    ensures
        x == y,
    decreases x.len(),
{
    broadcast use vstd::multiset::group_multiset_axioms;

    x.to_multiset_ensures();
    y.to_multiset_ensures();
    assert(x.len() == y.len());
    if x.len() > 0 {
        assert(y.contains(y[0]));
        assert(x.contains(x[0]));
        assert(x.to_multiset().contains(y[0]));
        assert(y.to_multiset().contains(x[0]));
        let i = choose|i: int| 0 <= i < x.len() && x[i] == y[0];
        let j = choose|j: int| 0 <= j < y.len() && y[j] == x[0];
        if i > 0 {
            assert(bytes_le(key(x[0]), key(x[i])));
        } else {
            lemma_bytes_le_reflexive(key(x[0]));
        }
        if j > 0 {
            assert(bytes_le(key(y[0]), key(y[j])));
        } else {
            lemma_bytes_le_reflexive(key(y[0]));
        }
        lemma_bytes_le_antisymmetric(key(x[0]), key(y[0]));
        assert(x[0] == y[0]);
        let xr = x.drop_first();
        let yr = y.drop_first();
        to_multiset_remove(x, 0);
        to_multiset_remove(y, 0);
        assert(x.remove(0) =~= xr);
        assert(y.remove(0) =~= yr);
        assert(xr.to_multiset() == yr.to_multiset());
        assert(key_decides(xr.to_multiset(), key)) by {
            assert forall|a: T, b: T|
                xr.to_multiset().contains(a) && xr.to_multiset().contains(b) && #[trigger] key(a)
                    == #[trigger] key(b) implies a == b by {
                assert(x.to_multiset().contains(a));
                assert(x.to_multiset().contains(b));
            }
        }
        assert(sorted(xr, key)) by {
            assert forall|a: int, b: int| 0 <= a < b < xr.len() implies bytes_le(
                #[trigger] key(xr[a]),
                #[trigger] key(xr[b]),
            ) by {
                assert(xr[a] == x[a + 1] && xr[b] == x[b + 1]);
                assert(bytes_le(key(x[a + 1]), key(x[b + 1])));
            }
        }
        assert(sorted(yr, key)) by {
            assert forall|a: int, b: int| 0 <= a < b < yr.len() implies bytes_le(
                #[trigger] key(yr[a]),
                #[trigger] key(yr[b]),
            ) by {
                assert(yr[a] == y[a + 1] && yr[b] == y[b + 1]);
                assert(bytes_le(key(y[a + 1]), key(y[b + 1])));
            }
        }
        lemma_sorted_is_unique(xr, yr, key);
        assert(x =~= seq![x[0]] + xr);
        assert(y =~= seq![y[0]] + yr);
    } else {
        assert(x =~= y);
    }
}

/// The order in which items come does not show once they are sorted, where
/// items of one key are one item: two sequences of the same items sort to the
/// same sequence.
pub proof fn lemma_sort_forgets_order<T>(a: Seq<T>, b: Seq<T>, key: spec_fn(T) -> Seq<u8>)
    requires
        a.to_multiset() == b.to_multiset(),
        key_decides(a.to_multiset(), key),
    ensures
        stable_sort(a, key) == stable_sort(b, key),
{
    lemma_sort_sorted(a, key);
    lemma_sort_sorted(b, key);
    lemma_sort_permutes(a, key);
    lemma_sort_permutes(b, key);
    lemma_sorted_is_unique(stable_sort(a, key), stable_sort(b, key), key);
}

/// A sorted sequence stays as it is when it is sorted.
pub proof fn lemma_sort_keeps_sorted<T>(s: Seq<T>, key: spec_fn(T) -> Seq<u8>)
    requires
        sorted(s, key),
    ensures
        stable_sort(s, key) == s,
    decreases s.len(),
{
    if s.len() > 0 {
        let front = s.drop_last();
        assert(sorted(front, key)) by {
            assert forall|a: int, b: int| 0 <= a < b < front.len() implies bytes_le(
                #[trigger] key(front[a]),
                #[trigger] key(front[b]),
            ) by {
                assert(front[a] == s[a] && front[b] == s[b]);
                assert(bytes_le(key(s[a]), key(s[b])));
            }
        }
        lemma_sort_keeps_sorted(front, key);
        if front.len() > 0 {
            assert(front.last() == s[s.len() - 2]);
            assert(bytes_le(key(s[s.len() - 2]), key(s[s.len() - 1])));
        }
        assert(slot(front, s.last(), key) == front.len());
        assert(front.insert(front.len() as int, s.last()) =~= s);
    } else {
        assert(stable_sort(s, key) =~= s);
    }
}

/// Sorting goes through a change of representation that keeps the keys: to
/// sort what `f` makes of the items is to apply `f` to the sorted items.
pub proof fn lemma_sort_maps<T, V>(
    s: Seq<T>,
    f: spec_fn(T) -> V,
    key: spec_fn(T) -> Seq<u8>,
    key_of_image: spec_fn(V) -> Seq<u8>,
)
    requires
        forall|t: T| #[trigger] key_of_image(f(t)) == key(t),
    ensures
        stable_sort(s.map_values(f), key_of_image) == stable_sort(s, key).map_values(f),
    decreases s.len(),
{
    let image = s.map_values(f);
    if s.len() > 0 {
        let front = s.drop_last();
        lemma_sort_maps(front, f, key, key_of_image);
        assert(image.drop_last() =~= front.map_values(f));
        assert(image.last() == f(s.last()));
        let sorted_front = stable_sort(front, key);
        lemma_slot_maps(sorted_front, s.last(), f, key, key_of_image);
        lemma_slot(sorted_front, s.last(), key);
        assert(sorted_front.map_values(f).insert(slot(sorted_front, s.last(), key), f(s.last()))
            =~= sorted_front.insert(slot(sorted_front, s.last(), key), s.last()).map_values(f));
    } else {
        assert(stable_sort(image, key_of_image) =~= stable_sort(s, key).map_values(f));
    }
}

/// The place of an item goes through a change of representation that keeps
/// the keys.
pub proof fn lemma_slot_maps<T, V>(
    s: Seq<T>,
    x: T,
    f: spec_fn(T) -> V,
    key: spec_fn(T) -> Seq<u8>,
    key_of_image: spec_fn(V) -> Seq<u8>,
)
    requires
        forall|t: T| #[trigger] key_of_image(f(t)) == key(t),
    ensures
        slot(s.map_values(f), f(x), key_of_image) == slot(s, x, key),
    decreases s.len(),
{
    if s.len() > 0 {
        assert(s.map_values(f).last() == f(s.last()));
        assert(s.map_values(f).drop_last() =~= s.drop_last().map_values(f));
        lemma_slot_maps(s.drop_last(), x, f, key, key_of_image);
    }
}

/// A change of representation keeps two sequences of the same items at the
/// same items.
pub proof fn lemma_map_keeps_items<T, V>(a: Seq<T>, b: Seq<T>, f: spec_fn(T) -> V)
    requires
        a.to_multiset() == b.to_multiset(),
    ensures
        a.map_values(f).to_multiset() == b.map_values(f).to_multiset(),
    decreases a.len(),
{
    broadcast use vstd::multiset::group_multiset_axioms;

    a.to_multiset_ensures();
    b.to_multiset_ensures();
    assert(a.len() == b.len());
    if a.len() > 0 {
        let x = a.last();
        assert(a[a.len() - 1] == x);
        assert(a.contains(x));
        assert(b.to_multiset().contains(x));
        let i = choose|i: int| 0 <= i < b.len() && b[i] == x;
        let front = a.drop_last();
        let rest = b.remove(i);
        to_multiset_remove(a, a.len() - 1);
        to_multiset_remove(b, i);
        assert(a.remove(a.len() - 1) =~= front);
        lemma_map_keeps_items(front, rest, f);
        let image_a = a.map_values(f);
        let image_b = b.map_values(f);
        to_multiset_remove(image_a, a.len() - 1);
        to_multiset_remove(image_b, i);
        assert(image_a.remove(a.len() - 1) =~= front.map_values(f));
        assert(image_b.remove(i) =~= rest.map_values(f));
        image_a.to_multiset_ensures();
        image_b.to_multiset_ensures();
        assert(image_a[a.len() - 1] == f(x));
        assert(image_b[i] == f(x));
        assert(image_a.contains(f(x)));
        assert(image_b.contains(f(x)));
        assert(image_a.to_multiset() =~= image_a.to_multiset().remove(f(x)).insert(f(x)));
        assert(image_b.to_multiset() =~= image_b.to_multiset().remove(f(x)).insert(f(x)));
    } else {
        assert(a.map_values(f) =~= b.map_values(f));
    }
}

/// The items whose key is `k`.
pub open spec fn keyed<T>(key: spec_fn(T) -> Seq<u8>, k: Seq<u8>) -> spec_fn(T) -> bool {
    |t: T| key(t) == k
}

/// A sequence of which no item meets `pred` filters to nothing.
pub proof fn lemma_filter_none<T>(s: Seq<T>, pred: spec_fn(T) -> bool)
    requires
        forall|i: int| 0 <= i < s.len() ==> !pred(#[trigger] s[i]),
    ensures
        s.filter(pred) == Seq::<T>::empty(),
    decreases s.len(),
{
    reveal(Seq::filter);
    if s.len() > 0 {
        let front = s.drop_last();
        assert forall|i: int| 0 <= i < front.len() implies !pred(#[trigger] front[i]) by {
            assert(front[i] == s[i]);
        }
        lemma_filter_none(front, pred);
        assert(!pred(s[s.len() - 1]));
    } else {
        assert(s.filter(pred) =~= Seq::<T>::empty());
    }
}

/// An item put in its place stands behind the items of its own key: among
/// the items of any one key the order is as if it had been put last.
pub proof fn lemma_place_keeps_order<T>(s: Seq<T>, x: T, key: spec_fn(T) -> Seq<u8>, k: Seq<u8>)
    ensures
        place(s, x, key).filter(keyed(key, k)) == s.push(x).filter(keyed(key, k)),
{
    let pred = keyed(key, k);
    lemma_slot(s, x, key);
    let j = slot(s, x, key);
    let head = s.take(j);
    let tail = s.skip(j);
    let one = seq![x];
    assert(place(s, x, key) =~= (head + one) + tail);
    assert(s.push(x) =~= (head + tail) + one);
    Seq::filter_distributes_over_add(head + one, tail, pred);
    Seq::filter_distributes_over_add(head, one, pred);
    Seq::filter_distributes_over_add(head + tail, one, pred);
    Seq::filter_distributes_over_add(head, tail, pred);
    if pred(x) {
        assert forall|i: int| 0 <= i < tail.len() implies !pred(#[trigger] tail[i]) by {
            assert(tail[i] == s[j + i]);
            assert(!bytes_le(key(s[j + i]), key(x)));
            lemma_bytes_le_reflexive(key(x));
        }
        lemma_filter_none(tail, pred);
        assert((head.filter(pred) + one.filter(pred)) + tail.filter(pred) =~= (head.filter(pred)
            + tail.filter(pred)) + one.filter(pred));
    } else {
        assert forall|i: int| 0 <= i < one.len() implies !pred(#[trigger] one[i]) by {}
        lemma_filter_none(one, pred);
        assert((head.filter(pred) + one.filter(pred)) + tail.filter(pred) =~= (head.filter(pred)
            + tail.filter(pred)) + one.filter(pred));
    }
}

/// Sorting is stable: the items of any one key stand in the sorted sequence
/// in the order in which they stood before.
pub proof fn lemma_sort_is_stable<T>(s: Seq<T>, key: spec_fn(T) -> Seq<u8>, k: Seq<u8>)
    ensures
        stable_sort(s, key).filter(keyed(key, k)) == s.filter(keyed(key, k)),
    decreases s.len(),
{
    let pred = keyed(key, k);
    if s.len() > 0 {
        let front = s.drop_last();
        let sorted_front = stable_sort(front, key);
        lemma_sort_is_stable(front, key, k);
        lemma_place_keeps_order(sorted_front, s.last(), key, k);
        Seq::filter_distributes_over_add(sorted_front, seq![s.last()], pred);
        Seq::filter_distributes_over_add(front, seq![s.last()], pred);
        assert(sorted_front.push(s.last()) =~= sorted_front + seq![s.last()]);
        assert(s =~= front + seq![s.last()]);
    } else {
        assert(stable_sort(s, key) =~= s);
    }
}

/// Sorts `v` by name. Items of one name keep their order.
pub fn sort_by_name<T: Named>(v: &mut Vec<T>)
    ensures
        final(v)@ == stable_sort(old(v)@, by_name::<T>()),
{
    let ghost key = by_name::<T>();
    let ghost start = v@;
    let mut i: usize = 0;
    proof {
        assert(start.take(0) =~= Seq::<T>::empty());
        assert(v@.take(0) =~= stable_sort(start.take(0), key));
    }
    while i < v.len()
        invariant
            i <= v@.len(),
            key == by_name::<T>(),
            v@.len() == start.len(),
            v@.take(i as int) == stable_sort(start.take(i as int), key),
            v@.skip(i as int) == start.skip(i as int),
        decreases v@.len() - i,
    {
        let ghost before = v@;
        let ghost front = before.take(i as int);
        let x: T = v.remove(i);
        proof {
            assert(x == start[i as int]) by {
                assert(before.skip(i as int)[0] == start.skip(i as int)[0]);
            }
            assert(v@.take(i as int) =~= front);
        }
        let mut j: usize = i;
        loop
            invariant
                j <= i,
                i < start.len(),
                before.len() == start.len(),
                key == by_name::<T>(),
                v@ == before.remove(i as int),
                v@.take(i as int) == front,
                forall|m: int| j <= m < i ==> !bytes_le(#[trigger] key(front[m]), key(x)),
            ensures
                j <= i,
                v@ == before.remove(i as int),
                forall|m: int| j <= m < i ==> !bytes_le(#[trigger] key(front[m]), key(x)),
                j > 0 ==> bytes_le(key(front[j - 1]), key(x)),
            decreases j,
        {
            if j == 0 {
                break;
            }
            proof {
                assert(front[j - 1] == v@[j - 1]);
            }
            if name_no_later(v[j - 1].name(), x.name()) {
                break;
            }
            j -= 1;
        }
        v.insert(j, x);
        proof {
            lemma_slot_is(front, x, key, j as int);
            assert(start.take(i + 1).drop_last() =~= start.take(i as int));
            assert(start.take(i + 1).last() == x);
            assert(v@.take(i + 1) =~= front.insert(j as int, x));
            assert(v@.skip(i + 1) =~= start.skip(i + 1)) by {
                assert forall|m: int| 0 <= m < start.len() - i - 1 implies #[trigger] v@.skip(
                    i + 1,
                )[m] == start.skip(i + 1)[m] by {
                    assert(v@.skip(i + 1)[m] == before[i + 1 + m]);
                    assert(before.skip(i as int)[m + 1] == start.skip(i as int)[m + 1]);
                }
            }
        }
        i += 1;
    }
    proof {
        assert(v@.take(i as int) =~= v@);
        assert(start.take(i as int) =~= start);
    }
}

} // verus!
