//! Ordering of texts, and a stable sort by a textual key.

use vstd::prelude::*;

verus! {

/// Lexicographic order by code point: `a` comes no later than `b`.
pub open spec fn precedes(a: Seq<char>, b: Seq<char>) -> bool
    decreases a.len(),
{
    if a.len() == 0 {
        true
    } else if b.len() == 0 {
        false
    } else if a[0] == b[0] {
        precedes(a.drop_first(), b.drop_first())
    } else {
        a[0] < b[0]
    }
}

/// Something to sort, with the text it is sorted by.
pub struct Keyed<T> {
    pub key: Vec<char>,
    pub value: T,
}

impl<T: View> View for Keyed<T> {
    type V = (Seq<char>, T::V);

    open spec fn view(&self) -> (Seq<char>, T::V) {
        (self.key@, self.value@)
    }
}

/// The keys and values of a sequence of items.
pub open spec fn keyed_views<T: View>(items: Seq<Keyed<T>>) -> Seq<(Seq<char>, T::V)> {
    Seq::new(items.len(), |i: int| items[i]@)
}

/// How many items at the start of `items` have a key that does not reach `key`.
pub open spec fn insertion_point<V>(items: Seq<(Seq<char>, V)>, key: Seq<char>) -> nat
    decreases items.len(),
{
    if items.len() == 0 || precedes(key, items[0].0) {
        0
    } else {
        1 + insertion_point(items.drop_first(), key)
    }
}

/// The items in the order of their keys; items with the same key keep their order.
pub open spec fn sorted_by_key<V>(items: Seq<(Seq<char>, V)>) -> Seq<(Seq<char>, V)>
    decreases items.len(),
{
    if items.len() == 0 {
        items
    } else {
        let rest = sorted_by_key(items.drop_first());
        rest.insert(insertion_point(rest, items[0].0) as int, items[0])
    }
}

/// The items without their keys.
pub open spec fn values<V>(items: Seq<(Seq<char>, V)>) -> Seq<V> {
    Seq::new(items.len(), |i: int| items[i].1)
}

/// Whether no item comes before one with a smaller key.
pub open spec fn is_sorted<V>(items: Seq<(Seq<char>, V)>) -> bool {
    forall|i: int, j: int|
        0 <= i <= j < items.len() ==> precedes(#[trigger] items[i].0, #[trigger] items[j].0)
}

/// The items whose key is `key`, in order.
pub open spec fn with_key<V>(items: Seq<(Seq<char>, V)>, key: Seq<char>) -> Seq<(Seq<char>, V)>
    decreases items.len(),
{
    if items.len() == 0 {
        items
    } else if items[0].0 == key {
        seq![items[0]] + with_key(items.drop_first(), key)
    } else {
        with_key(items.drop_first(), key)
    }
}

/// Every text precedes itself.
pub proof fn precedes_is_reflexive(a: Seq<char>)
    ensures
        precedes(a, a),
    decreases a.len(),
{
    if a.len() > 0 {
        precedes_is_reflexive(a.drop_first());
    }
}

/// Of two texts, one precedes the other.
pub proof fn precedes_is_total(a: Seq<char>, b: Seq<char>)
    ensures
        precedes(a, b) || precedes(b, a),
    decreases a.len(),
{
    if a.len() > 0 && b.len() > 0 && a[0] == b[0] {
        precedes_is_total(a.drop_first(), b.drop_first());
    }
}

/// Two texts that precede each other are the same.
pub proof fn precedes_is_antisymmetric(a: Seq<char>, b: Seq<char>)
    requires
        precedes(a, b),
        precedes(b, a),
    ensures
        a == b,
    decreases a.len(),
{
    if a.len() > 0 && b.len() > 0 {
        precedes_is_antisymmetric(a.drop_first(), b.drop_first());
        assert(a == seq![a[0]] + a.drop_first());
        assert(b == seq![b[0]] + b.drop_first());
    }
}

/// The order carries over from one text to the next.
pub proof fn precedes_is_transitive(a: Seq<char>, b: Seq<char>, c: Seq<char>)
    requires
        precedes(a, b),
        precedes(b, c),
    ensures
        precedes(a, c),
    decreases a.len(),
{
    if a.len() > 0 && b.len() > 0 && c.len() > 0 && a[0] == b[0] && b[0] == c[0] {
        precedes_is_transitive(a.drop_first(), b.drop_first(), c.drop_first());
    }
}

pub proof fn lemma_insertion_point<V>(items: Seq<(Seq<char>, V)>, key: Seq<char>)
    ensures
        insertion_point(items, key) <= items.len(),
        forall|i: int|
            0 <= i < insertion_point(items, key) ==> !precedes(key, #[trigger] items[i].0),
        insertion_point(items, key) < items.len() ==> precedes(
            key,
            items[insertion_point(items, key) as int].0,
        ),
    decreases items.len(),
{
    if items.len() > 0 && !precedes(key, items[0].0) {
        lemma_insertion_point(items.drop_first(), key);
        assert forall|i: int| 0 <= i < insertion_point(items, key) implies !precedes(
            key,
            #[trigger] items[i].0,
        ) by {
            if i > 0 {
                assert(items[i] == items.drop_first()[i - 1]);
            }
        }
    }
}

/// A stable sort puts the items in the order of their keys.
pub proof fn sorting_sorts<V>(items: Seq<(Seq<char>, V)>)
    ensures
        is_sorted(sorted_by_key(items)),
        sorted_by_key(items).len() == items.len(),
    decreases items.len(),
{
    if items.len() > 0 {
        let rest = sorted_by_key(items.drop_first());
        let new = items[0];
        sorting_sorts(items.drop_first());
        lemma_insertion_point(rest, new.0);
        let p = insertion_point(rest, new.0) as int;
        let all = rest.insert(p, new);
        assert forall|i: int, j: int| 0 <= i <= j < all.len() implies precedes(
            #[trigger] all[i].0,
            #[trigger] all[j].0,
        ) by {
            if i == j {
                precedes_is_reflexive(all[i].0);
            } else if i == p {
                assert(all[j] == rest[j - 1]);
                precedes_is_transitive(new.0, rest[p].0, rest[j - 1].0);
            } else if j == p {
                assert(all[i] == rest[i]);
                precedes_is_total(new.0, rest[i].0);
            } else {
                let a = if i < p { i } else { i - 1 };
                let b = if j < p { j } else { j - 1 };
                assert(all[i] == rest[a]);
                assert(all[j] == rest[b]);
            }
        }
    }
}

/// A stable sort neither adds nor drops an item.
pub proof fn sorting_keeps_the_items<V>(items: Seq<(Seq<char>, V)>)
    ensures
        sorted_by_key(items).to_multiset() == items.to_multiset(),
    decreases items.len(),
{
    broadcast use vstd::seq_lib::group_to_multiset_ensures;

    if items.len() > 0 {
        let rest = sorted_by_key(items.drop_first());
        sorting_keeps_the_items(items.drop_first());
        lemma_insertion_point(rest, items[0].0);
        assert(items.drop_first().insert(0, items[0]) == items);
    }
}

/// A stable sort neither adds nor drops a value.
pub proof fn sorting_keeps_the_values<V>(items: Seq<(Seq<char>, V)>)
    ensures
        values(sorted_by_key(items)).to_multiset() == values(items).to_multiset(),
    decreases items.len(),
{
    broadcast use vstd::seq_lib::group_to_multiset_ensures;

    if items.len() > 0 {
        let rest = sorted_by_key(items.drop_first());
        sorting_keeps_the_values(items.drop_first());
        lemma_insertion_point(rest, items[0].0);
        let p = insertion_point(rest, items[0].0) as int;
        assert(values(rest.insert(p, items[0])) == values(rest).insert(p, items[0].1));
        assert(values(items.drop_first()).insert(0, items[0].1) == values(items));
    } else {
        assert(values(sorted_by_key(items)) == values(items));
    }
}

/// What is sorted is what was given.
pub proof fn lemma_sorted_contains<V>(items: Seq<(Seq<char>, V)>, item: (Seq<char>, V))
    ensures
        sorted_by_key(items).contains(item) <==> items.contains(item),
{
    broadcast use vstd::seq_lib::group_to_multiset_ensures;

    sorting_keeps_the_items(items);
    assert(sorted_by_key(items).contains(item) <==> sorted_by_key(items).to_multiset().count(item)
        > 0);
    assert(items.contains(item) <==> items.to_multiset().count(item) > 0);
}

/// Items with the same key keep their order.
pub proof fn sorting_is_stable<V>(items: Seq<(Seq<char>, V)>, key: Seq<char>)
    ensures
        with_key(sorted_by_key(items), key) == with_key(items, key),
    decreases items.len(),
{
    if items.len() > 0 {
        let rest = sorted_by_key(items.drop_first());
        let new = items[0];
        sorting_is_stable(items.drop_first(), key);
        lemma_insertion_point(rest, new.0);
        let p = insertion_point(rest, new.0) as int;
        let all = rest.insert(p, new);
        let front = rest.take(p);
        let back = rest.skip(p);
        assert(rest == front + back);
        assert(all == front + (seq![new] + back));
        lemma_with_key_add(front, back, key);
        lemma_with_key_add(front, seq![new] + back, key);
        assert((seq![new] + back).drop_first() == back);
        if new.0 == key {
            assert forall|i: int| 0 <= i < front.len() implies (#[trigger] front[i]).0 != key by {
                precedes_is_reflexive(key);
                assert(front[i] == rest[i]);
            }
            lemma_with_key_none(front, key);
            assert(with_key(all, key) == seq![new] + with_key(back, key));
            assert(with_key(rest, key) == with_key(back, key));
        }
    }
}

proof fn lemma_with_key_add<V>(s: Seq<(Seq<char>, V)>, t: Seq<(Seq<char>, V)>, key: Seq<char>)
    ensures
        with_key(s + t, key) == with_key(s, key) + with_key(t, key),
    decreases s.len(),
{
    if s.len() == 0 {
        assert(s + t == t);
        assert(with_key(s, key) + with_key(t, key) == with_key(t, key));
    } else {
        assert((s + t).drop_first() == s.drop_first() + t);
        lemma_with_key_add(s.drop_first(), t, key);
        assert(with_key(s + t, key) == with_key(s, key) + with_key(t, key));
    }
}

proof fn lemma_with_key_none<V>(s: Seq<(Seq<char>, V)>, key: Seq<char>)
    requires
        forall|i: int| 0 <= i < s.len() ==> (#[trigger] s[i]).0 != key,
    ensures
        with_key(s, key).len() == 0,
    decreases s.len(),
{
    if s.len() > 0 {
        assert forall|i: int| 0 <= i < s.drop_first().len() implies (#[trigger] s.drop_first()[i]).0
            != key by {
            assert(s.drop_first()[i] == s[i + 1]);
        }
        lemma_with_key_none(s.drop_first(), key);
    }
}

/// Whether `a` comes no later than `b`.
pub fn precedes_chars(a: &[char], b: &[char]) -> (yes: bool)
    ensures
        yes == precedes(a@, b@),
{
    let mut i: usize = 0;
    proof {
        assert(a@.skip(0) == a@);
        assert(b@.skip(0) == b@);
    }
    while i < a.len() && i < b.len() && a[i] == b[i]
        invariant
            i <= a@.len(),
            i <= b@.len(),
            precedes(a@, b@) == precedes(a@.skip(i as int), b@.skip(i as int)),
        decreases a@.len() - i,
    {
        proof {
            assert(a@.skip(i as int).drop_first() == a@.skip(i + 1));
            assert(b@.skip(i as int).drop_first() == b@.skip(i + 1));
        }
        i = i + 1;
    }
    if i == a.len() {
        true
    } else if i == b.len() {
        false
    } else {
        a[i] < b[i]
    }
}

/// How many items at the start of sorted `items` have a key that does not reach `key`.
fn find_insertion_point<T: View>(items: &Vec<Keyed<T>>, key: &[char]) -> (p: usize)
    requires
        is_sorted(keyed_views(items@)),
    ensures
        p == insertion_point(keyed_views(items@), key@),
        p <= items@.len(),
{
    let ghost views = keyed_views(items@);
    let mut low: usize = 0;
    let mut high: usize = items.len();
    while low < high
        invariant
            views == keyed_views(items@),
            is_sorted(views),
            low <= high <= items@.len(),
            forall|i: int| 0 <= i < low ==> !precedes(key@, #[trigger] views[i].0),
            forall|i: int| high <= i < views.len() ==> precedes(key@, #[trigger] views[i].0),
        decreases high - low,
    {
        let middle = low + (high - low) / 2;
        let reached = precedes_chars(key, items[middle].key.as_slice());
        proof {
            assert(views[middle as int].0 == items@[middle as int].key@);
            if reached {
                assert forall|i: int| middle <= i < views.len() implies precedes(
                    key@,
                    #[trigger] views[i].0,
                ) by {
                    precedes_is_transitive(key@, views[middle as int].0, views[i].0);
                }
            } else {
                assert forall|i: int| 0 <= i < middle + 1 implies !precedes(
                    key@,
                    #[trigger] views[i].0,
                ) by {
                    if precedes(key@, views[i].0) {
                        precedes_is_transitive(key@, views[i].0, views[middle as int].0);
                    }
                }
            }
        }
        if reached {
            high = middle;
        } else {
            low = middle + 1;
        }
    }
    proof {
        lemma_insertion_point(views, key@);
        let p = insertion_point(views, key@) as int;
        if p < low {
            assert(!precedes(key@, views[p].0));
        }
        if low < p {
            assert(!precedes(key@, views[low as int].0));
        }
    }
    low
}

/// Sorts by key; items with the same key keep their order.
pub fn sort_by_key<T: View>(items: Vec<Keyed<T>>) -> (sorted: Vec<Keyed<T>>)
    ensures
        keyed_views(sorted@) == sorted_by_key(keyed_views(items@)),
{
    let ghost views = keyed_views(items@);
    let mut left = items;
    let mut sorted: Vec<Keyed<T>> = Vec::new();
    proof {
        assert(keyed_views(sorted@) == sorted_by_key(views.skip(views.len() as int)));
    }
    loop
        invariant
            views == keyed_views(items@),
            left@.len() <= views.len(),
            keyed_views(left@) == views.take(left@.len() as int),
            keyed_views(sorted@) == sorted_by_key(views.skip(left@.len() as int)),
        decreases left@.len(),
    {
        let ghost n = left@.len() as int;
        let ghost pending = left@;
        match left.pop() {
            None => {
                proof {
                    assert(views.skip(0) == views);
                }
                return sorted;
            },
            Some(item) => {
                let ghost before = keyed_views(sorted@);
                let ghost view = item@;
                proof {
                    assert(views.skip(n - 1).drop_first() == views.skip(n));
                    assert(keyed_views(pending)[n - 1] == view);
                    assert(views.skip(n - 1)[0] == view);
                    sorting_sorts(views.skip(n));
                }
                let p = find_insertion_point(&sorted, item.key.as_slice());
                sorted.insert(p, item);
                proof {
                    assert(keyed_views(sorted@) == before.insert(p as int, view));
                    assert(keyed_views(left@) == views.take(n - 1));
                }
            },
        }
    }
}

/// Where two texts first differ, the smaller code point decides; a text precedes all that it
/// starts.
pub proof fn the_first_difference_decides(
    common: Seq<char>,
    a: char,
    a_rest: Seq<char>,
    b: char,
    b_rest: Seq<char>,
)
    requires
        a as int != b as int,
    ensures
        precedes(common.push(a) + a_rest, common.push(b) + b_rest) <==> (a as int) < (b as int),
        precedes(common, common + a_rest),
    decreases common.len(),
{
    let left = common.push(a) + a_rest;
    let right = common.push(b) + b_rest;
    if common.len() > 0 {
        let rest = common.drop_first();
        assert(left.drop_first() == rest.push(a) + a_rest);
        assert(right.drop_first() == rest.push(b) + b_rest);
        assert((common + a_rest).drop_first() == rest + a_rest);
        the_first_difference_decides(rest, a, a_rest, b, b_rest);
    } else {
        assert(left[0] == a && right[0] == b);
    }
}

/// Dropping the keys keeps every value in its place.
pub proof fn values_stay_in_place<V>(items: Seq<(Seq<char>, V)>, i: int)
    requires
        0 <= i < items.len(),
    ensures
        values(items).len() == items.len(),
        values(items)[i] == items[i].1,
{
}

}
