//! A stable sort by keys made of several texts or numbers, compared field by
//! field and, within a field, value by value.

use vstd::prelude::*;
use crate::text::chars_of;

verus! {

/// A text as a field of a key: the code points of its characters.
pub open spec fn text_field(text: Seq<char>) -> Seq<u32> {
    Seq::new(text.len(), |i: int| text[i] as u32)
}

/// `text` as a field of a key.
pub fn field_of(text: &str) -> (field: Vec<u32>)
    ensures
        field@ == text_field(text@),
{
    let chars = chars_of(text);
    let mut field: Vec<u32> = Vec::new();
    for i in 0..chars.len()
        invariant
            field@ == text_field(chars@).take(i as int),
    {
        field.push(chars[i] as u32);
    }
    field
}

/// Whether `left` does not come after `right` in lexicographic order.
pub open spec fn field_le(left: Seq<u32>, right: Seq<u32>) -> bool
    decreases left.len(),
{
    if left.len() == 0 {
        true
    } else if right.len() == 0 {
        false
    } else {
        left[0] < right[0] || (left[0] == right[0] && field_le(left.skip(1), right.skip(1)))
    }
}

/// Whether the key `left` does not come after the key `right`: the first field
/// in which they differ decides.
pub open spec fn key_le(left: Seq<Seq<u32>>, right: Seq<Seq<u32>>) -> bool
    decreases left.len(),
{
    if left.len() == 0 {
        true
    } else if right.len() == 0 {
        false
    } else if left[0] == right[0] {
        key_le(left.skip(1), right.skip(1))
    } else {
        field_le(left[0], right[0])
    }
}

/// Of two fields one does not come after the other, and both hold only of
/// equal fields.
pub proof fn lemma_field_total(left: Seq<u32>, right: Seq<u32>)
    ensures
        field_le(left, right) || field_le(right, left),
        field_le(left, right) && field_le(right, left) ==> left == right,
        field_le(left, left),
    decreases left.len(),
{
    if left.len() > 0 {
        lemma_field_total(left.skip(1), left.skip(1));
        if right.len() > 0 {
            lemma_field_total(left.skip(1), right.skip(1));
            if left[0] == right[0] && left.skip(1) == right.skip(1) {
                assert(left =~= seq![left[0]] + left.skip(1));
                assert(right =~= seq![right[0]] + right.skip(1));
            }
        }
    } else if right.len() == 0 {
        assert(left =~= right);
    }
}

/// The order of fields is transitive.
pub proof fn lemma_field_transitive(a: Seq<u32>, b: Seq<u32>, c: Seq<u32>)
    requires
        field_le(a, b),
        field_le(b, c),
    ensures
        field_le(a, c),
    decreases a.len(),
{
    if a.len() > 0 && a[0] == b[0] && b[0] == c[0] {
        lemma_field_transitive(a.skip(1), b.skip(1), c.skip(1));
    }
}

/// Of two keys one does not come after the other, and both hold only of equal
/// keys.
pub proof fn lemma_key_total(left: Seq<Seq<u32>>, right: Seq<Seq<u32>>)
    ensures
        key_le(left, right) || key_le(right, left),
        key_le(left, right) && key_le(right, left) ==> left == right,
        key_le(left, left),
    decreases left.len(),
{
    if left.len() > 0 {
        lemma_key_total(left.skip(1), left.skip(1));
        if right.len() > 0 {
            lemma_key_total(left.skip(1), right.skip(1));
            lemma_field_total(left[0], right[0]);
            if left[0] == right[0] && left.skip(1) == right.skip(1) {
                assert(left =~= seq![left[0]] + left.skip(1));
                assert(right =~= seq![right[0]] + right.skip(1));
            }
        }
    } else if right.len() == 0 {
        assert(left =~= right);
    }
}

/// The order of keys is transitive.
pub proof fn lemma_key_transitive(a: Seq<Seq<u32>>, b: Seq<Seq<u32>>, c: Seq<Seq<u32>>)
    requires
        key_le(a, b),
        key_le(b, c),
    ensures
        key_le(a, c),
    decreases a.len(),
{
    if a.len() > 0 {
        lemma_field_total(a[0], b[0]);
        lemma_field_total(b[0], c[0]);
        if a[0] == b[0] && b[0] == c[0] {
            lemma_key_transitive(a.skip(1), b.skip(1), c.skip(1));
        } else if a[0] != b[0] && b[0] != c[0] {
            lemma_field_transitive(a[0], b[0], c[0]);
        }
    }
}

/// The first position at or after `from` whose key comes after `key`.
pub open spec fn place_from(keys: Seq<Seq<Seq<u32>>>, order: Seq<int>, key: Seq<Seq<u32>>, from: int) -> int
    decreases order.len() - from,
{
    if from >= order.len() || !key_le(keys[order[from]], key) {
        from
    } else {
        place_from(keys, order, key, from + 1)
    }
}

/// The positions of `keys` in sorted order. Equal keys keep the order in which
/// they stand in `keys`: each position is put before the first one whose key
/// comes after its own.
pub open spec fn stable_order(keys: Seq<Seq<Seq<u32>>>) -> Seq<int>
    decreases keys.len(),
{
    if keys.len() == 0 {
        Seq::empty()
    } else {
        let order = stable_order(keys.drop_last());
        order.insert(place_from(keys, order, keys.last(), 0), keys.len() - 1)
    }
}

/// The items of `items` at the positions `order`.
pub open spec fn arranged<T>(items: Seq<T>, order: Seq<int>) -> Seq<T> {
    Seq::new(order.len(), |i: int| items[order[i]])
}

/// Whether `order` lists every position below `count` once.
pub open spec fn is_permutation(order: Seq<int>, count: int) -> bool {
    &&& order.len() == count
    &&& forall|i: int| 0 <= i < order.len() ==> 0 <= #[trigger] order[i] < count
    &&& forall|i: int, j: int|
        0 <= i < j < order.len() ==> #[trigger] order[i] != #[trigger] order[j]
}

/// Whether the positions of `order` are sorted by their keys, equal keys by
/// position.
pub open spec fn is_sorted_stably(keys: Seq<Seq<Seq<u32>>>, order: Seq<int>) -> bool {
    forall|i: int, j: int|
        0 <= i < j < order.len() ==> {
            &&& key_le(keys[#[trigger] order[i]], keys[#[trigger] order[j]])
            &&& keys[order[i]] == keys[order[j]] ==> order[i] < order[j]
        }
}

/// Where the place of a key is, given what stands before and at it.
proof fn lemma_place(keys: Seq<Seq<Seq<u32>>>, order: Seq<int>, key: Seq<Seq<u32>>, from: int, at: int)
    requires
        from <= at <= order.len(),
        forall|i: int| from <= i < at ==> key_le(keys[#[trigger] order[i]], key),
        at < order.len() ==> !key_le(keys[order[at]], key),
    ensures
        place_from(keys, order, key, from) == at,
    decreases at - from,
{
    if from < at {
        assert(key_le(keys[order[from]], key));
        lemma_place(keys, order, key, from + 1, at);
    }
}

/// What stands before and at the place of a key.
proof fn lemma_place_means(keys: Seq<Seq<Seq<u32>>>, order: Seq<int>, key: Seq<Seq<u32>>, from: int)
    requires
        0 <= from <= order.len(),
    ensures
        ({
            let at = place_from(keys, order, key, from);
            &&& from <= at <= order.len()
            &&& forall|i: int| from <= i < at ==> key_le(keys[#[trigger] order[i]], key)
            &&& at < order.len() ==> !key_le(keys[order[at]], key)
        }),
    decreases order.len() - from,
{
    if from < order.len() && key_le(keys[order[from]], key) {
        lemma_place_means(keys, order, key, from + 1);
    }
}

/// Sorting keeps every position once, sorts by the keys and keeps the order of
/// positions with equal keys.
pub proof fn law_stable_order(keys: Seq<Seq<Seq<u32>>>)
    ensures
        is_permutation(stable_order(keys), keys.len() as int),
        is_sorted_stably(keys, stable_order(keys)),
    decreases keys.len(),
{
    if keys.len() > 0 {
        let shorter = keys.drop_last();
        law_stable_order(shorter);
        let before = stable_order(shorter);
        let key = keys.last();
        let at = place_from(keys, before, key, 0);
        lemma_place_means(keys, before, key, 0);
        let order = stable_order(keys);
        let last = keys.len() - 1;
        assert(order == before.insert(at, last));
        assert forall|i: int| 0 <= i < order.len() implies #[trigger] order[i] == (if i < at {
            before[i]
        } else if i == at {
            last
        } else {
            before[i - 1]
        }) by {}
        assert forall|i: int| 0 <= i < before.len() implies keys[#[trigger] before[i]]
            == shorter[before[i]] by {}
        assert forall|i: int, j: int| 0 <= i < j < order.len() implies #[trigger] order[i]
            != #[trigger] order[j] by {}
        assert forall|i: int, j: int| 0 <= i < j < order.len() implies {
            &&& key_le(keys[#[trigger] order[i]], keys[#[trigger] order[j]])
            &&& keys[order[i]] == keys[order[j]] ==> order[i] < order[j]
        } by {
            if i == at {
                let next = before[at];
                lemma_key_total(key, keys[next]);
                let other = before[j - 1];
                if at < j - 1 {
                    assert(key_le(shorter[before[at]], shorter[before[j - 1]]));
                }
                lemma_key_total(keys[next], keys[other]);
                lemma_key_transitive(key, keys[next], keys[other]);
                if key == keys[other] {
                    assert(key_le(keys[next], key));
                }
            } else if j == at {
                assert(key_le(keys[before[i]], key));
            } else {
                let a = if i < at { i } else { i - 1 };
                let b = if j < at { j } else { j - 1 };
                assert(key_le(shorter[before[a]], shorter[before[b]]));
            }
        }
    }
}

/// Whether the field `left` does not come after the field `right`.
pub fn compare_fields(left: &Vec<u32>, right: &Vec<u32>) -> (le: bool)
    ensures
        le == field_le(left@, right@),
{
    let mut i: usize = 0;
    assert(left@.skip(0) =~= left@);
    assert(right@.skip(0) =~= right@);
    loop
        invariant
            i <= left@.len(),
            i <= right@.len(),
            field_le(left@, right@) == field_le(left@.skip(i as int), right@.skip(i as int)),
        decreases left@.len() - i,
    {
        if i == left.len() {
            return true;
        }
        if i == right.len() {
            return false;
        }
        assert(left@.skip(i as int).skip(1) =~= left@.skip(i + 1));
        assert(right@.skip(i as int).skip(1) =~= right@.skip(i + 1));
        if left[i] < right[i] {
            return true;
        }
        if left[i] > right[i] {
            return false;
        }
        i += 1;
    }
}

fn same_field(left: &Vec<u32>, right: &Vec<u32>) -> (same: bool)
    ensures
        same == (left@ == right@),
{
    let same = compare_fields(left, right) && compare_fields(right, left);
    proof {
        lemma_field_total(left@, right@);
        lemma_field_total(left@, left@);
    }
    same
}

/// Whether the key `left` does not come after the key `right`.
pub fn compare_keys(left: &Vec<Vec<u32>>, right: &Vec<Vec<u32>>) -> (le: bool)
    ensures
        le == key_le(left.deep_view(), right.deep_view()),
{
    let ghost l = left.deep_view();
    let ghost r = right.deep_view();
    let mut i: usize = 0;
    assert(l.skip(0) =~= l);
    assert(r.skip(0) =~= r);
    loop
        invariant
            l == left.deep_view(),
            r == right.deep_view(),
            i <= left@.len(),
            i <= right@.len(),
            key_le(l, r) == key_le(l.skip(i as int), r.skip(i as int)),
        decreases left@.len() - i,
    {
        if i == left.len() {
            return true;
        }
        if i == right.len() {
            return false;
        }
        proof {
            assert(l.skip(i as int).skip(1) =~= l.skip(i + 1));
            assert(r.skip(i as int).skip(1) =~= r.skip(i + 1));
            assert(l.skip(i as int)[0] =~= left@[i as int]@);
            assert(r.skip(i as int)[0] =~= right@[i as int]@);
        }
        if !same_field(&left[i], &right[i]) {
            return compare_fields(&left[i], &right[i]);
        }
        i += 1;
    }
}

/// The positions of `keys` in sorted order, equal keys by position.
pub fn sort_order(keys: &Vec<Vec<Vec<u32>>>) -> (order: Vec<usize>)
    ensures
        order@.map_values(|position: usize| position as int) == stable_order(keys.deep_view()),
{
    let ghost all = keys.deep_view();
    let mut order: Vec<usize> = Vec::new();
    let ghost positions: Seq<int> = Seq::empty();
    let mut next: usize = 0;
    assert(all.take(0) =~= Seq::empty());
    while next < keys.len()
        invariant
            next <= keys.len(),
            all == keys.deep_view(),
            positions == stable_order(all.take(next as int)),
            positions.len() == order@.len() == next,
            forall|i: int| 0 <= i < order@.len() ==> #[trigger] order@[i] == positions[i],
        decreases keys.len() - next,
    {
        let ghost known = all.take(next as int);
        let ghost key = all[next as int];
        proof {
            law_stable_order(known);
        }
        let mut low: usize = 0;
        let mut high: usize = order.len();
        while low < high
            invariant
                low <= high <= order@.len(),
                next < keys@.len(),
                all == keys.deep_view(),
                key == all[next as int],
                known == all.take(next as int),
                positions.len() == order@.len() == next,
                is_permutation(positions, next as int),
                is_sorted_stably(known, positions),
                forall|i: int| 0 <= i < order@.len() ==> #[trigger] order@[i] == positions[i],
                forall|i: int| 0 <= i < low ==> key_le(all[#[trigger] positions[i]], key),
                forall|i: int|
                    high <= i < positions.len() ==> !key_le(all[#[trigger] positions[i]], key),
            decreases high - low,
        {
            let middle: usize = low + (high - low) / 2;
            let position = order[middle];
            assert(position == positions[middle as int]);
            if compare_keys(&keys[position], &keys[next]) {
                proof {
                    assert forall|i: int| 0 <= i < middle + 1 implies key_le(
                        all[#[trigger] positions[i]],
                        key,
                    ) by {
                        if i < middle {
                            assert(key_le(known[positions[i]], known[positions[middle as int]]));
                            lemma_key_transitive(
                                all[positions[i]],
                                all[positions[middle as int]],
                                key,
                            );
                        }
                    }
                }
                low = middle + 1;
            } else {
                proof {
                    assert forall|i: int| middle <= i < positions.len() implies !key_le(
                        all[#[trigger] positions[i]],
                        key,
                    ) by {
                        if i > middle && key_le(all[positions[i]], key) {
                            assert(key_le(known[positions[middle as int]], known[positions[i]]));
                            lemma_key_transitive(
                                all[positions[middle as int]],
                                all[positions[i]],
                                key,
                            );
                        }
                    }
                }
                high = middle;
            }
        }
        proof {
            let longer = all.take(next + 1);
            assert(longer.drop_last() =~= known);
            assert forall|i: int| 0 <= i < positions.len() implies longer[#[trigger] positions[i]]
                == all[positions[i]] by {}
            lemma_place(longer, positions, key, 0, low as int);
            positions = positions.insert(low as int, next as int);
        }
        order.insert(low, next);
        next += 1;
    }
    assert(all.take(keys@.len() as int) =~= all);
    assert(order@.map_values(|position: usize| position as int) =~= positions);
    order
}

/// The items at the positions `order`, which lists every position once.
pub fn arrange<T>(items: Vec<T>, order: &Vec<usize>) -> (result: Vec<T>)
    requires
        is_permutation(
            order@.map_values(|position: usize| position as int),
            items@.len() as int,
        ),
    ensures
        result@ == arranged(items@, order@.map_values(|position: usize| position as int)),
{
    let ghost positions = order@.map_values(|position: usize| position as int);
    let ghost given = items@;
    let mut items = items;
    let count: usize = items.len();
    let mut slots: Vec<Option<T>> = Vec::new();
    while slots.len() < count
        invariant
            count == given.len(),
            slots@.len() + items@.len() == count,
            forall|i: int| 0 <= i < items@.len() ==> #[trigger] items@[i] == given[i],
            forall|i: int|
                0 <= i < slots@.len() ==> #[trigger] slots@[i] == Some(given[count - 1 - i]),
        decreases count - slots.len(),
    {
        let last = items.pop();
        slots.push(last);
    }
    let mut result: Vec<T> = Vec::new();
    let mut next: usize = 0;
    while next < count
        invariant
            next <= count,
            count == given.len() == slots@.len() == order@.len(),
            positions == order@.map_values(|position: usize| position as int),
            is_permutation(positions, count as int),
            result@.len() == next,
            forall|i: int| 0 <= i < next ==> #[trigger] result@[i] == given[positions[i]],
            forall|i: int|
                next <= i < count ==> slots@[count - 1 - #[trigger] positions[i]] == Some(
                    given[positions[i]],
                ),
        decreases count - next,
    {
        let position: usize = order[next];
        assert(positions[next as int] == position);
        let slot: usize = count - 1 - position;
        let ghost before = slots@;
        let taken = slots[slot].take();
        proof {
            assert forall|i: int| next + 1 <= i < count implies slots@[count - 1
                - #[trigger] positions[i]] == Some(given[positions[i]]) by {
                assert(positions[i] != positions[next as int]);
            }
        }
        result.push(taken.unwrap());
        next += 1;
    }
    assert(result@ =~= arranged(given, positions));
    result
}

} // verus!
