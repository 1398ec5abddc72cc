//! Putting things in the order of their texts.

use vstd::prelude::*;

use crate::text::{is_before, text_before, views};

verus! {

/// Puts an item into an ordered sequence, behind those that do not come after it.
pub open spec fn inserted<T>(sorted: Seq<T>, item: T, key: spec_fn(T) -> Seq<char>) -> Seq<T>
    decreases sorted.len(),
{
    if sorted.len() > 0 && text_before(key(item), key(sorted.last())) {
        inserted(sorted.drop_last(), item, key).push(sorted.last())
    } else {
        sorted.push(item)
    }
}

/// The items in the order of their keys; items with the same key stay in their order.
pub open spec fn ordered<T>(items: Seq<T>, key: spec_fn(T) -> Seq<char>) -> Seq<T>
    decreases items.len(),
{
    if items.len() == 0 {
        seq![]
    } else {
        inserted(ordered(items.drop_last(), key), items.last(), key)
    }
}

/// Whether no item comes before an earlier one.
pub open spec fn is_ordered<T>(items: Seq<T>, key: spec_fn(T) -> Seq<char>) -> bool {
    forall|i: int, j: int|
        0 <= i < j < items.len() ==> !text_before(
            key(#[trigger] items[j]),
            key(#[trigger] items[i]),
        )
}

/// Of two texts, one comes before the other exactly where they differ.
pub proof fn lemma_text_order_total(a: Seq<char>, b: Seq<char>)
    ensures
        a == b ==> !text_before(a, b),
        a != b ==> (text_before(a, b) <==> !text_before(b, a)),
    decreases a.len(),
{
    if a.len() > 0 && b.len() > 0 && a[0] == b[0] {
        lemma_text_order_total(a.skip(1), b.skip(1));
        if a.skip(1) == b.skip(1) {
            assert(a =~= seq![a[0]] + a.skip(1));
            assert(b =~= seq![b[0]] + b.skip(1));
        }
    } else if a.len() == 0 && b.len() == 0 {
        assert(a =~= b);
    }
}

/// What comes before a text comes before all that do not come before that text.
pub proof fn lemma_text_order_transitive(a: Seq<char>, b: Seq<char>, c: Seq<char>)
    requires
        text_before(a, b),
        !text_before(c, b),
    ensures
        text_before(a, c),
    decreases a.len(),
{
    lemma_text_order_total(b, c);
    if a.len() > 0 && c.len() > 0 && a[0] == b[0] && b[0] == c[0] {
        lemma_text_order_transitive(a.skip(1), b.skip(1), c.skip(1));
    }
}

/// Inserting keeps the order and adds the item.
proof fn lemma_inserted<T>(sorted: Seq<T>, item: T, key: spec_fn(T) -> Seq<char>)
    requires
        is_ordered(sorted, key),
    ensures
        is_ordered(inserted(sorted, item, key), key),
        inserted(sorted, item, key).to_multiset() == sorted.to_multiset().insert(item),
    decreases sorted.len(),
{
    broadcast use vstd::seq_lib::group_to_multiset_ensures;

    let all = inserted(sorted, item, key);
    if sorted.len() > 0 && text_before(key(item), key(sorted.last())) {
        let front = sorted.drop_last();
        let last = sorted.last();
        assert(is_ordered(front, key)) by {
            assert(forall|i: int| 0 <= i < front.len() ==> front[i] == #[trigger] sorted[i]);
        }
        lemma_inserted(front, item, key);
        let rest = inserted(front, item, key);
        assert(sorted =~= front.push(last));
        assert(all.to_multiset() == rest.to_multiset().insert(last));
        assert(sorted.to_multiset() == front.to_multiset().insert(last));
        assert(all.to_multiset() =~= sorted.to_multiset().insert(item));
        assert forall|i: int, j: int| 0 <= i < j < all.len() implies !text_before(
            key(#[trigger] all[j]),
            key(#[trigger] all[i]),
        ) by {
            if j < rest.len() {
                assert(all[i] == rest[i] && all[j] == rest[j]);
            } else {
                assert(rest.to_multiset().contains(rest[i])) by {
                    assert(rest.contains(rest[i]));
                }
                if rest[i] != item {
                    assert(front.to_multiset().contains(rest[i]));
                    assert(front.contains(rest[i]));
                    let k = choose|k: int| 0 <= k < front.len() && front[k] == rest[i];
                    assert(sorted[k] == rest[i]);
                    assert(!text_before(key(sorted[sorted.len() - 1]), key(sorted[k])));
                } else {
                    lemma_text_order_total(key(item), key(last));
                }
            }
        }
    } else {
        assert forall|i: int, j: int| 0 <= i < j < all.len() implies !text_before(
            key(#[trigger] all[j]),
            key(#[trigger] all[i]),
        ) by {
            if j == sorted.len() {
                if text_before(key(item), key(sorted[i])) && i < sorted.len() - 1 {
                    lemma_text_order_transitive(
                        key(item),
                        key(sorted[i]),
                        key(sorted[sorted.len() - 1]),
                    );
                }
            }
        }
    }
}

/// The order has the same items, each as often, and none before an earlier one.
pub proof fn law_ordered<T>(items: Seq<T>, key: spec_fn(T) -> Seq<char>)
    ensures
        is_ordered(ordered(items, key), key),
        ordered(items, key).to_multiset() == items.to_multiset(),
        ordered(items, key).len() == items.len(),
    decreases items.len(),
{
    broadcast use vstd::seq_lib::group_to_multiset_ensures;

    if items.len() > 0 {
        let front = items.drop_last();
        law_ordered(front, key);
        lemma_inserted(ordered(front, key), items.last(), key);
        assert(items =~= front.push(items.last()));
    }
    let all = ordered(items, key);
    assert(all.to_multiset().len() == all.len());
    assert(items.to_multiset().len() == items.len());
}

/// The key of a text is the text.
pub open spec fn own_text() -> spec_fn(Seq<char>) -> Seq<char> {
    |text: Seq<char>| text
}

/// Whether items with the same key are the same.
pub open spec fn tells_apart<T>(items: Seq<T>, key: spec_fn(T) -> Seq<char>) -> bool {
    forall|x: T, y: T|
        #![trigger items.contains(x), items.contains(y)]
        items.contains(x) && items.contains(y) && key(x) == key(y) ==> x == y
}

/// Ordered items with the same members are the same, where their keys tell them apart.
proof fn lemma_order_unique<T>(a: Seq<T>, b: Seq<T>, key: spec_fn(T) -> Seq<char>)
    requires
        is_ordered(a, key),
        is_ordered(b, key),
        a.to_multiset() == b.to_multiset(),
        tells_apart(a, key),
    ensures
        a == b,
    decreases a.len(),
{
    broadcast use vstd::seq_lib::group_to_multiset_ensures;

    assert(a.len() == a.to_multiset().len());
    assert(b.len() == b.to_multiset().len());
    if a.len() > 0 {
        let x = a.last();
        let y = b.last();
        assert(a.contains(x) && b.contains(y));
        assert(b.to_multiset().contains(x) && a.to_multiset().contains(y));
        assert(b.contains(x) && a.contains(y));
        let i = choose|i: int| 0 <= i < b.len() && b[i] == x;
        let j = choose|j: int| 0 <= j < a.len() && a[j] == y;
        lemma_text_order_total(key(x), key(y));
        assert(key(x) == key(y)) by {
            if i < b.len() - 1 {
                assert(!text_before(key(b[b.len() - 1]), key(b[i])));
            }
            if j < a.len() - 1 {
                assert(!text_before(key(a[a.len() - 1]), key(a[j])));
            }
        }
        let front = a.drop_last();
        let start = b.drop_last();
        assert(a =~= front.push(x));
        assert(b =~= start.push(y));
        assert(front.to_multiset() =~= a.to_multiset().remove(x));
        assert(start.to_multiset() =~= b.to_multiset().remove(y));
        assert(is_ordered(front, key)) by {
            assert(forall|k: int| 0 <= k < front.len() ==> front[k] == #[trigger] a[k]);
        }
        assert(is_ordered(start, key)) by {
            assert(forall|k: int| 0 <= k < start.len() ==> start[k] == #[trigger] b[k]);
        }
        assert(tells_apart(front, key)) by {
            assert forall|item: T| #[trigger] front.contains(item) implies a.contains(item) by {
                let k = choose|k: int| 0 <= k < front.len() && front[k] == item;
                assert(a[k] == item);
            }
        }
        lemma_order_unique(front, start, key);
    } else {
        assert(a =~= b);
    }
}

/// The order of items does not depend on the order that they come in, where their keys tell them
/// apart.
pub proof fn law_order_forgets_order<T>(a: Seq<T>, b: Seq<T>, key: spec_fn(T) -> Seq<char>)
    requires
        a.to_multiset() == b.to_multiset(),
        tells_apart(a, key),
    ensures
        ordered(a, key) == ordered(b, key),
{
    broadcast use vstd::seq_lib::group_to_multiset_ensures;

    law_ordered(a, key);
    law_ordered(b, key);
    let all = ordered(a, key);
    assert forall|item: T| #[trigger] all.contains(item) implies a.contains(item) by {
        assert(a.to_multiset().contains(item));
    }
    lemma_order_unique(all, ordered(b, key), key);
}

/// Puts a text into an ordered list.
fn insert_text(sorted: &mut Vec<String>, text: String)
    ensures
        views(final(sorted)@) == inserted(views(old(sorted)@), text@, own_text()),
{
    let ghost before = views(sorted@);
    let mut at: usize = sorted.len();
    assert(before.take(at as int) =~= before);
    assert(inserted(before, text@, own_text()) =~= inserted(
        before.take(at as int),
        text@,
        own_text(),
    ) + before.skip(at as int));
    while at > 0 && is_before(text.as_str(), sorted[at - 1].as_str())
        invariant
            at <= sorted@.len(),
            before == views(sorted@),
            inserted(before, text@, own_text()) == inserted(
                before.take(at as int),
                text@,
                own_text(),
            ) + before.skip(at as int),
        decreases at,
    {
        let ghost front = before.take(at as int);
        assert(front.last() == sorted@[at - 1]@);
        assert(front.drop_last() =~= before.take(at - 1));
        assert(before.skip(at - 1) =~= seq![before[at - 1]] + before.skip(at as int));
        assert(inserted(before.take(at - 1), text@, own_text()).push(before[at - 1]) + before.skip(
            at as int,
        ) =~= inserted(before.take(at - 1), text@, own_text()) + before.skip(at - 1));
        at = at - 1;
    }
    let ghost front = before.take(at as int);
    assert(at > 0 ==> front.last() == sorted@[at - 1]@);
    assert(inserted(front, text@, own_text()) == front.push(text@));
    sorted.insert(at, text);
    assert(views(sorted@) =~= front.push(text@) + before.skip(at as int));
}

/// Puts texts in order.
pub fn sort_texts(texts: Vec<String>) -> (r: Vec<String>)
    ensures
        views(r@) == ordered(views(texts@), own_text()),
{
    let ghost all = views(texts@);
    let mut sorted: Vec<String> = Vec::new();
    assert(views(sorted@) =~= seq![]);
    assert(all.take(0) =~= seq![]);
    for text in it: texts
        invariant
            it.seq() == texts@,
            all == views(texts@),
            views(sorted@) == ordered(all.take(it.index()), own_text()),
    {
        let ghost at = it.index();
        assert(all.take(at + 1).drop_last() =~= all.take(at));
        assert(all.take(at + 1).last() == text@);
        insert_text(&mut sorted, text);
    }
    assert(all.take(all.len() as int) =~= all);
    sorted
}

} // verus!
