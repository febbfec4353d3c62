//! Lists in which nothing occurs twice and what came first stays first.

use crate::text::{opt_texts, same, texts};
use vstd::prelude::*;

verus! {

/// The list with `item` at its end, unless it holds `item` already.
pub open spec fn with_item(list: Seq<Seq<char>>, item: Seq<char>) -> Seq<Seq<char>> {
    if list.contains(item) {
        list
    } else {
        list.push(item)
    }
}

/// The list with all `items`, one after the other.
pub open spec fn with_items(list: Seq<Seq<char>>, items: Seq<Seq<char>>) -> Seq<Seq<char>>
    decreases items.len(),
{
    if items.len() == 0 {
        list
    } else {
        with_item(with_items(list, items.drop_last()), items.last())
    }
}

/// The items without those that occurred before.
pub open spec fn distinct(items: Seq<Seq<char>>) -> Seq<Seq<char>> {
    with_items(Seq::empty(), items)
}

/// The list, where there is anything in it.
pub open spec fn unless_empty(s: Seq<Seq<char>>) -> Option<Seq<Seq<char>>> {
    if s.len() == 0 {
        None
    } else {
        Some(s)
    }
}

/// An item is added at the end of a list exactly where the list does not hold it; a list without items is
/// no list.
pub proof fn items_are_added_once(list: Seq<Seq<char>>, item: Seq<char>)
    ensures
        list.contains(item) ==> with_item(list, item) == list,
        !list.contains(item) ==> with_item(list, item) == list + seq![item],
        list.len() == 0 ==> unless_empty(list) is None,
        list.len() > 0 ==> unless_empty(list) == Some(list),
{
    assert(list.push(item) =~= list + seq![item]);
}

/// Every item of `a` occurs in `b`.
pub open spec fn all_in(a: Seq<Seq<char>>, b: Seq<Seq<char>>) -> bool {
    forall|i: int| 0 <= i < a.len() ==> b.contains(#[trigger] a[i])
}

/// Adding items to a list without duplicates gives one without duplicates, which begins with the
/// list as it was and holds the old items, the new ones and no others.
pub proof fn adding_items(list: Seq<Seq<char>>, items: Seq<Seq<char>>)
    requires
        list.no_duplicates(),
    ensures
        with_items(list, items).no_duplicates(),
        list.len() <= with_items(list, items).len(),
        with_items(list, items).take(list.len() as int) == list,
        all_in(list, with_items(list, items)),
        all_in(items, with_items(list, items)),
        all_in(with_items(list, items), list + items),
    decreases items.len(),
{
    let out = with_items(list, items);
    if items.len() > 0 {
        let before = items.drop_last();
        let mid = with_items(list, before);
        adding_items(list, before);
        assert(out.take(list.len() as int) =~= mid.take(list.len() as int));
        assert forall|i: int| 0 <= i < mid.len() implies out.contains(#[trigger] mid[i]) by {
            assert(out[i] == mid[i]);
        }
        assert forall|i: int| 0 <= i < list.len() implies out.contains(#[trigger] list[i]) by {
            assert(mid.contains(list[i]));
            let k = choose|k: int| 0 <= k < mid.len() && mid[k] == list[i];
            assert(out.contains(mid[k]));
        }
        assert forall|i: int| 0 <= i < items.len() implies out.contains(#[trigger] items[i]) by {
            if i < before.len() {
                assert(before[i] == items[i]);
                assert(mid.contains(before[i]));
                let k = choose|k: int| 0 <= k < mid.len() && mid[k] == items[i];
                assert(out.contains(mid[k]));
            } else if !mid.contains(items.last()) {
                assert(out[out.len() - 1] == items.last());
            }
        }
        assert forall|i: int| 0 <= i < out.len() implies (list + items).contains(
            #[trigger] out[i],
        ) by {
            if i < mid.len() {
                assert((list + before).contains(mid[i]));
                let k = choose|k: int|
                    0 <= k < (list + before).len() && (list + before)[k] == mid[i];
                assert((list + items)[k] == mid[i]);
            } else {
                assert((list + items)[list.len() + items.len() - 1] == items.last());
            }
        }
    } else {
        assert(out.take(list.len() as int) =~= list);
        assert(list + items =~= list);
        assert forall|i: int| 0 <= i < out.len() implies (list + items).contains(
            #[trigger] out[i],
        ) by {
            assert((list + items)[i] == out[i]);
        }
        assert forall|i: int| 0 <= i < list.len() implies out.contains(#[trigger] list[i]) by {
            assert(out[i] == list[i]);
        }
    }
}

/// Two lists of items added one after the other are the items of both added in a row.
pub proof fn adding_in_a_row(list: Seq<Seq<char>>, a: Seq<Seq<char>>, b: Seq<Seq<char>>)
    ensures
        with_items(with_items(list, a), b) == with_items(list, a + b),
    decreases b.len(),
{
    if b.len() > 0 {
        adding_in_a_row(list, a, b.drop_last());
        assert((a + b).drop_last() =~= a + b.drop_last());
        assert((a + b).last() == b.last());
    } else {
        assert(a + b =~= a);
    }
}

/// What is kept of a list are the first occurrences: of any two kept items, the one that occurs
/// first in the list stands first.
pub proof fn distinct_keeps_order(items: Seq<Seq<char>>, i: int, j: int)
    requires
        0 <= i < j < distinct(items).len(),
    ensures
        items.contains(distinct(items)[i]),
        items.contains(distinct(items)[j]),
        items.index_of_first(distinct(items)[i]).unwrap() < items.index_of_first(
            distinct(items)[j],
        ).unwrap(),
    decreases items.len(),
{
    let out = distinct(items);
    let empty: Seq<Seq<char>> = Seq::empty();
    adding_items(empty, items);
    assert(empty + items =~= items);
    assert((empty + items).contains(out[i]));
    assert((empty + items).contains(out[j]));
    let before = items.drop_last();
    let mid = distinct(before);
    adding_items(empty, before);
    assert(empty + before =~= before);
    items.index_of_first_ensures(out[i]);
    items.index_of_first_ensures(out[j]);
    let fi = items.index_of_first(out[i]).unwrap();
    let fj = items.index_of_first(out[j]).unwrap();
    if j < mid.len() {
        distinct_keeps_order(before, i, j);
        before.index_of_first_ensures(out[i]);
        before.index_of_first_ensures(out[j]);
        let bi = before.index_of_first(out[i]).unwrap();
        let bj = before.index_of_first(out[j]).unwrap();
        assert(before[bi] == items[bi] && before[bj] == items[bj]);
        assert(before[fi] == items[fi] && before[fj] == items[fj]);
    } else {
        assert(out[j] == items.last());
        assert(mid[i] == out[i]);
        assert((empty + before).contains(mid[i]));
        before.index_of_first_ensures(out[i]);
        let bi = before.index_of_first(out[i]).unwrap();
        assert(items[bi] == out[i]);
        if fj < before.len() {
            assert(before[fj] == out[j]);
            assert(before.contains(out[j]));
            assert(mid.contains(before[fj]));
        }
    }
}

/// Whether the list holds the text.
pub fn holds(list: &Vec<String>, item: &str) -> (r: bool)
    ensures
        r == texts(list@).contains(item@),
{
    let mut i: usize = 0;
    while i < list.len()
        invariant
            i <= list.len(),
            forall|j: int| 0 <= j < i ==> list@[j]@ != item@,
        decreases list.len() - i,
    {
        if same(list[i].as_str(), item) {
            assert(texts(list@)[i as int] == item@);
            return true;
        }
        i += 1;
    }
    assert forall|j: int| 0 <= j < texts(list@).len() implies texts(list@)[j] != item@ by {
        assert(texts(list@)[j] == list@[j]@);
    }
    false
}

/// Adds the item at the end of the list, unless the list holds it already.
pub fn push_unique(list: &mut Vec<String>, item: String)
    ensures
        texts(final(list)@) == with_item(texts(old(list)@), item@),
{
    if !holds(list, item.as_str()) {
        let ghost before = texts(list@);
        list.push(item);
        assert(texts(list@) =~= before.push(item@));
    }
}

/// Adds the items at the end of the list, without those that the list holds already.
pub fn push_all_unique(list: &mut Vec<String>, items: &Vec<String>)
    ensures
        texts(final(list)@) == with_items(texts(old(list)@), texts(items@)),
{
    let ghost start = texts(list@);
    let ghost all = texts(items@);
    let mut i: usize = 0;
    assert(all.take(0) =~= Seq::empty());
    while i < items.len()
        invariant
            i <= items.len(),
            all == texts(items@),
            texts(list@) == with_items(start, all.take(i as int)),
        decreases items.len() - i,
    {
        assert(all.take(i + 1).drop_last() =~= all.take(i as int));
        assert(all.take(i + 1).last() == items@[i as int]@);
        push_unique(list, items[i].clone());
        i += 1;
    }
    assert(all.take(i as int) =~= all);
}

/// The list, unless it is empty.
pub fn some_unless_empty(list: Vec<String>) -> (r: Option<Vec<String>>)
    ensures
        opt_texts(r) == unless_empty(texts(list@)),
{
    if list.len() == 0 {
        None
    } else {
        Some(list)
    }
}

} // verus!
