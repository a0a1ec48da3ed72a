//! From the diagnostics found for one file to the list that is reported:
//! each finding once, in the order of the places they belong to.

use crate::rules::{items_view, location_key, Location, LogItem, LogItemView};
use vstd::prelude::*;

verus! {

/// `items` with every finding kept once, at the place of its first
/// occurrence.
pub open spec fn unique(items: Seq<LogItemView>) -> Seq<LogItemView>
    decreases items.len(),
{
    if items.len() == 0 {
        Seq::<LogItemView>::empty()
    } else {
        let kept = unique(items.drop_last());
        if kept.contains(items.last()) {
            kept
        } else {
            kept.push(items.last())
        }
    }
}

/// Where `item` goes into `sorted`: behind the last entry that does not come
/// after it.
pub open spec fn slot(sorted: Seq<LogItemView>, item: LogItemView) -> int
    decreases sorted.len(),
{
    if sorted.len() == 0 {
        0
    } else if location_key(sorted.last().location) <= location_key(item.location) {
        sorted.len() as int
    } else {
        slot(sorted.drop_last(), item)
    }
}

/// `items` in the order of their locations; findings at the same location
/// keep the order in which they stand in `items`.
pub open spec fn by_location(items: Seq<LogItemView>) -> Seq<LogItemView>
    decreases items.len(),
{
    if items.len() == 0 {
        Seq::<LogItemView>::empty()
    } else {
        let sorted = by_location(items.drop_last());
        sorted.insert(slot(sorted, items.last()), items.last())
    }
}

/// The list that is reported for the findings of one file.
pub open spec fn reported(items: Seq<LogItemView>) -> Seq<LogItemView> {
    by_location(unique(items))
}

/// Whether no finding stands twice in `items`.
pub open spec fn distinct(items: Seq<LogItemView>) -> bool {
    forall|i: int, j: int| 0 <= i < j < items.len() ==> items[i] != items[j]
}

/// Whether the locations of `items` never step back.
pub open spec fn ordered(items: Seq<LogItemView>) -> bool {
    forall|i: int, j: int|
        0 <= i < j < items.len() ==> location_key(items[i].location) <= location_key(
            items[j].location,
        )
}

/// Removing duplicates leaves every finding of the input, each once.
pub proof fn lemma_unique(items: Seq<LogItemView>)
    ensures
        distinct(unique(items)),
        unique(items).len() <= items.len(),
        forall|x: LogItemView| unique(items).contains(x) <==> items.contains(x),
    decreases items.len(),
{
    let result = unique(items);
    if items.len() == 0 {
        assert forall|x: LogItemView| result.contains(x) <==> items.contains(x) by {}
    } else {
        let front = items.drop_last();
        let last = items.last();
        let kept = unique(front);
        lemma_unique(front);
        assert forall|x: LogItemView| result.contains(x) <==> items.contains(x) by {
            if result.contains(x) {
                let i = choose|i: int| 0 <= i < result.len() && result[i] == x;
                if i < kept.len() {
                    assert(kept[i] == x);
                    assert(kept.contains(x));
                    assert(front.contains(x));
                    let k = choose|k: int| 0 <= k < front.len() && front[k] == x;
                    assert(items[k] == x);
                } else {
                    assert(items[items.len() - 1] == x);
                }
            }
            if items.contains(x) {
                let k = choose|k: int| 0 <= k < items.len() && items[k] == x;
                if k < front.len() {
                    assert(front[k] == x);
                    assert(front.contains(x));
                    assert(kept.contains(x));
                    let i = choose|i: int| 0 <= i < kept.len() && kept[i] == x;
                    assert(result[i] == x);
                } else if kept.contains(last) {
                } else {
                    assert(result[kept.len() as int] == x);
                }
            }
        }
        if !kept.contains(last) {
            assert forall|i: int, j: int| 0 <= i < j < result.len() implies result[i]
                != result[j] by {
                if j == kept.len() {
                    assert(kept[i] == result[i]);
                    if result[i] == last {
                        assert(kept.contains(last));
                    }
                } else {
                    assert(kept[i] == result[i] && kept[j] == result[j]);
                }
            }
        }
    }
}

/// The slot of an item lies inside the list; nothing before it comes after
/// the item, and, where the list is ordered, everything from it on does.
pub proof fn lemma_slot(sorted: Seq<LogItemView>, item: LogItemView)
    ensures
        0 <= slot(sorted, item) <= sorted.len(),
        ordered(sorted) ==> forall|i: int|
            0 <= i < slot(sorted, item) ==> location_key((#[trigger] sorted[i]).location)
                <= location_key(item.location),
        forall|i: int|
            slot(sorted, item) <= i < sorted.len() ==> location_key(
                (#[trigger] sorted[i]).location,
            ) > location_key(item.location),
    decreases sorted.len(),
{
    if sorted.len() > 0 && location_key(sorted.last().location) > location_key(item.location) {
        let front = sorted.drop_last();
        lemma_slot(front, item);
        assert forall|i: int| slot(sorted, item) <= i < sorted.len() implies location_key(
            (#[trigger] sorted[i]).location,
        ) > location_key(item.location) by {
            if i < front.len() {
                assert(front[i] == sorted[i]);
            }
        }
        if ordered(sorted) {
            assert(ordered(front)) by {
                assert forall|i: int, j: int| 0 <= i < j < front.len() implies location_key(
                    front[i].location,
                ) <= location_key(front[j].location) by {
                    assert(front[i] == sorted[i] && front[j] == sorted[j]);
                }
            }
            assert forall|i: int| 0 <= i < slot(sorted, item) implies location_key(
                (#[trigger] sorted[i]).location,
            ) <= location_key(item.location) by {
                assert(front[i] == sorted[i]);
            }
        }
    }
}

/// Ordering by location gives an ordered list with the same findings, as
/// often as in the input; a list of distinct findings stays one.
pub proof fn lemma_by_location(items: Seq<LogItemView>)
    ensures
        ordered(by_location(items)),
        by_location(items).len() == items.len(),
        by_location(items).to_multiset() == items.to_multiset(),
        forall|x: LogItemView| by_location(items).contains(x) <==> items.contains(x),
        distinct(items) ==> distinct(by_location(items)),
    decreases items.len(),
{
    let result = by_location(items);
    if items.len() == 0 {
        assert(result =~= items);
    } else {
        let front = items.drop_last();
        let last = items.last();
        let sorted = by_location(front);
        let at = slot(sorted, last);
        lemma_by_location(front);
        lemma_slot(sorted, last);
        sorted.insert_ensures(at, last);
        vstd::seq_lib::to_multiset_insert(sorted, at, last);
        assert(items =~= front.push(last));
        vstd::seq_lib::to_multiset_build(front, last);
        assert(result.to_multiset() =~= items.to_multiset());
        assert forall|x: LogItemView| result.contains(x) <==> items.contains(x) by {
            vstd::seq_lib::to_multiset_contains(result, x);
            vstd::seq_lib::to_multiset_contains(items, x);
        }
        assert forall|i: int, j: int| 0 <= i < j < result.len() implies location_key(
            result[i].location,
        ) <= location_key(result[j].location) by {
            if i < at && j > at {
                assert(result[i] == sorted[i] && result[j] == sorted[j - 1]);
            } else if i > at {
                assert(result[i] == sorted[i - 1] && result[j] == sorted[j - 1]);
            } else if j < at {
                assert(result[i] == sorted[i] && result[j] == sorted[j]);
            } else if i == at {
                assert(result[j] == sorted[j - 1]);
            } else {
                assert(result[i] == sorted[i]);
            }
        }
        if distinct(items) {
            assert(distinct(front)) by {
                assert forall|i: int, j: int| 0 <= i < j < front.len() implies front[i]
                    != front[j] by {
                    assert(front[i] == items[i] && front[j] == items[j]);
                }
            }
            assert(!front.contains(last)) by {
                if front.contains(last) {
                    let k = choose|k: int| 0 <= k < front.len() && front[k] == last;
                    assert(items[k] == items[items.len() - 1]);
                }
            }
            assert forall|i: int, j: int| 0 <= i < j < result.len() implies result[i]
                != result[j] by {
                let a = if i < at {
                    i
                } else {
                    i - 1
                };
                let b = if j < at {
                    j
                } else {
                    j - 1
                };
                if i == at {
                    assert(result[j] == sorted[b]);
                    assert(sorted.contains(result[j]));
                } else if j == at {
                    assert(result[i] == sorted[a]);
                    assert(sorted.contains(result[i]));
                } else {
                    assert(result[i] == sorted[a] && result[j] == sorted[b]);
                }
            }
        }
    }
}

/// The findings of `items` at `location`, in their order.
pub open spec fn at_place(items: Seq<LogItemView>, location: Location) -> Seq<LogItemView> {
    items.filter(|item: LogItemView| item.location == location)
}

/// Where no finding of `items` is at `location`, there is nothing at that
/// place.
pub proof fn lemma_nothing_at_place(items: Seq<LogItemView>, location: Location)
    requires
        forall|i: int| 0 <= i < items.len() ==> (#[trigger] items[i]).location != location,
    ensures
        at_place(items, location) == Seq::<LogItemView>::empty(),
    decreases items.len(),
{
    reveal(Seq::filter);
    if items.len() > 0 {
        let front = items.drop_last();
        assert forall|i: int| 0 <= i < front.len() implies (#[trigger] front[i]).location
            != location by {
            assert(front[i] == items[i]);
        }
        lemma_nothing_at_place(front, location);
        assert(items[items.len() - 1].location != location);
    }
}

/// Ordering by location leaves the findings at each location in the order in
/// which they were found.
pub proof fn lemma_by_location_stable(items: Seq<LogItemView>, location: Location)
    ensures
        at_place(by_location(items), location) == at_place(items, location),
    decreases items.len(),
{
    let here = |item: LogItemView| item.location == location;
    if items.len() == 0 {
        assert(by_location(items) =~= items);
    } else {
        let front = items.drop_last();
        let last = items.last();
        let sorted = by_location(front);
        let at = slot(sorted, last);
        let result = by_location(items);
        lemma_by_location_stable(front, location);
        lemma_slot(sorted, last);
        let before = sorted.subrange(0, at);
        let behind = sorted.subrange(at, sorted.len() as int);
        assert(sorted =~= before + behind);
        assert(result =~= before.push(last) + behind);
        assert(items =~= front.push(last));
        Seq::filter_distributes_over_add(before, behind, here);
        Seq::filter_distributes_over_add(before.push(last), behind, here);
        before.lemma_filter_push(last, here);
        front.lemma_filter_push(last, here);
        if last.location == location {
            assert forall|i: int| 0 <= i < behind.len() implies (#[trigger] behind[i]).location
                != location by {
                assert(behind[i] == sorted[at + i]);
            }
            lemma_nothing_at_place(behind, location);
            assert(before.filter(here) + Seq::<LogItemView>::empty() =~= before.filter(here));
            assert(before.filter(here).push(last) + Seq::<LogItemView>::empty()
                =~= before.filter(here).push(last));
        }
    }
}

/// A reported list names no finding twice.
pub proof fn lemma_reported_distinct(items: Seq<LogItemView>)
    ensures
        distinct(reported(items)),
{
    lemma_unique(items);
    lemma_by_location(unique(items));
}

/// The locations of a reported list never step back: unlocated findings
/// first, then the lines in rising order, then the end of the document.
pub proof fn lemma_reported_ordered(items: Seq<LogItemView>)
    ensures
        ordered(reported(items)),
{
    lemma_by_location(unique(items));
}

/// A reported list holds exactly the findings of the input.
pub proof fn lemma_reported_complete(items: Seq<LogItemView>, item: LogItemView)
    ensures
        reported(items).contains(item) <==> items.contains(item),
{
    lemma_unique(items);
    lemma_by_location(unique(items));
}

/// Whether `item` stands in `items`.
pub fn contains_item(items: &Vec<LogItem>, item: &LogItem) -> (found: bool)
    ensures
        found == items_view(items@).contains(item@),
{
    let mut i: usize = 0;
    while i < items.len()
        invariant
            i <= items.len(),
            forall|k: int| 0 <= k < i ==> items_view(items@)[k] != item@,
        decreases items.len() - i,
    {
        if items[i] == *item {
            assert(items_view(items@)[i as int] == item@);
            return true;
        }
        i += 1;
    }
    false
}

/// Keeps each finding once, at the place of its first occurrence.
pub fn dedup(items: Vec<LogItem>) -> (kept: Vec<LogItem>)
    ensures
        items_view(kept@) == unique(items_view(items@)),
        distinct(items_view(kept@)),
{
    let ghost all = items_view(items@);
    let mut kept: Vec<LogItem> = Vec::new();
    assert(items_view(kept@) =~= unique(all.take(0)));
    for item in it: items
        invariant
            it.seq() == items@,
            all == items_view(items@),
            items_view(kept@) == unique(all.take(it.index() as int)),
    {
        let ghost before = items_view(kept@);
        assert(all.take(it.index() + 1).drop_last() =~= all.take(it.index() as int));
        assert(all.take(it.index() + 1).last() == item@);
        if !contains_item(&kept, &item) {
            kept.push(item);
            assert(items_view(kept@) =~= before.push(item@));
        }
    }
    assert(all.take(all.len() as int) =~= all);
    proof {
        lemma_unique(all);
    }
    kept
}

/// Orders findings by location; findings at the same location keep their
/// order.
pub fn sort_by_location(items: Vec<LogItem>) -> (sorted: Vec<LogItem>)
    ensures
        items_view(sorted@) == by_location(items_view(items@)),
        ordered(items_view(sorted@)),
        items_view(sorted@).to_multiset() == items_view(items@).to_multiset(),
{
    let ghost all = items_view(items@);
    let mut sorted: Vec<LogItem> = Vec::new();
    assert(items_view(sorted@) =~= by_location(all.take(0)));
    for item in it: items
        invariant
            it.seq() == items@,
            all == items_view(items@),
            items_view(sorted@) == by_location(all.take(it.index() as int)),
    {
        let ghost before = items_view(sorted@);
        assert(all.take(it.index() + 1).drop_last() =~= all.take(it.index() as int));
        assert(all.take(it.index() + 1).last() == item@);
        let mut at: usize = sorted.len();
        assert(before.take(at as int) =~= before);
        while at > 0 && sorted[at - 1].location.comes_after(&item.location)
            invariant
                at <= sorted.len(),
                before == items_view(sorted@),
                slot(before, item@) == slot(before.take(at as int), item@),
            decreases at,
        {
            assert(before.take(at as int).drop_last() =~= before.take(at - 1));
            at -= 1;
        }
        proof {
            assert(before.take(sorted.len() as int) =~= before);
            lemma_slot(before.take(at as int), item@);
            if at > 0 {
                assert(before.take(at as int).last() == before[at - 1]);
            }
            assert(slot(before, item@) == at);
        }
        sorted.insert(at, item);
        assert(items_view(sorted@) =~= before.insert(at as int, item@));
    }
    assert(all.take(all.len() as int) =~= all);
    proof {
        lemma_by_location(all);
    }
    sorted
}

/// The list that is reported for the findings of one file: each finding
/// once, ordered by location.
pub fn report(items: Vec<LogItem>) -> (list: Vec<LogItem>)
    ensures
        items_view(list@) == reported(items_view(items@)),
        distinct(items_view(list@)),
        ordered(items_view(list@)),
        forall|x: LogItemView| items_view(list@).contains(x) <==> items_view(items@).contains(x),
{
    proof {
        lemma_unique(items_view(items@));
        lemma_by_location(unique(items_view(items@)));
    }
    sort_by_location(dedup(items))
}

} // verus!
