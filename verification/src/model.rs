//! The mathematical values that the tower's tables stand for, and searches
//! in lists of identifiers.

use crate::appointment::{AppointmentId, Locator};
use crate::ids::{TransactionId, UserId};
use vstd::prelude::*;

verus! {

/// The values that a list of items stands for, in the same order.
pub open spec fn views<T: View>(items: Seq<T>) -> Seq<T::V> {
    items.map_values(|item: T| item@)
}

/// The values of a list with one more item are the values of the list with
/// the value of the item after them.
pub proof fn lemma_views_push<T: View>(items: Seq<T>, item: T)
    ensures
        views(items.push(item)) == views(items).push(item@),
{
    assert(views(items.push(item)) =~= views(items).push(item@));
}

/// The values of two lists joined are the values of the first with the
/// values of the second after them.
pub proof fn lemma_views_add<T: View>(first: Seq<T>, second: Seq<T>)
    ensures
        views(first + second) == views(first) + views(second),
{
    assert(views(first + second) =~= views(first) + views(second));
}

/// Picking by a test what all items pass leaves the list as it is.
pub proof fn lemma_filter_all<A>(items: Seq<A>, keep: spec_fn(A) -> bool)
    requires
        forall|i: int| 0 <= i < items.len() ==> keep(#[trigger] items[i]),
    ensures
        items.filter(keep) == items,
    decreases items.len(),
{
    if items.len() == 0 {
        assert(items.filter(keep) =~= items) by {
            reveal(Seq::filter);
        }
    } else {
        let rest = items.drop_last();
        assert(items =~= rest.push(items.last()));
        rest.lemma_filter_push(items.last(), keep);
        lemma_filter_all(rest, keep);
    }
}

/// Picking twice by the same test is picking once.
pub proof fn lemma_filter_twice<A>(items: Seq<A>, keep: spec_fn(A) -> bool)
    ensures
        items.filter(keep).filter(keep) == items.filter(keep),
{
    let once = items.filter(keep);
    assert forall|i: int| 0 <= i < once.len() implies keep(#[trigger] once[i]) by {
        items.lemma_filter_pred(keep, i);
    }
    lemma_filter_all(once, keep);
}

/// Where every item gives something, what is picked of a list of items is
/// what the items give, one for one.
pub proof fn lemma_filter_map_of_all<A, B>(
    items: Seq<A>,
    pick: spec_fn(A) -> Option<B>,
    make: spec_fn(A) -> B,
)
    requires
        forall|item: A| #[trigger] pick(item) == Some(make(item)),
    ensures
        items.filter_map(pick) == items.map_values(make),
    decreases items.len(),
{
    if items.len() == 0 {
        assert(items.filter_map(pick) =~= items.map_values(make));
    } else {
        lemma_filter_map_of_all(items.drop_last(), pick, make);
        assert(items.filter_map(pick) =~= items.map_values(make));
    }
}

/// Where no item gives anything, nothing is picked of a list of items.
pub proof fn lemma_filter_map_of_none<A, B>(items: Seq<A>, pick: spec_fn(A) -> Option<B>)
    requires
        forall|i: int| 0 <= i < items.len() ==> pick(#[trigger] items[i]) is None,
    ensures
        items.filter_map(pick) == Seq::<B>::empty(),
    decreases items.len(),
{
    if items.len() > 0 {
        assert forall|i: int| 0 <= i < items.drop_last().len() implies pick(
            #[trigger] items.drop_last()[i],
        ) is None by {
            assert(items.drop_last()[i] == items[i]);
        }
        lemma_filter_map_of_none(items.drop_last(), pick);
        assert(items.last() == items[items.len() - 1]);
    }
}

/// Where nothing is picked of a list by a test, no item of the list passes
/// the test.
pub proof fn lemma_filter_empty<A>(items: Seq<A>, keep: spec_fn(A) -> bool)
    requires
        items.filter(keep).len() == 0,
    ensures
        forall|i: int| 0 <= i < items.len() ==> !keep(#[trigger] items[i]),
{
    assert forall|i: int| 0 <= i < items.len() implies !keep(#[trigger] items[i]) by {
        if keep(items[i]) {
            items.lemma_filter_contains(keep, i);
        }
    }
}

/// Whether a transaction id occurs in a list.
pub fn contains_txid(list: &Vec<TransactionId>, id: &TransactionId) -> (found: bool)
    ensures
        found == views(list@).contains(id@),
{
    let mut i: usize = 0;
    while i < list.len()
        invariant
            i <= list.len(),
            forall|j: int| 0 <= j < i ==> views(list@)[j] != id@,
        decreases list.len() - i,
    {
        if list[i] == *id {
            assert(views(list@)[i as int] == id@);
            return true;
        }
        i = i + 1;
    }
    false
}

/// Whether a user id occurs in a list.
pub fn contains_user(list: &Vec<UserId>, id: &UserId) -> (found: bool)
    ensures
        found == views(list@).contains(id@),
{
    let mut i: usize = 0;
    while i < list.len()
        invariant
            i <= list.len(),
            forall|j: int| 0 <= j < i ==> views(list@)[j] != id@,
        decreases list.len() - i,
    {
        if list[i] == *id {
            assert(views(list@)[i as int] == id@);
            return true;
        }
        i = i + 1;
    }
    false
}

/// Whether a locator occurs in a list.
pub fn contains_locator(list: &Vec<Locator>, locator: &Locator) -> (found: bool)
    ensures
        found == views(list@).contains(locator@),
{
    let mut i: usize = 0;
    while i < list.len()
        invariant
            i <= list.len(),
            forall|j: int| 0 <= j < i ==> views(list@)[j] != locator@,
        decreases list.len() - i,
    {
        if list[i] == *locator {
            assert(views(list@)[i as int] == locator@);
            return true;
        }
        i = i + 1;
    }
    false
}

/// Whether the id of an appointment occurs in a list.
pub fn contains_appointment(list: &Vec<AppointmentId>, id: &AppointmentId) -> (found: bool)
    ensures
        found == views(list@).contains(id@),
{
    let mut i: usize = 0;
    while i < list.len()
        invariant
            i <= list.len(),
            forall|j: int| 0 <= j < i ==> views(list@)[j] != id@,
        decreases list.len() - i,
    {
        if list[i] == *id {
            assert(views(list@)[i as int] == id@);
            return true;
        }
        i = i + 1;
    }
    false
}

} // verus!
