//! Reading the installed Workshop items out of a parsed document.
//!
//! Among the entries of the document, every collection named `WorkshopItemsInstalled`
//! lists installed items: each entry of it that is a collection stands for one item,
//! named by the item's id. The time of the item's last update is the value of the
//! first pair named `timeupdated` in it, a decimal number. An item without such a pair
//! is passed over; an item whose update time is no number makes the whole reading
//! fail.

use crate::acf::value::{trees, AcfTree, AcfValue};
use crate::number::{decimal_u64, parse_u64};
use crate::text::same_text;
use crate::workshop::timestamps::WorkshopTimestampMap;
use vstd::prelude::*;
use vstd::string::*;

verus! {

broadcast use vstd::string::group_string_axioms;

/// An installed item whose update time is no number.
#[derive(Debug, Clone, PartialEq, Eq)]
pub struct ExtractError {
    /// The id of the item.
    pub id: String,
    /// What stands in place of its update time.
    pub value: String,
}

/// What an [`ExtractError`] stands for.
pub struct BadTimestamp {
    pub id: Seq<char>,
    pub value: Seq<char>,
}

impl View for ExtractError {
    type V = BadTimestamp;

    open spec fn view(&self) -> BadTimestamp {
        BadTimestamp { id: self.id@, value: self.value@ }
    }
}

/// What a failure is called in words.
pub open spec fn failure_text(bad: BadTimestamp) -> Seq<char> {
    "the update time of the workshop item "@ + bad.id + " is no number: "@ + bad.value
}

impl ExtractError {
    /// Which item has which update time that is no number, in words.
    pub fn message(&self) -> (text: String)
        ensures
            text@ == failure_text(self@),
    {
        let mut text = String::new();
        text.append("the update time of the workshop item ");
        text.append(self.id.as_str());
        text.append(" is no number: ");
        text.append(self.value.as_str());
        text
    }
}

/// The name of the collections that list installed items.
pub open spec fn installed_key() -> Seq<char> {
    "WorkshopItemsInstalled"@
}

/// The name of the pair that holds an item's update time.
pub open spec fn time_key() -> Seq<char> {
    "timeupdated"@
}

/// Whether `tree` is a pair named `timeupdated`.
pub open spec fn is_time_pair(tree: AcfTree) -> bool {
    tree matches AcfTree::Pair(key, _) && key == time_key()
}

/// The value of the first pair named `timeupdated` among `fields`, if there is one.
pub open spec fn update_time(fields: Seq<AcfTree>) -> Option<Seq<char>>
    decreases fields.len(),
{
    if fields.len() == 0 {
        None
    } else if is_time_pair(fields.first()) {
        Some(fields.first()->Pair_1)
    } else {
        update_time(fields.drop_first())
    }
}

/// The id and the update time that `item` records, if it is a collection that holds
/// an update time.
pub open spec fn recorded(item: AcfTree) -> Option<(Seq<char>, Seq<char>)> {
    match item {
        AcfTree::Collection(id, fields) => match update_time(fields) {
            Some(value) => Some((id, value)),
            None => None,
        },
        _ => None,
    }
}

/// Whether `tree` is a collection named `WorkshopItemsInstalled`.
pub open spec fn lists_installed_items(tree: AcfTree) -> bool {
    tree matches AcfTree::Collection(name, _) && name == installed_key()
}

/// The entries that `tree` lists as installed items: its entries if it is a collection
/// named `WorkshopItemsInstalled`, none otherwise.
pub open spec fn listed(tree: AcfTree) -> Seq<AcfTree> {
    if lists_installed_items(tree) {
        tree->Collection_1
    } else {
        Seq::empty()
    }
}

/// All that the entries `content` of a document list as installed items, in the order
/// of the document.
pub open spec fn installed_items(content: Seq<AcfTree>) -> Seq<AcfTree>
    decreases content.len(),
{
    if content.len() == 0 {
        Seq::empty()
    } else {
        installed_items(content.drop_last()) + listed(content.last())
    }
}

/// The update times that `items` record, read one item after the other: a later item
/// replaces an earlier one of the same id, and the first item whose update time is no
/// number ends the reading.
pub open spec fn timestamps(items: Seq<AcfTree>) -> Result<Map<Seq<char>, u64>, BadTimestamp>
    decreases items.len(),
{
    if items.len() == 0 {
        Ok(Map::empty())
    } else {
        match timestamps(items.drop_last()) {
            Err(bad) => Err(bad),
            Ok(map) => match recorded(items.last()) {
                None => Ok(map),
                Some((id, value)) => match decimal_u64(value) {
                    Some(time) => Ok(map.insert(id, time)),
                    None => Err(BadTimestamp { id, value }),
                },
            },
        }
    }
}

/// The update times of the installed items of a document with the entries `content`.
pub open spec fn workshop_timestamps(content: Seq<AcfTree>) -> Result<
    Map<Seq<char>, u64>,
    BadTimestamp,
> {
    timestamps(installed_items(content))
}

/// Whether `outcome` is what reading the entries `content` of a document gives.
pub open spec fn is_extraction(
    content: Seq<AcfTree>,
    outcome: Result<WorkshopTimestampMap, ExtractError>,
) -> bool {
    match outcome {
        Ok(map) => workshop_timestamps(content) == Ok::<Map<Seq<char>, u64>, BadTimestamp>(map@),
        Err(bad) => workshop_timestamps(content) == Err::<Map<Seq<char>, u64>, BadTimestamp>(
            bad@,
        ),
    }
}

/// Reading the same entries twice gives the same: both times the same map, or both
/// times the same failure.
pub proof fn lemma_extraction_is_repeatable(
    content: Seq<AcfTree>,
    first: Result<WorkshopTimestampMap, ExtractError>,
    second: Result<WorkshopTimestampMap, ExtractError>,
)
    requires
        is_extraction(content, first),
        is_extraction(content, second),
    ensures
        match (first, second) {
            (Ok(a), Ok(b)) => a@ == b@,
            (Err(a), Err(b)) => a@ == b@,
            _ => false,
        },
{
}

/// A document without a collection named `WorkshopItemsInstalled` among its entries
/// gives the empty map, and no failure.
pub proof fn lemma_nothing_listed_nothing_read(content: Seq<AcfTree>)
    requires
        forall|i: int| 0 <= i < content.len() ==> !lists_installed_items(#[trigger] content[i]),
    ensures
        installed_items(content) == Seq::<AcfTree>::empty(),
        workshop_timestamps(content) == Ok::<Map<Seq<char>, u64>, BadTimestamp>(Map::empty()),
    decreases content.len(),
{
    if content.len() > 0 {
        lemma_nothing_listed_nothing_read(content.drop_last());
    }
}

/// Whether `item` records an update time for the id `id`.
pub open spec fn records(item: AcfTree, id: Seq<char>) -> bool {
    recorded(item) matches Some((name, _)) && name == id
}

/// The update time that `item` records, if it records one and that is a number.
pub open spec fn recorded_time(item: AcfTree) -> Option<u64> {
    match recorded(item) {
        Some((_, value)) => decimal_u64(value),
        None => None,
    }
}

/// The id for which `item` records an update time, if it records one.
pub open spec fn recorded_id(item: AcfTree) -> Seq<char> {
    match recorded(item) {
        Some((id, _)) => id,
        None => Seq::empty(),
    }
}

/// Whether what `item` records, if anything, is a number.
pub open spec fn readable(item: AcfTree) -> bool {
    recorded(item) matches Some((_, value)) ==> decimal_u64(value) is Some
}

/// Whether `items[k]` is the last of `items` that records an update time for `id`.
pub open spec fn is_last_record(items: Seq<AcfTree>, k: int, id: Seq<char>) -> bool {
    &&& 0 <= k < items.len()
    &&& records(items[k], id)
    &&& forall|later: int| k < later < items.len() ==> !records(#[trigger] items[later], id)
}

/// Whether `items[k]` is the first of `items` that is not readable.
pub open spec fn is_first_unreadable(items: Seq<AcfTree>, k: int) -> bool {
    &&& 0 <= k < items.len()
    &&& !readable(items[k])
    &&& forall|j: int| 0 <= j < k ==> readable(#[trigger] items[j])
}

/// What the reading of `items` gives, item by item.
///
/// It fails exactly if some item records an update time that is no number, and then
/// names the first such item. Otherwise the map holds exactly the ids for which some
/// item records an update time, each with the time of the last item that records one
/// for it.
pub proof fn lemma_timestamps_item_by_item(items: Seq<AcfTree>)
    ensures
        timestamps(items) is Ok <==> forall|k: int|
            0 <= k < items.len() ==> readable(#[trigger] items[k]),
        timestamps(items) matches Ok(map) ==> forall|id: Seq<char>|
            map.contains_key(id) <==> exists|k: int|
                0 <= k < items.len() && #[trigger] records(items[k], id),
        timestamps(items) matches Ok(map) ==> forall|k: int, id: Seq<char>| #[trigger]
            is_last_record(items, k, id) ==> Some(map[id]) == recorded_time(items[k]),
        timestamps(items) matches Err(bad) ==> exists|k: int| #[trigger]
            is_first_unreadable(items, k) && recorded(items[k]) == Some((bad.id, bad.value)),
    decreases items.len(),
{
    if items.len() > 0 {
        let front = items.drop_last();
        let last = items.last();
        let n = front.len() as int;
        lemma_timestamps_item_by_item(front);
        assert forall|k: int| 0 <= k < n implies front[k] == items[k] by {}
        match timestamps(front) {
            Err(bad) => {
                let k = choose|k: int| #[trigger]
                    is_first_unreadable(front, k) && recorded(front[k]) == Some(
                        (bad.id, bad.value),
                    );
                assert(items[k] == front[k]);
                assert forall|j: int| 0 <= j < k implies readable(#[trigger] items[j]) by {
                    assert(front[j] == items[j]);
                }
                assert(is_first_unreadable(items, k));
            },
            Ok(map) => {
                assert forall|k: int| 0 <= k < n implies readable(#[trigger] items[k]) by {
                    assert(front[k] == items[k]);
                }
                let grown = match recorded_time(last) {
                    Some(time) => map.insert(recorded_id(last), time),
                    None => map,
                };
                if !readable(last) {
                    assert(is_first_unreadable(items, n));
                } else {
                    assert(timestamps(items) == Ok::<Map<Seq<char>, u64>, BadTimestamp>(grown));
                    assert forall|id: Seq<char>|
                        grown.contains_key(id) <==> exists|k: int|
                            0 <= k < items.len() && #[trigger] records(items[k], id) by {
                        if records(last, id) {
                            assert(records(items[n], id));
                        }
                        if map.contains_key(id) {
                            let k = choose|k: int|
                                0 <= k < front.len() && #[trigger] records(front[k], id);
                            assert(records(items[k], id));
                        }
                        if exists|k: int| 0 <= k < items.len() && #[trigger] records(items[k], id) {
                            let k = choose|k: int|
                                0 <= k < items.len() && #[trigger] records(items[k], id);
                            if k < n {
                                assert(records(front[k], id));
                            }
                        }
                    }
                    assert forall|k: int, id: Seq<char>| #[trigger]
                        is_last_record(items, k, id) implies Some(grown[id]) == recorded_time(
                        items[k],
                    ) by {
                        if k < n {
                            assert(!records(items[n], id));
                            assert forall|later: int| k < later < front.len() implies !records(
                                #[trigger] front[later],
                                id,
                            ) by {
                                assert(front[later] == items[later]);
                            }
                            assert(is_last_record(front, k, id));
                        }
                    }
                }
            },
        }
    }
}

/// The installed items of a document are those of its first entries followed by those
/// of the others.
pub proof fn lemma_installed_items_concat(front: Seq<AcfTree>, back: Seq<AcfTree>)
    ensures
        installed_items(front + back) == installed_items(front) + installed_items(back),
    decreases back.len(),
{
    if back.len() > 0 {
        assert((front + back).drop_last() =~= front + back.drop_last());
        lemma_installed_items_concat(front, back.drop_last());
    }
}

/// Once the reading has failed, further items change nothing.
pub proof fn lemma_failure_is_final(items: Seq<AcfTree>, more: Seq<AcfTree>)
    requires
        timestamps(items) is Err,
    ensures
        timestamps(items + more) == timestamps(items),
    decreases more.len(),
{
    if more.len() > 0 {
        assert((items + more).drop_last() =~= items + more.drop_last());
        lemma_failure_is_final(items, more.drop_last());
    }
}

/// Whether `value` is the pair named `timeupdated`.
fn is_time_field(value: &AcfValue<'_>) -> (found: bool)
    ensures
        found == is_time_pair(value@),
{
    match value {
        AcfValue::Pair(key, _) => same_text(key, "timeupdated"),
        _ => false,
    }
}

/// The value of the first pair named `timeupdated` among `fields`.
fn find_update_time<'a>(fields: &Vec<AcfValue<'a>>) -> (value: Option<&'a str>)
    ensures
        match value {
            Some(text) => update_time(trees(fields@)) == Some(text@),
            None => update_time(trees(fields@)) is None,
        },
{
    let ghost all = trees(fields@);
    let mut i: usize = 0;
    assert(all.skip(0) =~= all);
    while i < fields.len()
        invariant
            i <= fields.len(),
            all == trees(fields@),
            update_time(all) == update_time(all.skip(i as int)),
        decreases fields.len() - i,
    {
        proof {
            assert(all.skip(i as int).drop_first() =~= all.skip(i + 1));
        }
        if is_time_field(&fields[i]) {
            match &fields[i] {
                AcfValue::Pair(_, value) => {
                    return Some(*value);
                },
                _ => {},
            }
        }
        i = i + 1;
    }
    None
}

/// Reads the update times that `items` record into `map`, which holds what the items
/// `read` before them record.
fn read_items(
    items: &Vec<AcfValue<'_>>,
    map: &mut WorkshopTimestampMap,
    Ghost(read): Ghost<Seq<AcfTree>>,
) -> (r: Result<(), ExtractError>)
    requires
        timestamps(read) == Ok::<Map<Seq<char>, u64>, BadTimestamp>(old(map)@),
    ensures
        match r {
            Ok(()) => timestamps(read + trees(items@)) == Ok::<Map<Seq<char>, u64>, BadTimestamp>(
                final(map)@,
            ),
            Err(bad) => timestamps(read + trees(items@)) == Err::<
                Map<Seq<char>, u64>,
                BadTimestamp,
            >(bad@),
        },
{
    let ghost list = trees(items@);
    let mut k: usize = 0;
    while k < items.len()
        invariant
            k <= items.len(),
            list == trees(items@),
            timestamps(read + list.take(k as int)) == Ok::<Map<Seq<char>, u64>, BadTimestamp>(
                map@,
            ),
        decreases items.len() - k,
    {
        proof {
            let next = read + list.take(k + 1);
            assert(next.drop_last() =~= read + list.take(k as int));
        }
        match &items[k] {
            AcfValue::Collection(id, fields) => {
                assert(items@[k as int]@->Collection_1 =~= trees(fields@));
                match find_update_time(fields) {
                    Some(value) => match parse_u64(value) {
                        Some(time) => {
                            map.insert(id, time);
                        },
                        None => {
                            proof {
                                assert(read + list =~= read + list.take(k + 1) + list.skip(k + 1));
                                lemma_failure_is_final(read + list.take(k + 1), list.skip(k + 1));
                            }
                            return Err(
                                ExtractError { id: (*id).to_owned(), value: value.to_owned() },
                            );
                        },
                    },
                    None => {},
                }
            },
            _ => {},
        }
        k = k + 1;
    }
    assert(list.take(k as int) =~= list);
    Ok(())
}

/// Reads the update times of the installed Workshop items out of `content`, the entries
/// of a parsed document.
///
/// Gives the map from item id to update time; the empty map where the document lists
/// no installed items. Fails on the first item, in the order of the document, whose
/// update time is no decimal number that fits in a `u64`.
pub fn extract_workshop(content: Vec<AcfValue<'_>>) -> (r: Result<
    WorkshopTimestampMap,
    ExtractError,
>)
    ensures
        is_extraction(trees(content@), r),
{
    let ghost all = trees(content@);
    let mut map = WorkshopTimestampMap::new();
    let mut i: usize = 0;
    while i < content.len()
        invariant
            i <= content.len(),
            all == trees(content@),
            timestamps(installed_items(all.take(i as int))) == Ok::<
                Map<Seq<char>, u64>,
                BadTimestamp,
            >(map@),
        decreases content.len() - i,
    {
        let ghost read = installed_items(all.take(i as int));
        proof {
            assert(all.take(i + 1).drop_last() =~= all.take(i as int));
        }
        match &content[i] {
            AcfValue::Collection(name, items) => {
                if same_text(name, "WorkshopItemsInstalled") {
                    assert(listed(content@[i as int]@) =~= trees(items@));
                    match read_items(items, &mut map, Ghost(read)) {
                        Ok(()) => {},
                        Err(bad) => {
                            proof {
                                assert(all =~= all.take(i + 1) + all.skip(i + 1));
                                lemma_installed_items_concat(all.take(i + 1), all.skip(i + 1));
                                lemma_failure_is_final(
                                    installed_items(all.take(i + 1)),
                                    installed_items(all.skip(i + 1)),
                                );
                            }
                            return Err(bad);
                        },
                    }
                }
            },
            _ => {},
        }
        i = i + 1;
    }
    assert(all.take(i as int) =~= all);
    Ok(map)
}

} // verus!
