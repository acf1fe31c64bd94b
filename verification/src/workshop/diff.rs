//! Telling which installed items were updated: those whose update time elsewhere is
//! later than the one recorded here.

use crate::workshop::timestamps::{names, WorkshopTimestampMap};
use vstd::prelude::*;
use vstd::string::*;

verus! {

broadcast use vstd::string::group_string_axioms;

/// Whether the item `id`, last updated elsewhere at `remote_time`, is an update of what
/// `local` records: `local` knows the item, with an earlier time.
pub open spec fn is_update(local: Map<Seq<char>, u64>, id: Seq<char>, remote_time: u64) -> bool {
    local.contains_key(id) && remote_time > local[id]
}

/// The ids of the items of `remote` that are updates of what `local` records.
pub open spec fn updated(local: Map<Seq<char>, u64>, remote: Map<Seq<char>, u64>) -> Set<
    Seq<char>,
> {
    Set::new(|id: Seq<char>| remote.contains_key(id) && is_update(local, id, remote[id]))
}

/// An item is among the updated ones exactly if both sides know it and its time in
/// `remote` is later than its time in `local`; an equal or earlier time never counts.
pub proof fn lemma_updated_iff_later(
    local: Map<Seq<char>, u64>,
    remote: Map<Seq<char>, u64>,
    id: Seq<char>,
)
    ensures
        updated(local, remote).contains(id) <==> local.contains_key(id) && remote.contains_key(id)
            && remote[id] > local[id],
{
}

/// Whatever else the two sides record: an item with the time `local_time` here and the
/// time `remote_time` there is among the updated ones exactly if `remote_time` is the
/// later one.
pub proof fn lemma_later_time_decides(
    local: Map<Seq<char>, u64>,
    remote: Map<Seq<char>, u64>,
    id: Seq<char>,
    local_time: u64,
    remote_time: u64,
)
    ensures
        is_update(local.insert(id, local_time), id, remote_time) <==> remote_time > local_time,
        updated(local.insert(id, local_time), remote.insert(id, remote_time)).contains(id)
            <==> remote_time > local_time,
{
}

/// An item that `local` does not know is never among the updated ones, whatever its
/// time in `remote`.
pub proof fn lemma_unknown_is_never_updated(
    local: Map<Seq<char>, u64>,
    remote: Map<Seq<char>, u64>,
    id: Seq<char>,
    remote_time: u64,
)
    requires
        !local.contains_key(id),
    ensures
        !is_update(local, id, remote_time),
        !updated(local, remote).contains(id),
        !updated(local, remote.insert(id, remote_time)).contains(id),
{
}

/// Where `local` records nothing, nothing is updated.
pub proof fn lemma_nothing_known_nothing_updated(remote: Map<Seq<char>, u64>)
    ensures
        updated(Map::<Seq<char>, u64>::empty(), remote) == Set::<Seq<char>>::empty(),
{
}

/// Tells whether the item `id`, last updated elsewhere at `remote_time`, is an update
/// of what `local` records.
pub fn needs_update(local: &WorkshopTimestampMap, id: &str, remote_time: u64) -> (update: bool)
    ensures
        update == is_update(local@, id@, remote_time),
{
    match local.get(id) {
        Some(local_time) => remote_time > local_time,
        None => false,
    }
}

/// The ids of the items of `remote` that are updates of what `local` records, each
/// once, in no order that is promised.
pub fn diff(local: &WorkshopTimestampMap, remote: &WorkshopTimestampMap) -> (ids: Vec<String>)
    ensures
        names(ids@).no_duplicates(),
        names(ids@).to_set() == updated(local@, remote@),
{
    let all = remote.ids();
    let mut ids: Vec<String> = Vec::new();
    let mut i: usize = 0;
    while i < all.len()
        invariant
            i <= all.len(),
            names(all@).no_duplicates(),
            forall|id: Seq<char>| names(all@).contains(id) <==> remote@.contains_key(id),
            names(ids@).no_duplicates(),
            forall|id: Seq<char>|
                names(ids@).contains(id) <==> names(all@).take(i as int).contains(id)
                    && updated(local@, remote@).contains(id),
        decreases all.len() - i,
    {
        let ghost listed = names(all@);
        let ghost seen = listed.take(i as int);
        let ghost chosen = names(ids@);
        let id = all[i].as_str();
        proof {
            assert(listed[i as int] == id@);
            assert(listed.contains(id@));
            assert(listed.take(i + 1) =~= seen.push(id@));
            if seen.contains(id@) {
                let k = choose|k: int| 0 <= k < i && seen[k] == id@;
                assert(listed[k] == listed[i as int]);
            }
        }
        let time = match remote.get(id) {
            Some(time) => time,
            None => 0,
        };
        let update = needs_update(local, id, time);
        if update {
            ids.push(id.to_owned());
            proof {
                assert(names(ids@) =~= chosen.push(id@));
                lemma_push_new(chosen, id@);
            }
        }
        proof {
            assert forall|key: Seq<char>|
                names(ids@).contains(key) <==> seen.push(id@).contains(key) && updated(
                    local@,
                    remote@,
                ).contains(key) by {
                lemma_push_contains(seen, id@, key);
                if update {
                    lemma_push_contains(chosen, id@, key);
                }
            }
        }
        i = i + 1;
    }
    assert(names(all@).take(i as int) =~= names(all@));
    ids
}

/// A sequence without duplicates stays so when an element that it does not hold is
/// put at its end.
pub proof fn lemma_push_new<A>(s: Seq<A>, last: A)
    requires
        s.no_duplicates(),
        !s.contains(last),
    ensures
        s.push(last).no_duplicates(),
{
    assert forall|a: int, b: int| 0 <= a < b < s.push(last).len() implies s.push(last)[a]
        != s.push(last)[b] by {
        if b == s.len() {
            assert(s.contains(s[a]));
        }
    }
}

/// What a sequence holds after one more element was put at its end.
pub proof fn lemma_push_contains<A>(s: Seq<A>, last: A, x: A)
    ensures
        s.push(last).contains(x) <==> s.contains(x) || x == last,
{
    if s.contains(x) {
        let k = choose|k: int| 0 <= k < s.len() && s[k] == x;
        assert(s.push(last)[k] == x);
    }
    if x == last {
        assert(s.push(last)[s.len() as int] == x);
    }
    if s.push(last).contains(x) {
        let k = choose|k: int| 0 <= k < s.push(last).len() && s.push(last)[k] == x;
        if k < s.len() {
            assert(s[k] == x);
        }
    }
}

} // verus!
