//! The map from the ids of Workshop items to the times of their last update.

use vstd::hash_map::StringHashMap;
use vstd::prelude::*;
use vstd::string::*;

verus! {

broadcast use vstd::string::group_string_axioms;

/// The texts of a sequence of strings.
pub open spec fn names(strings: Seq<String>) -> Seq<Seq<char>> {
    Seq::new(strings.len(), |i: int| strings[i]@)
}

/// For each Workshop item id the time of the item's last update, in seconds since the
/// Unix epoch. An id occurs once.
pub struct WorkshopTimestampMap {
    ids: Vec<String>,
    times: StringHashMap<u64>,
}

impl View for WorkshopTimestampMap {
    type V = Map<Seq<char>, u64>;

    closed spec fn view(&self) -> Map<Seq<char>, u64> {
        self.times@
    }
}

impl WorkshopTimestampMap {
    /// `ids` lists the keys of `times`, each once.
    #[verifier::type_invariant]
    spec fn inv(&self) -> bool {
        &&& names(self.ids@).no_duplicates()
        &&& forall|id: Seq<char>| self.times@.contains_key(id) <==> names(self.ids@).contains(id)
    }

    /// The map without any item.
    pub fn new() -> (map: Self)
        ensures
            map@ == Map::<Seq<char>, u64>::empty(),
    {
        WorkshopTimestampMap { ids: Vec::new(), times: StringHashMap::new() }
    }

    /// Records `time` for the item `id`, in place of what was recorded for it before.
    pub fn insert(&mut self, id: &str, time: u64)
        ensures
            final(self)@ == old(self)@.insert(id@, time),
    {
        let mut taken = WorkshopTimestampMap::new();
        core::mem::swap(self, &mut taken);
        proof {
            use_type_invariant(&taken);
        }
        let WorkshopTimestampMap { mut ids, mut times } = taken;
        let ghost before = names(ids@);
        if !times.contains_key(id) {
            ids.push(id.to_owned());
            assert(names(ids@) =~= before.push(id@));
        }
        times.insert(id.to_owned(), time);
        proof {
            let after = names(ids@);
            assert forall|key: Seq<char>| times@.contains_key(key) <==> after.contains(key) by {
                if before.contains(key) {
                    let i = choose|i: int| 0 <= i < before.len() && before[i] == key;
                    assert(after[i] == key);
                }
                if after.contains(key) && key != id@ {
                    let i = choose|i: int| 0 <= i < after.len() && after[i] == key;
                }
                if key == id@ && !before.contains(key) {
                    assert(after[after.len() - 1] == key);
                }
            }
        }
        *self = WorkshopTimestampMap { ids, times };
    }

    /// The time recorded for the item `id`, if there is one.
    pub fn get(&self, id: &str) -> (time: Option<u64>)
        ensures
            time == if self@.contains_key(id@) {
                Some(self@[id@])
            } else {
                None
            },
    {
        match self.times.get(id) {
            Some(time) => Some(*time),
            None => None,
        }
    }

    /// The number of items.
    pub fn len(&self) -> (n: usize)
        ensures
            n == self@.dom().len(),
            self@.dom().finite(),
    {
        proof {
            use_type_invariant(self);
            let listed = names(self.ids@);
            listed.unique_seq_to_set();
            assert(listed.to_set() =~= self@.dom());
        }
        self.ids.len()
    }

    /// Whether there is no item.
    pub fn is_empty(&self) -> (empty: bool)
        ensures
            empty == (self@ == Map::<Seq<char>, u64>::empty()),
    {
        proof {
            use_type_invariant(self);
            let listed = names(self.ids@);
            if listed.len() > 0 {
                assert(listed.contains(listed[0]));
            } else {
                assert(self@ =~= Map::<Seq<char>, u64>::empty());
            }
        }
        self.ids.len() == 0
    }

    /// The ids of the items, each once, in no order that is promised.
    pub fn ids(&self) -> (ids: &Vec<String>)
        ensures
            names(ids@).no_duplicates(),
            forall|id: Seq<char>| names(ids@).contains(id) <==> self@.contains_key(id),
    {
        proof {
            use_type_invariant(self);
        }
        &self.ids
    }
}

} // verus!
