//! The objects of a document as a list in increasing order of address.

use vstd::prelude::*;
use crate::model::{id_lt, lists_map, strictly_increasing, Entry, ObjectId, ObjectModel};

verus! {

/// The objects of the map, each with its address, in increasing order of
/// address.
pub open spec fn listing(objects: Map<ObjectId, ObjectModel>) -> Seq<Entry> {
    choose|entries: Seq<Entry>| lists_map(entries, objects)
}

/// In a list that holds the objects of a map in increasing order, no address
/// of the map is higher than the last.
proof fn lemma_last_is_highest(entries: Seq<Entry>, objects: Map<ObjectId, ObjectModel>, id: ObjectId)
    requires
        lists_map(entries, objects),
        objects.contains_key(id),
    ensures
        entries.len() > 0,
        id == entries.last().0 || id_lt(id, entries.last().0),
{
    let i = choose|i: int| 0 <= i < entries.len() && #[trigger] entries[i].0 == id;
    if i < entries.len() - 1 {
        assert(id_lt(entries[i].0, entries[entries.len() - 1].0));
    }
}

/// A map has one list of its objects in increasing order of address, and no
/// other.
pub proof fn lemma_listing_unique(
    first: Seq<Entry>,
    second: Seq<Entry>,
    objects: Map<ObjectId, ObjectModel>,
)
    requires
        lists_map(first, objects),
        lists_map(second, objects),
    ensures
        first == second,
    decreases first.len(),
{
    if first.len() == 0 {
        if second.len() > 0 {
            assert(objects.contains_key(second[0].0));
            lemma_last_is_highest(first, objects, second[0].0);
        }
        assert(first =~= second);
    } else {
        let top = first.last();
        assert(objects.contains_key(first[first.len() - 1].0));
        lemma_last_is_highest(second, objects, top.0);
        let other = second.last();
        assert(objects.contains_key(second[second.len() - 1].0));
        lemma_last_is_highest(first, objects, other.0);
        assert(top.0 == other.0);
        let rest = objects.remove(top.0);
        lemma_without_last(first, objects);
        lemma_without_last(second, objects);
        lemma_listing_unique(first.drop_last(), second.drop_last(), rest);
        assert(first =~= first.drop_last().push(top));
        assert(second =~= second.drop_last().push(other));
    }
}

/// Without its last entry, a list of the objects of a map lists the map
/// without the address of that entry.
proof fn lemma_without_last(entries: Seq<Entry>, objects: Map<ObjectId, ObjectModel>)
    requires
        lists_map(entries, objects),
        entries.len() > 0,
    ensures
        lists_map(entries.drop_last(), objects.remove(entries.last().0)),
{
    let shorter = entries.drop_last();
    let top = entries.last().0;
    let rest = objects.remove(top);
    assert(strictly_increasing(shorter)) by {
        assert forall|i: int, j: int| 0 <= i < j < shorter.len() implies id_lt(
            #[trigger] shorter[i].0,
            #[trigger] shorter[j].0,
        ) by {
            assert(id_lt(entries[i].0, entries[j].0));
        }
    }
    assert forall|i: int| 0 <= i < shorter.len() implies rest.contains_key(
        #[trigger] shorter[i].0,
    ) && rest[shorter[i].0] == shorter[i].1 by {
        assert(id_lt(entries[i].0, entries[entries.len() - 1].0));
        assert(objects.contains_key(entries[i].0));
    }
    assert forall|id: ObjectId| rest.contains_key(id) implies exists|i: int|
        0 <= i < shorter.len() && #[trigger] shorter[i].0 == id by {
        let i = choose|i: int| 0 <= i < entries.len() && #[trigger] entries[i].0 == id;
        assert(i < entries.len() - 1);
        assert(shorter[i].0 == id);
    }
}

/// A list that holds the objects of a map in increasing order of address is
/// the listing of the map.
pub proof fn lemma_listing_is(entries: Seq<Entry>, objects: Map<ObjectId, ObjectModel>)
    requires
        lists_map(entries, objects),
    ensures
        listing(objects) == entries,
{
    lemma_listing_unique(listing(objects), entries, objects);
}

} // verus!
