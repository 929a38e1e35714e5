//! The identifier renumbering pass: every input gets a range of object
//! numbers of its own, after those of the inputs before it.

use vstd::prelude::*;
use crate::document::{
    document_model, flat_bookmarks, numbered_from, object_count, renumber_from, renumbered,
};
use crate::model::{DocumentModel, ObjectId};

verus! {

/// The models of a list of documents.
pub open spec fn document_models(documents: Seq<lopdf::Document>) -> Seq<DocumentModel> {
    documents.map_values(|document: lopdf::Document| document_model(document))
}

/// The number of objects in all the documents together.
pub open spec fn total_objects(documents: Seq<DocumentModel>) -> nat
    decreases documents.len(),
{
    if documents.len() == 0 {
        0
    } else {
        total_objects(documents.drop_last()) + documents.last().objects.len()
    }
}

/// The first number that the document at position `i` may use: 1 for the
/// first document; for each later one, the number after the highest that the
/// document before it was given.
pub open spec fn floor_before(documents: Seq<DocumentModel>, i: int) -> int
    decreases i,
{
    if i <= 0 {
        1
    } else {
        renumbered(documents[i - 1], floor_before(documents, i - 1) as u32).max_id + 1
    }
}

/// The document at position `i`, renumbered from its floor.
pub open spec fn renumbered_at(documents: Seq<DocumentModel>, i: int) -> DocumentModel {
    renumbered(documents[i], floor_before(documents, i) as u32)
}

/// Every document, renumbered from its floor.
pub open spec fn renumbered_all(documents: Seq<DocumentModel>) -> Seq<DocumentModel> {
    Seq::new(documents.len(), |i: int| renumbered_at(documents, i))
}

/// The object numbers of the documents fit the counters of the store: no
/// document has more objects than a signed 32-bit counter holds, and all
/// together there are fewer than the highest 32-bit number.
pub open spec fn numbering_fits(documents: Seq<DocumentModel>) -> bool {
    &&& total_objects(documents) < u32::MAX
    &&& forall|i: int|
        0 <= i < documents.len() ==> (#[trigger] documents[i]).objects.len() <= i32::MAX
}

/// In every document, every top-level bookmark is in the table and has no
/// children. A document that was loaded has no bookmarks at all.
pub open spec fn all_flat(documents: Seq<DocumentModel>) -> bool {
    forall|i: int| 0 <= i < documents.len() ==> flat_bookmarks(#[trigger] documents[i])
}

/// No two documents share an object number: each number of an earlier
/// document is below each number of a later one.
pub open spec fn numbered_apart(documents: Seq<DocumentModel>) -> bool {
    forall|i: int, j: int, a: ObjectId, b: ObjectId|
        0 <= i < j < documents.len() && #[trigger] documents[i].objects.contains_key(a)
            && #[trigger] documents[j].objects.contains_key(b) ==> a.0 < b.0
}

/// No document has gained an object, and each has finitely many.
pub open spec fn none_grown(before: Seq<DocumentModel>, after: Seq<DocumentModel>) -> bool {
    &&& after.len() == before.len()
    &&& forall|i: int|
        0 <= i < after.len() ==> (#[trigger] after[i]).objects.dom().finite()
            && after[i].objects.len() <= before[i].objects.len()
}

/// The objects of the first documents are no more than those of all.
pub proof fn lemma_total_objects_prefix(documents: Seq<DocumentModel>, count: int)
    requires
        0 <= count <= documents.len(),
    ensures
        total_objects(documents.take(count)) <= total_objects(documents),
    decreases documents.len() - count,
{
    if count == documents.len() {
        assert(documents.take(count) =~= documents);
    } else {
        lemma_total_objects_prefix(documents, count + 1);
        assert(documents.take(count + 1).drop_last() =~= documents.take(count));
    }
}

/// Where no document has gained an object, all together have gained none.
pub proof fn lemma_total_objects_not_grown(before: Seq<DocumentModel>, after: Seq<DocumentModel>)
    requires
        none_grown(before, after),
    ensures
        total_objects(after) <= total_objects(before),
    decreases before.len(),
{
    if before.len() > 0 {
        assert(after.last() == after[after.len() - 1]);
        assert(before.last() == before[before.len() - 1]);
        assert forall|i: int| 0 <= i < after.drop_last().len() implies (
        #[trigger] after.drop_last()[i]).objects.dom().finite() && after.drop_last()[i].objects.len()
            <= before.drop_last()[i].objects.len() by {
            assert(after.drop_last()[i] == after[i]);
        }
        lemma_total_objects_not_grown(before.drop_last(), after.drop_last());
    }
}

/// Renumbers every document, in order, from the number after the highest
/// that the document before it was given; the first from 1.
pub fn renumber_documents(documents: &mut Vec<lopdf::Document>)
    requires
        numbering_fits(document_models(old(documents)@)),
        all_flat(document_models(old(documents)@)),
    ensures
        document_models(final(documents)@) == renumbered_all(document_models(old(documents)@)),
        numbered_apart(document_models(final(documents)@)),
        none_grown(document_models(old(documents)@), document_models(final(documents)@)),
{
    let ghost before = document_models(documents@);
    let mut floor: u32 = 1;
    let mut i: usize = 0;
    while i < documents.len()
        invariant
            i <= documents.len(),
            documents.len() == before.len(),
            numbering_fits(before),
            all_flat(before),
            floor == floor_before(before, i as int),
            1 <= floor <= 1 + total_objects(before.take(i as int)),
            forall|j: int|
                0 <= j < i ==> #[trigger] document_model(documents@[j]) == renumbered_at(
                    before,
                    j,
                ),
            forall|j: int|
                i <= j < documents.len() ==> #[trigger] document_model(documents@[j])
                    == before[j],
            forall|j: int, a: ObjectId|
                0 <= j < i && #[trigger] document_model(documents@[j]).objects.contains_key(a)
                    ==> a.0 < floor,
            forall|j: int, k: int, a: ObjectId, b: ObjectId|
                0 <= j < k < i && #[trigger] document_model(documents@[j]).objects.contains_key(
                    a,
                ) && #[trigger] document_model(documents@[k]).objects.contains_key(b) ==> a.0
                    < b.0,
            forall|j: int|
                0 <= j < i ==> (#[trigger] document_model(documents@[j])).objects.dom().finite()
                    && document_model(documents@[j]).objects.len() <= before[j].objects.len(),
        decreases documents.len() - i,
    {
        proof {
            lemma_total_objects_prefix(before, i + 1);
            assert(before.take(i + 1).drop_last() =~= before.take(i as int));
            assert(before.take(i + 1).last() == before[i as int]);
            assert(document_model(documents@[i as int]) == before[i as int]);
        }
        let ghost earlier = documents@;
        let count = object_count(&documents[i]);
        let max_id = renumber_from(&mut documents[i], floor);
        proof {
            assert(documents@ == earlier.update(i as int, documents@[i as int]));
            assert(document_model(documents@[i as int]) == renumbered_at(before, i as int));
            assert(numbered_from(before[i as int], document_model(documents@[i as int]), floor));
            assert forall|j: int| 0 <= j < i implies #[trigger] document_model(documents@[j])
                == renumbered_at(before, j) by {
                assert(documents@[j] == earlier[j]);
            }
            assert forall|j: int| i + 1 <= j < documents.len() implies #[trigger] document_model(
                documents@[j],
            ) == before[j] by {
                assert(documents@[j] == earlier[j]);
            }
        }
        floor = max_id + 1;
        i += 1;
    }
    proof {
        let after = document_models(documents@);
        assert(after =~= renumbered_all(before));
        assert forall|j: int, k: int, a: ObjectId, b: ObjectId|
            0 <= j < k < after.len() && #[trigger] after[j].objects.contains_key(a)
                && #[trigger] after[k].objects.contains_key(b) implies a.0 < b.0 by {
            assert(after[j] == document_model(documents@[j]));
            assert(after[k] == document_model(documents@[k]));
        }
        assert forall|j: int| 0 <= j < after.len() implies (#[trigger] after[j]).objects.dom().finite()
            && after[j].objects.len() <= before[j].objects.len() by {
            assert(after[j] == document_model(documents@[j]));
        }
    }
}

} // verus!
