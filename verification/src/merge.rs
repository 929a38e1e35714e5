//! The merge of several documents into one.

use vstd::prelude::*;
use crate::bookmark::bookmark_views;
use crate::bounds::lemma_assembled_size;
use crate::collect::{all_objects, all_pages, gather, planned_bookmarks};
use crate::document::{
    bookmark_children, document_model, entries_model, flat_bookmarks, object_count, top_bookmarks,
};
use crate::finalizer::{assemble, assembled, MergeError};
use crate::finish::{counted, finish, finished, settled};
use crate::document::renumbered;
use crate::laws::well_gathered;
use crate::model::DocumentModel;
use crate::renumber::{
    all_flat, document_models, lemma_total_objects_not_grown, lemma_total_objects_prefix,
    renumber_documents, renumbered_all, total_objects,
};

verus! {

/// The documents are within what the counters of the store can number: for
/// every object two numbers, for every document two more, and three.
pub open spec fn within_capacity(documents: Seq<DocumentModel>) -> bool {
    2 * total_objects(documents) + 2 * documents.len() + 3 <= i32::MAX
}

/// The documents can be merged: they are within the capacity of the store,
/// and no top-level bookmark of any of them has children.
pub open spec fn mergeable(documents: Seq<DocumentModel>) -> bool {
    within_capacity(documents) && all_flat(documents)
}

/// What is put together from the documents, before the last steps: the
/// documents are renumbered, each after the one before it, and their
/// objects, pages and bookmarks are gathered.
pub open spec fn put_together(documents: Seq<DocumentModel>) -> Result<
    DocumentModel,
    MergeError,
> {
    let parts = renumbered_all(documents);
    assembled(all_objects(parts), all_pages(parts), planned_bookmarks(parts))
}

/// The merged document, or the reason why there is none: the documents are
/// renumbered, each after the one before it; what they hold is put together;
/// and the result is taken through the last steps.
pub open spec fn merged(documents: Seq<DocumentModel>) -> Result<DocumentModel, MergeError> {
    match put_together(documents) {
        Ok(document) => Ok(finished(document)),
        Err(error) => Err(error),
    }
}

/// The documents that were loaded, in the order of the attempts.
pub open spec fn loaded(attempts: Seq<Option<lopdf::Document>>) -> Seq<lopdf::Document>
    decreases attempts.len(),
{
    if attempts.len() == 0 {
        Seq::empty()
    } else {
        match attempts.last() {
            Some(document) => loaded(attempts.drop_last()).push(document),
            None => loaded(attempts.drop_last()),
        }
    }
}

/// No document has more objects than all have together.
pub proof fn lemma_total_objects_bounds_each(documents: Seq<DocumentModel>, i: int)
    requires
        0 <= i < documents.len(),
    ensures
        documents[i].objects.len() <= total_objects(documents),
{
    lemma_total_objects_prefix(documents, i + 1);
    assert(documents.take(i + 1).last() == documents[i]);
}

/// Whether the documents are within what the counters of the store can
/// number.
pub fn fits_capacity(documents: &Vec<lopdf::Document>) -> (fits: bool)
    ensures
        fits == within_capacity(document_models(documents@)),
{
    let ghost models = document_models(documents@);
    let limit: usize = 0x7fff_ffff;
    if documents.len() > limit {
        return false;
    }
    let mut total: usize = 0;
    let mut i: usize = 0;
    while i < documents.len()
        invariant
            i <= documents.len(),
            documents.len() <= limit,
            limit == 0x7fff_ffff,
            models == document_models(documents@),
            total == total_objects(models.take(i as int)),
            total <= limit,
        decreases documents.len() - i,
    {
        let count = object_count(&documents[i]);
        proof {
            assert(models.take(i + 1).drop_last() =~= models.take(i as int));
            assert(models.take(i + 1).last() == models[i as int]);
            assert(models[i as int] == document_model(documents@[i as int]));
            lemma_total_objects_prefix(models, i + 1);
        }
        if count > limit - total {
            return false;
        }
        total = total + count;
        i += 1;
    }
    assert(models.take(i as int) =~= models);
    total <= (limit - 3) / 2 && documents.len() <= (limit - 3 - 2 * total) / 2
}

/// Whether every top-level bookmark of the document is in the table and has
/// no children.
pub fn has_flat_bookmarks(document: &lopdf::Document) -> (flat: bool)
    ensures
        flat == flat_bookmarks(document_model(*document)),
{
    let ids = top_bookmarks(document);
    let ghost model = document_model(*document);
    let mut i: usize = 0;
    while i < ids.len()
        invariant
            i <= ids.len(),
            model == document_model(*document),
            ids@ == model.bookmarks,
            forall|j: int|
                0 <= j < i ==> model.bookmark_table.contains_key(#[trigger] model.bookmarks[j])
                    && model.bookmark_table[model.bookmarks[j]].children.len() == 0,
        decreases ids.len() - i,
    {
        match bookmark_children(document, ids[i]) {
            Some(children) => {
                if children.len() > 0 {
                    assert(!flat_bookmarks(model)) by {
                        assert(model.bookmarks[i as int] == ids@[i as int]);
                    }
                    return false;
                }
            },
            None => {
                assert(!flat_bookmarks(model)) by {
                    assert(model.bookmarks[i as int] == ids@[i as int]);
                }
                return false;
            },
        }
        i += 1;
    }
    true
}

/// Whether the documents can be merged.
pub fn can_merge(documents: &Vec<lopdf::Document>) -> (can: bool)
    ensures
        can == mergeable(document_models(documents@)),
{
    if !fits_capacity(documents) {
        return false;
    }
    let ghost models = document_models(documents@);
    let mut i: usize = 0;
    while i < documents.len()
        invariant
            i <= documents.len(),
            models == document_models(documents@),
            forall|j: int| 0 <= j < i ==> flat_bookmarks(#[trigger] models[j]),
        decreases documents.len() - i,
    {
        assert(models[i as int] == document_model(documents@[i as int]));
        if !has_flat_bookmarks(&documents[i]) {
            return false;
        }
        i += 1;
    }
    true
}

/// The documents that were loaded, in the order of the attempts; a failed
/// attempt is passed over.
pub fn keep_loaded(attempts: Vec<Option<lopdf::Document>>) -> (documents: Vec<lopdf::Document>)
    ensures
        documents@ == loaded(attempts@),
{
    let ghost all = attempts@;
    let mut attempts = attempts;
    let mut documents: Vec<lopdf::Document> = Vec::new();
    let ghost mut done: int = 0;
    while attempts.len() > 0
        invariant
            0 <= done <= all.len(),
            attempts@ =~= all.skip(done),
            documents@ == loaded(all.take(done)),
        decreases attempts.len(),
    {
        let attempt = attempts.remove(0);
        proof {
            assert(all.take(done + 1).drop_last() =~= all.take(done));
            assert(all.take(done + 1).last() == all[done]);
            assert(attempt == all.skip(done)[0]);
            assert(attempts@ =~= all.skip(done + 1));
            done = done + 1;
        }
        if let Some(document) = attempt {
            documents.push(document);
        }
    }
    assert(all.take(done) =~= all);
    documents
}

/// Merges the documents, in order, into one. Fails where no document holds
/// the root of a page tree; and, that settled, where none holds a catalog.
pub fn merge_documents(documents: Vec<lopdf::Document>) -> (outcome: Result<
    lopdf::Document,
    MergeError,
>)
    requires
        mergeable(document_models(documents@)),
    ensures
        match outcome {
            Ok(document) => merged(document_models(documents@)) == Ok::<
                DocumentModel,
                MergeError,
            >(document_model(document)),
            Err(error) => merged(document_models(documents@)) == Err::<
                DocumentModel,
                MergeError,
            >(error),
        },
        well_gathered(renumbered_all(document_models(documents@))),
        outcome matches Ok(document) ==> settled(
            renumbered(counted(put_together(document_models(documents@))->Ok_0), 1),
            document_model(document),
        ),
{
    let ghost before = document_models(documents@);
    let mut documents = documents;
    proof {
        assert forall|i: int| 0 <= i < before.len() implies (#[trigger] before[i]).objects.len()
            <= i32::MAX by {
            lemma_total_objects_bounds_each(before, i);
        }
    }
    renumber_documents(&mut documents);
    let ghost parts = document_models(documents@);
    proof {
        lemma_total_objects_not_grown(before, parts);
    }
    let gathered = gather(documents);
    let document = assemble(&gathered.objects, &gathered.pages, &gathered.bookmarks)?;
    proof {
        lemma_assembled_size(
            entries_model(gathered.objects@),
            entries_model(gathered.pages@),
            bookmark_views(gathered.bookmarks@),
        );
    }
    Ok(finish(document))
}

/// Merges the documents that were loaded, in the order of the attempts.
/// What failed to load is passed over.
pub fn merge_loaded(attempts: Vec<Option<lopdf::Document>>) -> (outcome: Result<
    lopdf::Document,
    MergeError,
>)
    requires
        mergeable(document_models(loaded(attempts@))),
    ensures
        match outcome {
            Ok(document) => merged(document_models(loaded(attempts@))) == Ok::<
                DocumentModel,
                MergeError,
            >(document_model(document)),
            Err(error) => merged(document_models(loaded(attempts@))) == Err::<
                DocumentModel,
                MergeError,
            >(error),
        },
        well_gathered(renumbered_all(document_models(loaded(attempts@)))),
        outcome matches Ok(document) ==> settled(
            renumbered(counted(put_together(document_models(loaded(attempts@)))->Ok_0), 1),
            document_model(document),
        ),
{
    merge_documents(keep_loaded(attempts))
}

} // verus!
