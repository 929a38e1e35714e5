//! How many objects the merged document can have.

use vstd::prelude::*;
use crate::bookmark::{bookmark_ids, bookmark_table, with_bookmarks, BookmarkView};
use crate::document::flat_bookmarks;
use crate::finalizer::{assembled, merged_objects, with_pages};
use crate::merger::passed_through;
use crate::model::{DictionaryModel, DocumentModel, Entry, ObjectId, ObjectModel};

verus! {

/// Passing objects through adds at most one object for each.
pub proof fn lemma_passed_through_size(base: Map<ObjectId, ObjectModel>, all: Seq<Entry>)
    requires
        base.dom().finite(),
    ensures
        passed_through(base, all).dom().finite(),
        passed_through(base, all).len() <= base.len() + all.len(),
    decreases all.len(),
{
    if all.len() > 0 {
        lemma_passed_through_size(base, all.drop_last());
    }
}

/// Writing pages adds at most one object for each.
pub proof fn lemma_with_pages_size(
    base: Map<ObjectId, ObjectModel>,
    pages: Seq<Entry>,
    parent: ObjectId,
)
    requires
        base.dom().finite(),
    ensures
        with_pages(base, pages, parent).dom().finite(),
        with_pages(base, pages, parent).len() <= base.len() + pages.len(),
    decreases pages.len(),
{
    if pages.len() > 0 {
        lemma_with_pages_size(base, pages.drop_last(), parent);
    }
}

/// The merged document has at most one object for each object and each page
/// that was gathered, and two more.
pub proof fn lemma_merged_objects_size(
    objects: Seq<Entry>,
    pages: Seq<Entry>,
    root: (ObjectId, DictionaryModel),
    catalog: Entry,
)
    ensures
        merged_objects(objects, pages, root, catalog).dom().finite(),
        merged_objects(objects, pages, root, catalog).len() <= objects.len() + pages.len() + 2,
{
    let passed = passed_through(Map::empty(), objects);
    lemma_passed_through_size(Map::empty(), objects);
    lemma_with_pages_size(passed, pages, root.0);
}

/// A document that was given a list of bookmarks has them at the top
/// level, each in the table and without children.
pub proof fn lemma_with_bookmarks_flat(document: DocumentModel, list: Seq<BookmarkView>)
    requires
        list.len() < u32::MAX,
    ensures
        flat_bookmarks(with_bookmarks(document, list)),
        with_bookmarks(document, list).bookmarks.len() == list.len(),
{
    let given = with_bookmarks(document, list);
    assert forall|i: int| 0 <= i < given.bookmarks.len() implies given.bookmark_table.contains_key(
        #[trigger] given.bookmarks[i],
    ) && given.bookmark_table[given.bookmarks[i]].children.len() == 0 by {
        assert(bookmark_ids(list.len())[i] == (i + 1) as u32);
        assert(bookmark_table(list).contains_key((i + 1) as u32));
    }
}

/// What is put together has its bookmarks at the top level, as many as were
/// given, and at most one object for each object and each page that was
/// gathered, and two more.
pub proof fn lemma_assembled_size(
    objects: Seq<Entry>,
    pages: Seq<Entry>,
    bookmarks: Seq<BookmarkView>,
)
    requires
        bookmarks.len() < u32::MAX,
        assembled(objects, pages, bookmarks) is Ok,
    ensures
        flat_bookmarks(assembled(objects, pages, bookmarks)->Ok_0),
        assembled(objects, pages, bookmarks)->Ok_0.bookmarks.len() == bookmarks.len(),
        assembled(objects, pages, bookmarks)->Ok_0.objects.dom().finite(),
        assembled(objects, pages, bookmarks)->Ok_0.objects.len() <= objects.len() + pages.len()
            + 2,
{
    let root = crate::merger::pages_root(objects)->Some_0;
    let at = crate::merger::catalog_index(objects)->Some_0;
    lemma_merged_objects_size(objects, pages, root, objects[at]);
    let bare = DocumentModel {
        version: "1.5"@,
        trailer: Map::<Seq<u8>, ObjectModel>::empty().insert(
            crate::model::key_root(),
            ObjectModel::Reference(objects[at].0),
        ),
        objects: merged_objects(objects, pages, root, objects[at]),
        max_id: 0,
        max_bookmark_id: 0,
        bookmarks: Seq::empty(),
        bookmark_table: Map::empty(),
    };
    lemma_with_bookmarks_flat(bare, bookmarks);
}

} // verus!
