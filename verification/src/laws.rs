//! What holds of every merge.

use vstd::prelude::*;
use crate::bookmark::BookmarkView;
use crate::classify::{role_of, Role};
use crate::collect::{
    all_are_pages, all_listed, all_objects, all_pages, all_pages_held, bookmark_for,
    page_entries, pages_held, planned_bookmarks,
};
use crate::document::{is_page, page_order};
use crate::finalizer::{
    assembled, kids, unified_catalog, unified_pages, with_pages, MergeError,
};
use crate::finish::{catalog_address, linked};
use crate::listing::listing;
use crate::merger::{
    catalog_index, is_pages_root, pages_root, passed_through, root_keeps_names, root_keeps_type,
};
use crate::model::{
    id_lt, key_count, key_kids, key_outlines, key_parent, lists_map,
    strictly_increasing, DocumentModel, Entry, ObjectId, ObjectModel,
};
use crate::names::lemma_names_differ;
use crate::renumber::numbered_apart;
use crate::shape::{
    lemma_adopted_is_page, lemma_catalog_index_none, lemma_catalog_is_first, lemma_merged_shape,
    lemma_pages_root_none, lemma_root_is_first, lemma_unified_catalog_role,
    lemma_unified_pages_fields,
};

verus! {

/// No two objects of the list have the same address.
pub open spec fn distinct_addresses(all: Seq<Entry>) -> bool {
    forall|i: int, j: int|
        0 <= i < j < all.len() ==> (#[trigger] all[i]).0 != (#[trigger] all[j]).0
}

/// One of the documents has an object at the address.
pub open spec fn held_by(documents: Seq<DocumentModel>, id: ObjectId) -> bool {
    exists|j: int| 0 <= j < documents.len() && (#[trigger] documents[j]).objects.contains_key(id)
}

/// What was taken from the documents is sound: the documents were numbered
/// apart, each has a list of its objects and holds its pages, every
/// collected page is a page, and the unified root still declares itself the
/// root of a page tree and has the fields of the first root.
pub open spec fn well_gathered(documents: Seq<DocumentModel>) -> bool {
    &&& numbered_apart(documents)
    &&& all_listed(documents)
    &&& all_pages_held(documents)
    &&& all_are_pages(all_pages(documents))
    &&& root_keeps_type(all_objects(documents))
    &&& root_keeps_names(all_objects(documents))
}

/// The number of pages in all the documents together.
pub open spec fn total_pages(documents: Seq<DocumentModel>) -> nat
    decreases documents.len(),
{
    if documents.len() == 0 {
        0
    } else {
        total_pages(documents.drop_last()) + page_order(documents.last()).len()
    }
}

/// An object of the document stands at the address and plays the role.
pub open spec fn has_role(document: DocumentModel, id: ObjectId, role: Role) -> bool {
    document.objects.contains_key(id) && role_of(document.objects[id]) == role
}

/// The merge fails for want of a page-tree root exactly where no object is
/// a dictionary of type `Pages`; and for want of a catalog exactly where
/// there is such a root and no object of type `Catalog`.
pub proof fn lemma_missing_roots(
    objects: Seq<Entry>,
    pages: Seq<Entry>,
    bookmarks: Seq<BookmarkView>,
)
    ensures
        assembled(objects, pages, bookmarks) == Err::<DocumentModel, MergeError>(
            MergeError::MissingPagesRoot,
        ) <==> forall|i: int| 0 <= i < objects.len() ==> !is_pages_root((#[trigger] objects[i]).1),
        assembled(objects, pages, bookmarks) == Err::<DocumentModel, MergeError>(
            MergeError::MissingCatalogRoot,
        ) <==> (exists|i: int| 0 <= i < objects.len() && is_pages_root((#[trigger] objects[i]).1))
            && forall|i: int|
            0 <= i < objects.len() ==> role_of((#[trigger] objects[i]).1) != Role::Catalog,
{
    lemma_pages_root_none(objects);
    lemma_catalog_index_none(objects);
}

/// Where the documents were numbered apart, every object of every document
/// has an address of its own, and the objects stand in increasing order of
/// address.
pub proof fn lemma_all_objects_increasing(documents: Seq<DocumentModel>)
    requires
        numbered_apart(documents),
        all_listed(documents),
    ensures
        strictly_increasing(all_objects(documents)),
        distinct_addresses(all_objects(documents)),
        forall|k: int|
            0 <= k < all_objects(documents).len() ==> held_by(
                documents,
                (#[trigger] all_objects(documents)[k]).0,
            ),
    decreases documents.len(),
{
    let all = all_objects(documents);
    if documents.len() > 0 {
        let front = documents.drop_last();
        let last = documents.last();
        let n = documents.len() - 1;
        assert(documents[n] == last);
        assert forall|i: int, j: int, a: ObjectId, b: ObjectId|
            0 <= i < j < front.len() && #[trigger] front[i].objects.contains_key(a)
                && #[trigger] front[j].objects.contains_key(b) implies a.0 < b.0 by {
            assert(front[i] == documents[i] && front[j] == documents[j]);
            assert(documents[i].objects.contains_key(a) && documents[j].objects.contains_key(b));
        }
        assert forall|i: int| 0 <= i < front.len() implies lists_map(
            listing((#[trigger] front[i]).objects),
            front[i].objects,
        ) by {
            assert(front[i] == documents[i]);
        }
        lemma_all_objects_increasing(front);
        let head = all_objects(front);
        let tail = listing(last.objects);
        assert(lists_map(tail, last.objects));
        assert(all == head + tail);
        assert forall|k: int| 0 <= k < all.len() implies held_by(
            documents,
            (#[trigger] all[k]).0,
        ) by {
            if k < head.len() {
                assert(held_by(front, head[k].0));
                let j = choose|j: int|
                    0 <= j < front.len() && (#[trigger] front[j]).objects.contains_key(head[k].0);
                assert(documents[j] == front[j]);
            } else {
                assert(all[k] == tail[k - head.len()]);
                assert(last.objects.contains_key(tail[k - head.len()].0));
            }
        }
        assert forall|i: int, j: int| 0 <= i < j < all.len() implies id_lt(
            #[trigger] all[i].0,
            #[trigger] all[j].0,
        ) by {
            if j < head.len() {
                assert(id_lt(head[i].0, head[j].0));
            } else if i >= head.len() {
                assert(id_lt(tail[i - head.len()].0, tail[j - head.len()].0));
            } else {
                assert(held_by(front, head[i].0));
                let d = choose|d: int|
                    0 <= d < front.len() && (#[trigger] front[d]).objects.contains_key(head[i].0);
                assert(documents[d] == front[d]);
                assert(documents[d].objects.contains_key(all[i].0));
                assert(all[j] == tail[j - head.len()]);
                assert(documents[n].objects.contains_key(all[j].0));
            }
        }
    }
    assert forall|i: int, j: int| 0 <= i < j < all.len() implies (#[trigger] all[i]).0 != (
    #[trigger] all[j]).0 by {
        assert(id_lt(all[i].0, all[j].0));
    }
}

/// In what is put together there is one catalog and one root of a page
/// tree, each at its own address, and the root counts the collected pages
/// and refers to them in the order of collection. This holds where no two
/// gathered objects share an address, every collected page is a page, and
/// the catalog is a dictionary.
pub proof fn lemma_single_roots(
    objects: Seq<Entry>,
    pages: Seq<Entry>,
    bookmarks: Seq<BookmarkView>,
)
    requires
        assembled(objects, pages, bookmarks) is Ok,
        distinct_addresses(objects),
        all_are_pages(pages),
        root_keeps_type(objects),
        objects[catalog_index(objects)->Some_0].1 is Dictionary,
    ensures
        ({
            let merged = assembled(objects, pages, bookmarks)->Ok_0;
            let root = pages_root(objects)->Some_0;
            let catalog = objects[catalog_index(objects)->Some_0];
            &&& catalog.0 != root.0
            &&& forall|id: ObjectId| has_role(merged, id, Role::Catalog) <==> id == catalog.0
            &&& forall|id: ObjectId| has_role(merged, id, Role::Pages) <==> id == root.0
            &&& merged.objects[root.0] == ObjectModel::Dictionary(unified_pages(root.1, pages))
            &&& unified_pages(root.1, pages)[key_count()] == ObjectModel::Integer(
                pages.len() as i64,
            )
            &&& unified_pages(root.1, pages)[key_kids()] == ObjectModel::Array(kids(pages))
            &&& merged.objects[catalog.0] == ObjectModel::Dictionary(
                unified_catalog(catalog.1->Dictionary_0, root.0),
            )
            &&& catalog_address(merged) == Some(catalog.0)
        }),
{
    lemma_names_differ();
    let merged = assembled(objects, pages, bookmarks)->Ok_0;
    let root = pages_root(objects)->Some_0;
    let at = catalog_index(objects)->Some_0;
    let catalog = objects[at];
    lemma_catalog_is_first(objects);
    lemma_root_written(objects, pages, bookmarks);
    lemma_unified_pages_fields(root.1, pages);
    lemma_unified_catalog_role(catalog.1->Dictionary_0, root.0);
    assert forall|id: ObjectId|
        merged.objects.contains_key(id) && id != catalog.0 && id != root.0 implies role_of(
        merged.objects[id],
    ) == Role::Page || role_of(merged.objects[id]) == Role::Other by {
        lemma_merged_shape(objects, pages, bookmarks, id);
        lemma_adopted_pages_are_pages(pages, root.0);
    }
    assert(merged.trailer.contains_key(crate::model::key_root()));
}

/// Every collected page that is a page is still one when it is adopted.
pub proof fn lemma_adopted_pages_are_pages(pages: Seq<Entry>, parent: ObjectId)
    requires
        all_are_pages(pages),
    ensures
        forall|k: int|
            0 <= k < pages.len() && (#[trigger] pages[k]).1 is Dictionary ==> role_of(
                ObjectModel::Dictionary(
                    crate::finalizer::adopted(pages[k].1->Dictionary_0, parent),
                ),
            ) == Role::Page,
{
    assert forall|k: int| 0 <= k < pages.len() && (#[trigger] pages[k]).1 is Dictionary implies role_of(
        ObjectModel::Dictionary(crate::finalizer::adopted(pages[k].1->Dictionary_0, parent)),
    ) == Role::Page by {
        assert(is_page(pages[k].1));
        lemma_adopted_is_page(pages[k].1->Dictionary_0, parent);
    }
}

/// In what is put together every page has the unified root of the page
/// tree as its parent.
pub proof fn lemma_pages_adopted(
    objects: Seq<Entry>,
    pages: Seq<Entry>,
    bookmarks: Seq<BookmarkView>,
)
    requires
        assembled(objects, pages, bookmarks) is Ok,
        root_keeps_type(objects),
    ensures
        forall|id: ObjectId| #[trigger]
            has_role(assembled(objects, pages, bookmarks)->Ok_0, id, Role::Page) ==> {
                let page = assembled(objects, pages, bookmarks)->Ok_0.objects[id];
                &&& page is Dictionary
                &&& page->Dictionary_0.contains_key(key_parent())
                &&& page->Dictionary_0[key_parent()] == ObjectModel::Reference(
                    pages_root(objects)->Some_0.0,
                )
            },
{
    lemma_names_differ();
    let merged = assembled(objects, pages, bookmarks)->Ok_0;
    let root = pages_root(objects)->Some_0;
    let at = catalog_index(objects)->Some_0;
    let catalog = objects[at];
    lemma_catalog_is_first(objects);
    lemma_unified_pages_fields(root.1, pages);
    if catalog.1 is Dictionary {
        lemma_unified_catalog_role(catalog.1->Dictionary_0, root.0);
    }
    assert forall|id: ObjectId| #[trigger] has_role(merged, id, Role::Page) implies {
        let page = merged.objects[id];
        &&& page is Dictionary
        &&& page->Dictionary_0.contains_key(key_parent())
        &&& page->Dictionary_0[key_parent()] == ObjectModel::Reference(root.0)
    } by {
        lemma_merged_shape(objects, pages, bookmarks, id);
    }
}

/// In what is put together no object is of type `Outlines` or `Outline`,
/// and the catalog, where it is a dictionary, has no `Outlines` field. This
/// holds where every collected page is a page.
pub proof fn lemma_no_outline_objects(
    objects: Seq<Entry>,
    pages: Seq<Entry>,
    bookmarks: Seq<BookmarkView>,
)
    requires
        assembled(objects, pages, bookmarks) is Ok,
        all_are_pages(pages),
        root_keeps_type(objects),
    ensures
        forall|id: ObjectId|
            !has_role(assembled(objects, pages, bookmarks)->Ok_0, id, Role::Outlines)
                && !has_role(assembled(objects, pages, bookmarks)->Ok_0, id, Role::Outline),
        ({
            let merged = assembled(objects, pages, bookmarks)->Ok_0;
            let catalog = objects[catalog_index(objects)->Some_0];
            catalog.1 is Dictionary ==> merged.objects[catalog.0] is Dictionary
                && !merged.objects[catalog.0]->Dictionary_0.contains_key(key_outlines())
        }),
{
    lemma_names_differ();
    let merged = assembled(objects, pages, bookmarks)->Ok_0;
    let root = pages_root(objects)->Some_0;
    let at = catalog_index(objects)->Some_0;
    let catalog = objects[at];
    lemma_catalog_is_first(objects);
    lemma_unified_pages_fields(root.1, pages);
    if catalog.1 is Dictionary {
        lemma_unified_catalog_role(catalog.1->Dictionary_0, root.0);
    }
    lemma_adopted_pages_are_pages(pages, root.0);
    assert forall|id: ObjectId|
        !has_role(merged, id, Role::Outlines) && !has_role(merged, id, Role::Outline) by {
        if merged.objects.contains_key(id) {
            lemma_merged_shape(objects, pages, bookmarks, id);
        }
    }
}

/// Where the catalog is pointed to an outline, its `Outlines` field refers
/// to the root of that outline, and no other object changes.
pub proof fn lemma_linked_outline(document: DocumentModel, root: ObjectId)
    ensures
        match catalog_address(document) {
            Some(at) => document.objects.contains_key(at) && document.objects[at] is Dictionary
                ==> {
                let after = linked(document, Some(root));
                &&& after.objects.dom() == document.objects.dom()
                &&& after.objects[at] is Dictionary
                &&& after.objects[at]->Dictionary_0[key_outlines()] == ObjectModel::Reference(
                    root,
                )
                &&& forall|id: ObjectId|
                    id != at && document.objects.contains_key(id) ==> after.objects[id]
                        == document.objects[id]
            },
            None => linked(document, Some(root)) == document,
        },
        linked(document, None) == document,
{
    match catalog_address(document) {
        Some(at) => {
            if document.objects.contains_key(at) && document.objects[at] is Dictionary {
                assert(linked(document, Some(root)).objects.dom() =~= document.objects.dom());
            }
        },
        None => {},
    }
}

/// The unified root of the page tree is written at its address, and the
/// catalog does not overwrite it. This holds where no two gathered objects
/// share an address.
pub proof fn lemma_root_written(
    objects: Seq<Entry>,
    pages: Seq<Entry>,
    bookmarks: Seq<BookmarkView>,
)
    requires
        assembled(objects, pages, bookmarks) is Ok,
        distinct_addresses(objects),
    ensures
        ({
            let merged = assembled(objects, pages, bookmarks)->Ok_0;
            let root = pages_root(objects)->Some_0;
            &&& objects[catalog_index(objects)->Some_0].0 != root.0
            &&& merged.objects.contains_key(root.0)
            &&& merged.objects[root.0] == ObjectModel::Dictionary(unified_pages(root.1, pages))
            &&& unified_pages(root.1, pages)[key_count()] == ObjectModel::Integer(
                pages.len() as i64,
            )
            &&& unified_pages(root.1, pages)[key_kids()] == ObjectModel::Array(kids(pages))
        }),
{
    lemma_names_differ();
    let root = pages_root(objects)->Some_0;
    let at = catalog_index(objects)->Some_0;
    lemma_catalog_is_first(objects);
    lemma_apart_from_roots(objects, at);
    lemma_unified_pages_fields(root.1, pages);
}

/// An object that is no root of a page tree does not have the address of
/// the unified root, and one that is no catalog does not have the address of
/// the catalog, where no two objects share an address.
pub proof fn lemma_apart_from_roots(objects: Seq<Entry>, i: int)
    requires
        distinct_addresses(objects),
        0 <= i < objects.len(),
        pages_root(objects) is Some,
        catalog_index(objects) is Some,
    ensures
        !is_pages_root(objects[i].1) ==> objects[i].0 != pages_root(objects)->Some_0.0,
        role_of(objects[i].1) != Role::Catalog ==> objects[i].0 != objects[catalog_index(
            objects,
        )->Some_0].0,
{
    let root = pages_root(objects)->Some_0;
    let at = catalog_index(objects)->Some_0;
    lemma_catalog_is_first(objects);
    lemma_root_is_first(objects);
    let root_at = choose|k: int|
        0 <= k < objects.len() && is_pages_root((#[trigger] objects[k]).1) && objects[k].0
            == root.0 && forall|j: int| 0 <= j < k ==> !is_pages_root((#[trigger] objects[j]).1);
    if i < root_at {
        assert(objects[i].0 != objects[root_at].0);
    } else if root_at < i {
        assert(objects[root_at].0 != objects[i].0);
    }
    if i < at {
        assert(objects[i].0 != objects[at].0);
    } else if at < i {
        assert(objects[at].0 != objects[i].0);
    }
}

/// The pages of the first documents stand first among the pages of all.
pub proof fn lemma_all_pages_prefix(documents: Seq<DocumentModel>, count: int)
    requires
        0 <= count <= documents.len(),
    ensures
        all_pages(documents.take(count)).is_prefix_of(all_pages(documents)),
    decreases documents.len() - count,
{
    if count == documents.len() {
        assert(documents.take(count) =~= documents);
    } else {
        lemma_all_pages_prefix(documents, count + 1);
        assert(documents.take(count + 1).drop_last() =~= documents.take(count));
    }
}

/// Among the pages of all documents, the pages of each document stand
/// together, in the order of the document's own page tree, after the pages
/// of the documents before it.
pub proof fn lemma_page_position(documents: Seq<DocumentModel>, i: int, k: int)
    requires
        0 <= i < documents.len(),
        0 <= k < page_entries(documents[i]).len(),
    ensures
        all_pages(documents.take(i)).len() + k < all_pages(documents).len(),
        all_pages(documents)[all_pages(documents.take(i)).len() + k] == page_entries(
            documents[i],
        )[k],
        kids(all_pages(documents))[all_pages(documents.take(i)).len() + k]
            == ObjectModel::Reference(page_order(documents[i])[k]),
{
    lemma_all_pages_prefix(documents, i + 1);
    let upto = documents.take(i + 1);
    assert(upto.drop_last() =~= documents.take(i));
    assert(upto.last() == documents[i]);
    let at = all_pages(documents.take(i)).len() + k;
    assert(all_pages(upto)[at] == page_entries(documents[i])[k]);
}

/// The number of documents that have a page.
pub open spec fn contributors(documents: Seq<DocumentModel>) -> nat
    decreases documents.len(),
{
    if documents.len() == 0 {
        0
    } else if page_entries(documents.last()).len() > 0 {
        contributors(documents.drop_last()) + 1
    } else {
        contributors(documents.drop_last())
    }
}

/// There are as many bookmarks as documents that have a page.
pub proof fn lemma_bookmark_count(documents: Seq<DocumentModel>)
    ensures
        planned_bookmarks(documents).len() == contributors(documents),
    decreases documents.len(),
{
    if documents.len() > 0 {
        lemma_bookmark_count(documents.drop_last());
    }
}

/// The bookmarks of the first documents stand first among the bookmarks of
/// all.
pub proof fn lemma_bookmarks_prefix(documents: Seq<DocumentModel>, count: int)
    requires
        0 <= count <= documents.len(),
    ensures
        planned_bookmarks(documents.take(count)).is_prefix_of(planned_bookmarks(documents)),
    decreases documents.len() - count,
{
    if count == documents.len() {
        assert(documents.take(count) =~= documents);
    } else {
        lemma_bookmarks_prefix(documents, count + 1);
        assert(documents.take(count + 1).drop_last() =~= documents.take(count));
    }
}

/// Each document that has a page has one bookmark: it stands after the
/// bookmarks of the documents before it, leads to the first page of the
/// document, and is titled with the number of that page among all pages. A
/// document without a page adds no bookmark.
pub proof fn lemma_bookmark_per_contributor(documents: Seq<DocumentModel>, i: int)
    requires
        0 <= i < documents.len(),
    ensures
        planned_bookmarks(documents).len() == contributors(documents),
        page_entries(documents[i]).len() > 0 ==> {
            let at = contributors(documents.take(i)) as int;
            &&& contributors(documents.take(i + 1)) == at + 1
            &&& at < planned_bookmarks(documents).len()
            &&& planned_bookmarks(documents)[at] == bookmark_for(
                page_entries(documents[i])[0].0,
                all_pages(documents.take(i)).len() + 1,
            )
        },
        page_entries(documents[i]).len() == 0 ==> planned_bookmarks(documents.take(i + 1))
            == planned_bookmarks(documents.take(i)),
{
    lemma_bookmark_count(documents);
    lemma_bookmark_count(documents.take(i));
    lemma_bookmark_count(documents.take(i + 1));
    lemma_bookmarks_prefix(documents, i + 1);
    let upto = documents.take(i + 1);
    assert(upto.drop_last() =~= documents.take(i));
    assert(upto.last() == documents[i]);
    if page_entries(documents[i]).len() > 0 {
        let at = contributors(documents.take(i)) as int;
        assert(planned_bookmarks(upto)[at] == bookmark_for(
            page_entries(documents[i])[0].0,
            all_pages(documents.take(i)).len() + 1,
        ));
    }
}

/// A merge of one document passes its pages through: the unified root of
/// the page tree counts the pages of the document and refers to them in the
/// order of the document's own page tree.
pub proof fn lemma_single_input(document: DocumentModel, bookmarks: Seq<BookmarkView>)
    requires
        lists_map(listing(document.objects), document.objects),
        assembled(
            all_objects(seq![document]),
            all_pages(seq![document]),
            bookmarks,
        ) is Ok,
    ensures
        all_objects(seq![document]) == listing(document.objects),
        all_pages(seq![document]) == page_entries(document),
        ({
            let merged = assembled(
                listing(document.objects),
                page_entries(document),
                bookmarks,
            )->Ok_0;
            let root = pages_root(listing(document.objects))->Some_0;
            &&& merged.objects.contains_key(root.0)
            &&& merged.objects[root.0] is Dictionary
            &&& merged.objects[root.0]->Dictionary_0[key_count()] == ObjectModel::Integer(
                page_order(document).len() as i64,
            )
            &&& merged.objects[root.0]->Dictionary_0[key_kids()] == ObjectModel::Array(
                Seq::new(
                    page_order(document).len(),
                    |i: int| ObjectModel::Reference(page_order(document)[i]),
                ),
            )
        }),
{
    let one = seq![document];
    assert(one.drop_last() =~= Seq::<DocumentModel>::empty());
    assert(one.last() == document);
    assert(all_objects(one.drop_last()) =~= Seq::<Entry>::empty());
    assert(all_pages(one.drop_last()) =~= Seq::<Entry>::empty());
    assert(all_objects(one) =~= listing(document.objects));
    assert(all_pages(one) =~= page_entries(document));
    let objects = listing(document.objects);
    assert forall|i: int, j: int| 0 <= i < j < objects.len() implies (#[trigger] objects[i]).0 != (
    #[trigger] objects[j]).0 by {
        assert(id_lt(objects[i].0, objects[j].0));
    }
    lemma_root_written(objects, page_entries(document), bookmarks);
    assert(kids(page_entries(document)) =~= Seq::new(
        page_order(document).len(),
        |i: int| ObjectModel::Reference(page_order(document)[i]),
    ));
}

/// As many pages are collected as the documents have together.
pub proof fn lemma_total_pages(documents: Seq<DocumentModel>)
    ensures
        all_pages(documents).len() == total_pages(documents),
    decreases documents.len(),
{
    if documents.len() > 0 {
        lemma_total_pages(documents.drop_last());
    }
}

/// A merge that succeeds on documents with a catalog that is a dictionary
/// leaves one catalog and one root of a page tree; the root counts the pages
/// of all documents together and refers to them document after document,
/// each in the order of its own page tree; and every page has the root as
/// its parent.
pub proof fn lemma_merged_roots(documents: Seq<DocumentModel>)
    requires
        well_gathered(documents),
        assembled(
            all_objects(documents),
            all_pages(documents),
            planned_bookmarks(documents),
        ) is Ok,
        all_objects(documents)[catalog_index(all_objects(documents))->Some_0].1 is Dictionary,
    ensures
        ({
            let objects = all_objects(documents);
            let merged = assembled(
                objects,
                all_pages(documents),
                planned_bookmarks(documents),
            )->Ok_0;
            let root = pages_root(objects)->Some_0;
            let catalog = objects[catalog_index(objects)->Some_0];
            &&& forall|id: ObjectId| has_role(merged, id, Role::Catalog) <==> id == catalog.0
            &&& forall|id: ObjectId| has_role(merged, id, Role::Pages) <==> id == root.0
            &&& merged.objects[root.0] is Dictionary
            &&& merged.objects[root.0]->Dictionary_0[key_count()] == ObjectModel::Integer(
                total_pages(documents) as i64,
            )
            &&& merged.objects[root.0]->Dictionary_0[key_kids()] == ObjectModel::Array(
                kids(all_pages(documents)),
            )
            &&& forall|id: ObjectId| #[trigger]
                has_role(merged, id, Role::Page) ==> merged.objects[id] is Dictionary
                    && merged.objects[id]->Dictionary_0[key_parent()] == ObjectModel::Reference(
                    root.0,
                )
            &&& forall|id: ObjectId|
                !has_role(merged, id, Role::Outlines) && !has_role(merged, id, Role::Outline)
        }),
{
    lemma_all_objects_increasing(documents);
    lemma_total_pages(documents);
    lemma_single_roots(all_objects(documents), all_pages(documents), planned_bookmarks(documents));
    lemma_pages_adopted(all_objects(documents), all_pages(documents), planned_bookmarks(documents));
    lemma_no_outline_objects(
        all_objects(documents),
        all_pages(documents),
        planned_bookmarks(documents),
    );
}

/// Each collected page is a page of one of the documents.
pub proof fn lemma_page_source(documents: Seq<DocumentModel>, k: int) -> (source: (int, int))
    requires
        0 <= k < all_pages(documents).len(),
    ensures
        0 <= source.0 < documents.len(),
        0 <= source.1 < page_order(documents[source.0]).len(),
        all_pages(documents)[k] == page_entries(documents[source.0])[source.1],
        all_pages(documents)[k].0 == page_order(documents[source.0])[source.1],
    decreases documents.len(),
{
    let front = documents.drop_last();
    if k < all_pages(front).len() {
        let source = lemma_page_source(front, k);
        assert(front[source.0] == documents[source.0]);
        source
    } else {
        (documents.len() - 1, k - all_pages(front).len())
    }
}

/// Each object of each document is among the objects that are gathered,
/// at its address.
pub proof fn lemma_object_listed(documents: Seq<DocumentModel>, j: int, id: ObjectId) -> (at: int)
    requires
        all_listed(documents),
        0 <= j < documents.len(),
        documents[j].objects.contains_key(id),
    ensures
        0 <= at < all_objects(documents).len(),
        all_objects(documents)[at] == (id, documents[j].objects[id]),
    decreases documents.len(),
{
    let front = documents.drop_last();
    let head = all_objects(front);
    if j == documents.len() - 1 {
        let tail = listing(documents[j].objects);
        assert(lists_map(tail, documents[j].objects));
        let i = choose|i: int| 0 <= i < tail.len() && #[trigger] tail[i].0 == id;
        assert(documents[j].objects[tail[i].0] == tail[i].1);
        head.len() + i
    } else {
        assert forall|i: int| 0 <= i < front.len() implies lists_map(
            listing((#[trigger] front[i]).objects),
            front[i].objects,
        ) by {
            assert(front[i] == documents[i]);
        }
        assert(front[j] == documents[j]);
        lemma_object_listed(front, j, id)
    }
}

/// Where a collected page is a dictionary, an adopted page of its address
/// stands there after the pages were written.
pub proof fn lemma_with_pages_written(
    base: Map<ObjectId, ObjectModel>,
    pages: Seq<Entry>,
    parent: ObjectId,
    k: int,
)
    requires
        0 <= k < pages.len(),
        pages[k].1 is Dictionary,
    ensures
        with_pages(base, pages, parent).contains_key(pages[k].0),
        exists|n: int|
            0 <= n < pages.len() && (#[trigger] pages[n]).0 == pages[k].0 && pages[n].1 is Dictionary
                && with_pages(base, pages, parent)[pages[k].0] == ObjectModel::Dictionary(
                crate::finalizer::adopted(pages[n].1->Dictionary_0, parent),
            ),
    decreases pages.len(),
{
    let shorter = pages.drop_last();
    let last = pages.last();
    let id = pages[k].0;
    if last.1 is Dictionary && last.0 == id {
        assert(pages[pages.len() - 1] == last);
    } else {
        assert(k < pages.len() - 1);
        assert(shorter[k] == pages[k]);
        lemma_with_pages_written(base, shorter, parent, k);
        let n = choose|n: int|
            0 <= n < shorter.len() && (#[trigger] shorter[n]).0 == id && shorter[n].1 is Dictionary
                && with_pages(base, shorter, parent)[id] == ObjectModel::Dictionary(
                crate::finalizer::adopted(shorter[n].1->Dictionary_0, parent),
            );
        assert(pages[n] == shorter[n]);
    }
}

/// Every address that the unified root refers to holds a page with the
/// root as its parent: a collected page of that address, adopted. Neither
/// the root nor the catalog stands at such an address.
pub proof fn lemma_kids_are_pages(documents: Seq<DocumentModel>, k: int)
    requires
        well_gathered(documents),
        assembled(
            all_objects(documents),
            all_pages(documents),
            planned_bookmarks(documents),
        ) is Ok,
        0 <= k < all_pages(documents).len(),
    ensures
        ({
            let objects = all_objects(documents);
            let merged = assembled(
                objects,
                all_pages(documents),
                planned_bookmarks(documents),
            )->Ok_0;
            let root = pages_root(objects)->Some_0;
            let id = all_pages(documents)[k].0;
            &&& kids(all_pages(documents))[k] == ObjectModel::Reference(id)
            &&& id != root.0
            &&& id != objects[catalog_index(objects)->Some_0].0
            &&& has_role(merged, id, Role::Page)
            &&& merged.objects[id] is Dictionary
            &&& merged.objects[id]->Dictionary_0[key_parent()] == ObjectModel::Reference(root.0)
        }),
{
    lemma_names_differ();
    let objects = all_objects(documents);
    let pages = all_pages(documents);
    let merged = assembled(objects, pages, planned_bookmarks(documents))->Ok_0;
    let root = pages_root(objects)->Some_0;
    let at = catalog_index(objects)->Some_0;
    let id = pages[k].0;
    lemma_all_objects_increasing(documents);
    let source = lemma_page_source(documents, k);
    let document = documents[source.0];
    assert(pages_held(document));
    assert(page_order(document)[source.1] == id);
    let here = lemma_object_listed(documents, source.0, id);
    assert(role_of(objects[here].1) == Role::Page || role_of(objects[here].1) == Role::Other);
    lemma_apart_from_roots(objects, here);
    let passed = passed_through(Map::empty(), objects);
    assert(is_page(pages[k].1));
    lemma_with_pages_written(passed, pages, root.0, k);
    let n = choose|n: int|
        0 <= n < pages.len() && (#[trigger] pages[n]).0 == id && pages[n].1 is Dictionary
            && with_pages(passed, pages, root.0)[id] == ObjectModel::Dictionary(
            crate::finalizer::adopted(pages[n].1->Dictionary_0, root.0),
        );
    assert(is_page(pages[n].1));
    lemma_adopted_is_page(pages[n].1->Dictionary_0, root.0);
    assert(merged.objects[id] == with_pages(passed, pages, root.0)[id]);
}

/// An object that was passed through stands at its address, where no other
/// object of the list has that address.
pub proof fn lemma_passed_through_written(
    base: Map<ObjectId, ObjectModel>,
    all: Seq<Entry>,
    i: int,
)
    requires
        distinct_addresses(all),
        0 <= i < all.len(),
        role_of(all[i].1) == Role::Other,
    ensures
        passed_through(base, all).contains_key(all[i].0),
        passed_through(base, all)[all[i].0] == all[i].1,
    decreases all.len(),
{
    let shorter = all.drop_last();
    if i < all.len() - 1 {
        assert forall|a: int, b: int| 0 <= a < b < shorter.len() implies (#[trigger] shorter[a]).0
            != (#[trigger] shorter[b]).0 by {
            assert(shorter[a] == all[a] && shorter[b] == all[b]);
        }
        assert(shorter[i] == all[i]);
        lemma_passed_through_written(base, shorter, i);
        assert(all[i].0 != all[all.len() - 1].0);
    }
}

/// What stood at an address before the pages were written stands there
/// after, unless a collected page has that address.
pub proof fn lemma_with_pages_keeps(
    base: Map<ObjectId, ObjectModel>,
    pages: Seq<Entry>,
    parent: ObjectId,
    id: ObjectId,
)
    requires
        base.contains_key(id),
        forall|k: int| 0 <= k < pages.len() ==> (#[trigger] pages[k]).0 != id,
    ensures
        with_pages(base, pages, parent).contains_key(id),
        with_pages(base, pages, parent)[id] == base[id],
    decreases pages.len(),
{
    if pages.len() > 0 {
        let shorter = pages.drop_last();
        assert forall|k: int| 0 <= k < shorter.len() implies (#[trigger] shorter[k]).0 != id by {
            assert(shorter[k] == pages[k]);
        }
        lemma_with_pages_keeps(base, shorter, parent, id);
        assert(pages[pages.len() - 1].0 != id);
    }
}

/// Every object that plays no special role passes through the merge: it
/// stands at its address in what is put together, unchanged. This holds
/// where no two gathered objects share an address and no collected page has
/// the address of the object; a page that is reached through a reference is
/// written at the address of that reference.
pub proof fn lemma_others_pass_through(
    objects: Seq<Entry>,
    pages: Seq<Entry>,
    bookmarks: Seq<BookmarkView>,
    i: int,
)
    requires
        assembled(objects, pages, bookmarks) is Ok,
        distinct_addresses(objects),
        0 <= i < objects.len(),
        role_of(objects[i].1) == Role::Other,
        forall|k: int| 0 <= k < pages.len() ==> (#[trigger] pages[k]).0 != objects[i].0,
    ensures
        assembled(objects, pages, bookmarks)->Ok_0.objects.contains_key(objects[i].0),
        assembled(objects, pages, bookmarks)->Ok_0.objects[objects[i].0] == objects[i].1,
{
    let root = pages_root(objects)->Some_0;
    let at = catalog_index(objects)->Some_0;
    let id = objects[i].0;
    lemma_apart_from_roots(objects, i);
    let passed = passed_through(Map::empty(), objects);
    lemma_passed_through_written(Map::empty(), objects, i);
    lemma_with_pages_keeps(passed, pages, root.0, id);
}

} // verus!
