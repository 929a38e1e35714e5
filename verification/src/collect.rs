//! The bookmark builder and the page collection: the pages of every input,
//! in order, one bookmark for each input that has a page, and every object
//! of every input.

use vstd::prelude::*;
use crate::bookmark::{all_well_formed, bookmark_views, Bookmark, BookmarkView};
use crate::document::{
    document_model, entries_model, get_object, into_entries, is_page, page_ids,
    page_order, resolved, well_resolved,
};
use crate::listing::{lemma_listing_is, listing};
use crate::model::{lists_map, DocumentModel, Entry, ObjectId};
use crate::renumber::{document_models, lemma_total_objects_prefix, total_objects};
use crate::store::object_model;
use crate::title::{page_title, title_for};

verus! {

/// The pages of a document, each with its address, in the order of the
/// document's own page tree.
pub open spec fn page_entries(document: DocumentModel) -> Seq<Entry> {
    Seq::new(
        page_order(document).len(),
        |i: int| (page_order(document)[i], resolved(document, page_order(document)[i]).unwrap()),
    )
}

/// Every object of every document: document after document, and within a
/// document in increasing order of address.
pub open spec fn all_objects(documents: Seq<DocumentModel>) -> Seq<Entry>
    decreases documents.len(),
{
    if documents.len() == 0 {
        Seq::empty()
    } else {
        all_objects(documents.drop_last()) + listing(documents.last().objects)
    }
}

/// The pages of every document: document after document, and within a
/// document in the order of its own page tree.
pub open spec fn all_pages(documents: Seq<DocumentModel>) -> Seq<Entry>
    decreases documents.len(),
{
    if documents.len() == 0 {
        Seq::empty()
    } else {
        all_pages(documents.drop_last()) + page_entries(documents.last())
    }
}

/// The bookmark of a document whose first page stands at `first_page` and
/// has the given number among all pages: blue, at the top level.
pub open spec fn bookmark_for(first_page: ObjectId, number: nat) -> BookmarkView {
    BookmarkView { title: page_title(number), color: (0, 0, 1), level: 0, target: first_page }
}

/// One bookmark for each document that has a page, in the order of the
/// documents. It leads to the first page of its document and carries the
/// number of that page among all pages, counted from 1.
pub open spec fn planned_bookmarks(documents: Seq<DocumentModel>) -> Seq<BookmarkView>
    decreases documents.len(),
{
    if documents.len() == 0 {
        Seq::empty()
    } else {
        let before = planned_bookmarks(documents.drop_last());
        let pages = page_entries(documents.last());
        if pages.len() > 0 {
            before.push(bookmark_for(pages[0].0, all_pages(documents.drop_last()).len() + 1))
        } else {
            before
        }
    }
}

/// Every entry of the list is a dictionary whose declared type is `Page`.
pub open spec fn all_are_pages(pages: Seq<Entry>) -> bool {
    forall|i: int| 0 <= i < pages.len() ==> is_page((#[trigger] pages[i]).1)
}

/// Every page of the document stands at an address of the document, and
/// what stands there is the page itself or a reference that leads to it.
pub open spec fn pages_held(document: DocumentModel) -> bool {
    forall|i: int|
        0 <= i < page_order(document).len() ==> {
            let id = #[trigger] page_order(document)[i];
            &&& document.objects.contains_key(id)
            &&& resolved(document, id) is Some
            &&& is_page(resolved(document, id).unwrap())
            &&& document.objects[id] is Reference || document.objects[id] == resolved(
                document,
                id,
            ).unwrap()
        }
}

/// Every document holds its pages.
pub open spec fn all_pages_held(documents: Seq<DocumentModel>) -> bool {
    forall|i: int| 0 <= i < documents.len() ==> pages_held(#[trigger] documents[i])
}

/// Every document has a list of its objects in increasing order of address.
pub open spec fn all_listed(documents: Seq<DocumentModel>) -> bool {
    forall|i: int|
        0 <= i < documents.len() ==> lists_map(
            listing((#[trigger] documents[i]).objects),
            documents[i].objects,
        )
}

/// What is gathered from the inputs.
pub struct Gathered {
    /// Every object of every input.
    pub objects: Vec<(ObjectId, lopdf::Object)>,
    /// The pages of every input.
    pub pages: Vec<(ObjectId, lopdf::Object)>,
    /// One bookmark for each input that has a page.
    pub bookmarks: Vec<Bookmark>,
}

/// The pages of a document, each with its address, in the order of the
/// document's own page tree.
pub fn collect_pages(document: &lopdf::Document) -> (pages: Vec<(ObjectId, lopdf::Object)>)
    ensures
        entries_model(pages@) == page_entries(document_model(*document)),
        all_are_pages(entries_model(pages@)),
        pages_held(document_model(*document)),
        pages.len() <= document_model(*document).objects.len(),
{
    let ids = page_ids(document);
    let ghost model = document_model(*document);
    let mut pages: Vec<(ObjectId, lopdf::Object)> = Vec::new();
    let mut i: usize = 0;
    while i < ids.len()
        invariant
            i <= ids.len(),
            model == document_model(*document),
            ids@ == page_order(model),
            forall|j: int|
                0 <= j < ids@.len() ==> {
                    let found = #[trigger] resolved(model, ids@[j]);
                    found.is_some() && is_page(found.unwrap()) && well_resolved(
                        model,
                        ids@[j],
                        found,
                    )
                },
            pages.len() == i,
            forall|j: int|
                0 <= j < i ==> (#[trigger] pages@[j]).0 == ids@[j] && resolved(model, ids@[j])
                    == Some(object_model(pages@[j].1)),
        decreases ids.len() - i,
    {
        let id = ids[i];
        assert(resolved(model, ids@[i as int]).is_some());
        if let Some(object) = get_object(document, id) {
            pages.push((id, object));
        }
        i += 1;
    }
    proof {
        assert forall|j: int| 0 <= j < page_order(model).len() implies {
            let id = #[trigger] page_order(model)[j];
            &&& model.objects.contains_key(id)
            &&& resolved(model, id) is Some
            &&& is_page(resolved(model, id).unwrap())
            &&& model.objects[id] is Reference || model.objects[id] == resolved(
                model,
                id,
            ).unwrap()
        } by {
            assert(well_resolved(model, ids@[j], resolved(model, ids@[j])));
        }
        assert(entries_model(pages@) =~= page_entries(model));
        assert forall|j: int| 0 <= j < pages.len() implies is_page(
            (#[trigger] entries_model(pages@)[j]).1,
        ) by {
            assert(resolved(model, ids@[j]).is_some());
            assert(pages@[j].0 == ids@[j]);
        }
    }
    pages
}

/// The bookmark of a document, if it has a page: it leads to the first of
/// `pages` and carries `number`, the number of that page among all pages.
pub fn first_page_bookmark(pages: &Vec<(ObjectId, lopdf::Object)>, number: u32) -> (bookmark:
    Option<Bookmark>)
    ensures
        match bookmark {
            Some(made) => pages.len() > 0 && made@ == bookmark_for(pages@[0].0, number as nat),
            None => pages.len() == 0,
        },
{
    if pages.len() > 0 {
        Some(Bookmark { title: title_for(number), color: (0, 0, 1), level: 0, target: pages[0].0 })
    } else {
        None
    }
}

/// Takes the documents apart, in order: collects the pages of each, notes a
/// bookmark for each that has a page, and gathers every object.
pub fn gather(documents: Vec<lopdf::Document>) -> (gathered: Gathered)
    requires
        total_objects(document_models(documents@)) < u32::MAX,
    ensures
        entries_model(gathered.objects@) == all_objects(document_models(documents@)),
        entries_model(gathered.pages@) == all_pages(document_models(documents@)),
        bookmark_views(gathered.bookmarks@) == planned_bookmarks(document_models(documents@)),
        all_are_pages(entries_model(gathered.pages@)),
        all_well_formed(bookmark_views(gathered.bookmarks@)),
        all_listed(document_models(documents@)),
        all_pages_held(document_models(documents@)),
        gathered.objects.len() == total_objects(document_models(documents@)),
        gathered.pages.len() <= total_objects(document_models(documents@)),
        gathered.bookmarks.len() <= documents.len(),
{
    let ghost models = document_models(documents@);
    let mut documents = documents;
    let mut gathered = Gathered { objects: Vec::new(), pages: Vec::new(), bookmarks: Vec::new() };
    let ghost mut done: int = 0;
    while documents.len() > 0
        invariant
            0 <= done <= models.len(),
            documents.len() == models.len() - done,
            document_models(documents@) =~= models.skip(done),
            total_objects(models) < u32::MAX,
            entries_model(gathered.objects@) == all_objects(models.take(done)),
            entries_model(gathered.pages@) == all_pages(models.take(done)),
            bookmark_views(gathered.bookmarks@) == planned_bookmarks(models.take(done)),
            all_are_pages(entries_model(gathered.pages@)),
            all_well_formed(bookmark_views(gathered.bookmarks@)),
            forall|j: int|
                0 <= j < done ==> lists_map(
                    listing((#[trigger] models[j]).objects),
                    models[j].objects,
                ),
            forall|j: int| 0 <= j < done ==> pages_held(#[trigger] models[j]),
            gathered.objects.len() == total_objects(models.take(done)),
            gathered.pages.len() <= total_objects(models.take(done)),
            gathered.bookmarks.len() <= done,
        decreases documents.len(),
    {
        let ghost objects_before = gathered.objects@;
        let ghost pages_before = gathered.pages@;
        let ghost bookmarks_before = gathered.bookmarks@;
        let ghost remaining = documents@;
        let document = documents.remove(0);
        proof {
            assert(document_model(remaining[0]) == document_models(remaining)[0]);
            assert(document_model(document) == models.skip(done)[0]);
            assert forall|j: int| 0 <= j < documents.len() implies document_models(
                documents@,
            )[j] == models.skip(done + 1)[j] by {
                assert(documents@[j] == remaining[j + 1]);
                assert(document_model(remaining[j + 1]) == document_models(remaining)[j + 1]);
            }
            assert(document_models(documents@) =~= models.skip(done + 1));
            assert(models.take(done + 1).drop_last() =~= models.take(done));
            assert(models.take(done + 1).last() == models[done]);
            lemma_total_objects_prefix(models, done + 1);
        }
        let mut pages = collect_pages(&document);
        let number: u32 = (gathered.pages.len() + 1) as u32;
        let bookmark = first_page_bookmark(&pages, number);
        let ghost collected = pages@;
        let mut objects = into_entries(document);
        let ghost listed = objects@;
        proof {
            lemma_listing_is(entries_model(listed), models[done].objects);
        }
        gathered.pages.append(&mut pages);
        gathered.objects.append(&mut objects);
        if let Some(made) = bookmark {
            gathered.bookmarks.push(made);
        }
        proof {
            assert(gathered.objects@ == objects_before + listed);
            assert(gathered.pages@ == pages_before + collected);
            assert(entries_model(gathered.objects@) =~= entries_model(objects_before)
                + entries_model(listed));
            assert(entries_model(gathered.pages@) =~= entries_model(pages_before)
                + entries_model(collected));
            if collected.len() > 0 {
                assert(entries_model(collected)[0].0 == collected[0].0);
                assert(bookmark_views(gathered.bookmarks@) =~= bookmark_views(
                    bookmarks_before,
                ).push(bookmark_for(collected[0].0, number as nat)));
            } else {
                assert(gathered.bookmarks@ == bookmarks_before);
            }
            assert(document_models(documents@) =~= models.skip(done + 1));
            done = done + 1;
        }
    }
    proof {
        assert(models.take(done) =~= models);
    }
    gathered
}

} // verus!
