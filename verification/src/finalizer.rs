//! The tree finalizer: hangs every collected page under the unified
//! page-tree root, rebuilds that root and the catalog, and puts the parts
//! together into one document.

use vstd::prelude::*;
use vstd::string::StringExecFns;
use crate::bookmark::{
    add_bookmarks, all_well_formed, bookmark_views, with_bookmarks, Bookmark, BookmarkView,
};
use crate::document::{document_model, entries_model, insert_object, new_document, trailer_set};
use crate::merger::{
    catalog_index, merge_objects, passed_through, pages_root, root_keeps_names, root_keeps_type,
};
use crate::model::{
    key_count, key_kids, key_outlines, key_pages, key_parent, key_root, DictionaryModel,
    DocumentModel, Entry, ObjectId, ObjectModel,
};
use crate::names::{count_key, kids_key, outlines_key, pages_key, parent_key, root_key};
use crate::shape::lemma_catalog_is_first;
use crate::store::{
    array, as_dict, clone_dictionary, dict_remove, dict_set, dictionary, dictionary_model,
    integer, object_model, reference,
};

verus! {

/// Why a merge produces no document.
#[derive(Clone, Copy, Debug, PartialEq, Eq)]
pub enum MergeError {
    /// No input holds the root of a page tree.
    MissingPagesRoot,
    /// No input holds a catalog.
    MissingCatalogRoot,
}

impl MergeError {
    /// What to tell the user.
    pub open spec fn message_text(self) -> Seq<char> {
        match self {
            MergeError::MissingPagesRoot => "Pages root not found."@,
            MergeError::MissingCatalogRoot => "Catalog root not found."@,
        }
    }

    /// What to tell the user.
    pub fn message(&self) -> (text: String)
        ensures
            text@ == self.message_text(),
    {
        match self {
            MergeError::MissingPagesRoot => String::from_str("Pages root not found."),
            MergeError::MissingCatalogRoot => String::from_str("Catalog root not found."),
        }
    }
}

/// A page with its `Parent` field pointing to `parent`.
pub open spec fn adopted(page: DictionaryModel, parent: ObjectId) -> DictionaryModel {
    page.insert(key_parent(), ObjectModel::Reference(parent))
}

/// The objects of `base`, and over them, in order, each collected page that
/// is a dictionary, adopted by `parent`.
pub open spec fn with_pages(
    base: Map<ObjectId, ObjectModel>,
    pages: Seq<Entry>,
    parent: ObjectId,
) -> Map<ObjectId, ObjectModel>
    decreases pages.len(),
{
    if pages.len() == 0 {
        base
    } else {
        let before = with_pages(base, pages.drop_last(), parent);
        let page = pages.last();
        match page.1 {
            ObjectModel::Dictionary(fields) => before.insert(
                page.0,
                ObjectModel::Dictionary(adopted(fields, parent)),
            ),
            _ => before,
        }
    }
}

/// One reference to each collected page, in the order of collection.
pub open spec fn kids(pages: Seq<Entry>) -> Seq<ObjectModel> {
    Seq::new(pages.len(), |i: int| ObjectModel::Reference(pages[i].0))
}

/// The unified page-tree root: the gathered fields, with the number of
/// collected pages as `Count` and the references to them as `Kids`.
pub open spec fn unified_pages(gathered: DictionaryModel, pages: Seq<Entry>) -> DictionaryModel {
    gathered.insert(key_count(), ObjectModel::Integer(pages.len() as i64)).insert(
        key_kids(),
        ObjectModel::Array(kids(pages)),
    )
}

/// The unified catalog: it points to the unified page-tree root and has no
/// `Outlines` field.
pub open spec fn unified_catalog(catalog: DictionaryModel, pages_id: ObjectId) -> DictionaryModel {
    catalog.insert(key_pages(), ObjectModel::Reference(pages_id)).remove(key_outlines())
}

/// The objects of the merged document: what is passed through, the adopted
/// pages, the unified page-tree root and, where the catalog is a dictionary,
/// the unified catalog, each overwriting what stood at its address.
pub open spec fn merged_objects(
    objects: Seq<Entry>,
    pages: Seq<Entry>,
    root: (ObjectId, DictionaryModel),
    catalog: Entry,
) -> Map<ObjectId, ObjectModel> {
    let rooted = with_pages(passed_through(Map::empty(), objects), pages, root.0).insert(
        root.0,
        ObjectModel::Dictionary(unified_pages(root.1, pages)),
    );
    match catalog.1 {
        ObjectModel::Dictionary(fields) => rooted.insert(
            catalog.0,
            ObjectModel::Dictionary(unified_catalog(fields, root.0)),
        ),
        _ => rooted,
    }
}

/// The document that the merge puts together from every object of the
/// inputs, the collected pages and the bookmarks; or the reason why there is
/// none. The root of a page tree is looked for first.
pub open spec fn assembled(
    objects: Seq<Entry>,
    pages: Seq<Entry>,
    bookmarks: Seq<BookmarkView>,
) -> Result<DocumentModel, MergeError> {
    match pages_root(objects) {
        None => Err(MergeError::MissingPagesRoot),
        Some(root) => match catalog_index(objects) {
            None => Err(MergeError::MissingCatalogRoot),
            Some(at) => Ok(
                with_bookmarks(
                    DocumentModel {
                        version: "1.5"@,
                        trailer: Map::<Seq<u8>, ObjectModel>::empty().insert(
                            key_root(),
                            ObjectModel::Reference(objects[at].0),
                        ),
                        objects: merged_objects(objects, pages, root, objects[at]),
                        max_id: 0,
                        max_bookmark_id: 0,
                        bookmarks: Seq::empty(),
                        bookmark_table: Map::empty(),
                    },
                    bookmarks,
                ),
            ),
        },
    }
}

/// Writes every collected page that is a dictionary into the output, at its
/// address and with `parent` as its `Parent`.
pub fn insert_pages(
    output: &mut lopdf::Document,
    pages: &Vec<(ObjectId, lopdf::Object)>,
    parent: ObjectId,
)
    ensures
        document_model(*final(output)) == (DocumentModel {
            objects: with_pages(
                document_model(*old(output)).objects,
                entries_model(pages@),
                parent,
            ),
            ..document_model(*old(output))
        }),
{
    let ghost all = entries_model(pages@);
    let ghost base = document_model(*output);
    let mut i: usize = 0;
    while i < pages.len()
        invariant
            i <= pages.len(),
            all == entries_model(pages@),
            document_model(*output) == (DocumentModel {
                objects: with_pages(base.objects, all.take(i as int), parent),
                ..base
            }),
        decreases pages.len() - i,
    {
        let id = pages[i].0;
        let object = &pages[i].1;
        proof {
            let next = all.take(i + 1);
            assert(next.drop_last() =~= all.take(i as int));
            assert(next.last() == all[i as int]);
            assert(all[i as int] == (id, object_model(*object)));
        }
        if let Some(fields) = as_dict(object) {
            let mut fields = clone_dictionary(fields);
            dict_set(&mut fields, parent_key(), reference(parent));
            let page = dictionary(fields);
            insert_object(output, id, &page);
        }
        i += 1;
    }
    assert(all.take(i as int) =~= all);
}

/// One reference to each collected page, in the order of collection.
pub fn page_references(pages: &Vec<(ObjectId, lopdf::Object)>) -> (references: Vec<lopdf::Object>)
    ensures
        references@.map_values(|item: lopdf::Object| object_model(item)) == kids(
            entries_model(pages@),
        ),
{
    let mut references: Vec<lopdf::Object> = Vec::new();
    let mut i: usize = 0;
    while i < pages.len()
        invariant
            i <= pages.len(),
            references.len() == i,
            forall|j: int|
                0 <= j < i ==> object_model(#[trigger] references@[j]) == ObjectModel::Reference(
                    pages@[j].0,
                ),
        decreases pages.len() - i,
    {
        references.push(reference(pages[i].0));
        i += 1;
    }
    assert(references@.map_values(|item: lopdf::Object| object_model(item)) =~= kids(
        entries_model(pages@),
    ));
    references
}

/// Rebuilds the page-tree root from the gathered fields and the collected
/// pages.
pub fn build_pages_root(gathered: lopdf::Dictionary, pages: &Vec<(ObjectId, lopdf::Object)>) -> (root:
    lopdf::Object)
    requires
        pages.len() <= u32::MAX,
    ensures
        object_model(root) == ObjectModel::Dictionary(
            unified_pages(dictionary_model(gathered), entries_model(pages@)),
        ),
{
    let mut fields = gathered;
    let total: i64 = pages.len() as i64;
    dict_set(&mut fields, count_key(), integer(total));
    dict_set(&mut fields, kids_key(), array(page_references(pages)));
    dictionary(fields)
}

/// Rebuilds the catalog, where it is a dictionary: it points to the unified
/// page-tree root, and its `Outlines` field is gone.
pub fn build_catalog(catalog: &lopdf::Object, pages_id: ObjectId) -> (rebuilt: Option<
    lopdf::Object,
>)
    ensures
        match object_model(*catalog) {
            ObjectModel::Dictionary(fields) => rebuilt.is_some() && object_model(rebuilt.unwrap())
                == ObjectModel::Dictionary(unified_catalog(fields, pages_id)),
            _ => rebuilt.is_none(),
        },
{
    match as_dict(catalog) {
        Some(fields) => {
            let mut fields = clone_dictionary(fields);
            dict_set(&mut fields, pages_key(), reference(pages_id));
            let outlines = outlines_key();
            dict_remove(&mut fields, outlines.as_slice());
            Some(dictionary(fields))
        },
        None => None,
    }
}

/// Puts the merged document together from every object of the inputs, in
/// order, the collected pages, in order, and the bookmarks. Fails where no
/// object is the root of a page tree; and, that settled, where none is a
/// catalog.
pub fn assemble(
    objects: &Vec<(ObjectId, lopdf::Object)>,
    pages: &Vec<(ObjectId, lopdf::Object)>,
    bookmarks: &Vec<Bookmark>,
) -> (outcome: Result<lopdf::Document, MergeError>)
    requires
        pages.len() <= u32::MAX,
        bookmarks.len() < u32::MAX,
        all_well_formed(bookmark_views(bookmarks@)),
    ensures
        match outcome {
            Ok(document) => assembled(
                entries_model(objects@),
                entries_model(pages@),
                bookmark_views(bookmarks@),
            ) == Ok::<DocumentModel, MergeError>(document_model(document)),
            Err(error) => assembled(
                entries_model(objects@),
                entries_model(pages@),
                bookmark_views(bookmarks@),
            ) == Err::<DocumentModel, MergeError>(error),
        },
        root_keeps_type(entries_model(objects@)),
        root_keeps_names(entries_model(objects@)),
{
    let mut output = new_document("1.5");
    add_bookmarks(&mut output, bookmarks);
    let roots = merge_objects(&mut output, objects);
    let root = match roots.pages {
        Some(root) => root,
        None => {
            return Err(MergeError::MissingPagesRoot);
        },
    };
    insert_pages(&mut output, pages, root.0);
    let at = match roots.catalog {
        Some(at) => at,
        None => {
            return Err(MergeError::MissingCatalogRoot);
        },
    };
    proof {
        lemma_catalog_is_first(entries_model(objects@));
    }
    let catalog_id = objects[at].0;
    let pages_root = build_pages_root(root.1, pages);
    insert_object(&mut output, root.0, &pages_root);
    if let Some(catalog) = build_catalog(&objects[at].1, root.0) {
        insert_object(&mut output, catalog_id, &catalog);
    }
    trailer_set(&mut output, root_key(), reference(catalog_id));
    proof {
        let all = entries_model(objects@);
        let expected = assembled(all, entries_model(pages@), bookmark_views(bookmarks@));
        assert(all[at as int] == (catalog_id, object_model(objects@[at as int].1)));
        assert(expected->Ok_0.trailer =~= document_model(output).trailer);
        assert(expected->Ok_0.objects =~= document_model(output).objects);
    }
    Ok(output)
}

} // verus!
