//! Documents as `lopdf` stores them. Each function here hands one operation
//! of `lopdf::Document` to the verified code, with a contract over the models
//! of `crate::model` that is taken on trust.

use vstd::prelude::*;
use crate::model::{lists_map, BookmarkModel, DocumentModel, Entry, ObjectId, ObjectModel};
use crate::model::{declared_type, dictionary_type_name};
use crate::model::name_bytes;
use crate::store::object_model;

verus! {

#[verifier::external_type_specification]
#[verifier::external_body]
pub struct ExDocument(lopdf::Document);

/// What a document holds.
pub uninterp spec fn document_model(document: lopdf::Document) -> DocumentModel;

/// What `lopdf::Document::renumber_objects_with` makes of a document, for a
/// given first number.
pub uninterp spec fn renumbered(document: DocumentModel, start: u32) -> DocumentModel;

/// The addresses of a document's pages, in the order in which
/// `lopdf::Document::get_pages` numbers them.
pub uninterp spec fn page_order(document: DocumentModel) -> Seq<ObjectId>;

/// What `lopdf::Document::get_object` finds at an address, references
/// followed.
pub uninterp spec fn resolved(document: DocumentModel, id: ObjectId) -> Option<ObjectModel>;

/// What `lopdf::Document::build_outline` makes of a document.
pub uninterp spec fn outlined(document: DocumentModel) -> DocumentModel;

/// What `lopdf::Document::compress` makes of a document.
pub uninterp spec fn compressed(document: DocumentModel) -> DocumentModel;

/// The models of a list of addressed objects.
pub open spec fn entries_model(list: Seq<(ObjectId, lopdf::Object)>) -> Seq<Entry> {
    list.map_values(|entry: (ObjectId, lopdf::Object)| (entry.0, object_model(entry.1)))
}

/// The two documents differ at most in the pages that their bookmarks point
/// to.
pub open spec fn same_bookmarks_but_pages(before: DocumentModel, after: DocumentModel) -> bool {
    &&& after.bookmarks == before.bookmarks
    &&& after.max_bookmark_id == before.max_bookmark_id
    &&& after.bookmark_table.dom() == before.bookmark_table.dom()
    &&& forall|id: u32| #[trigger]
        before.bookmark_table.contains_key(id) ==> after.bookmark_table[id] == (BookmarkModel {
            page: after.bookmark_table[id].page,
            ..before.bookmark_table[id]
        })
}

/// What the source of `lopdf::Document::renumber_objects_with` shows of the
/// addresses it assigns: the numbers run from `start` without a gap, one for
/// each object that is left, and the highest of them is recorded; no object
/// is added; of the bookmarks only the pages change.
pub open spec fn numbered_from(before: DocumentModel, after: DocumentModel, start: u32) -> bool {
    &&& after.objects.dom().finite()
    &&& after.objects.len() <= before.objects.len()
    &&& after.max_id + 1 == start + after.objects.len()
    &&& forall|id: ObjectId| #[trigger]
        after.objects.contains_key(id) ==> start <= id.0 <= after.max_id
    &&& same_bookmarks_but_pages(before, after)
}

/// Every top-level bookmark is in the table and has no children.
pub open spec fn flat_bookmarks(document: DocumentModel) -> bool {
    forall|i: int|
        0 <= i < document.bookmarks.len() ==> document.bookmark_table.contains_key(
            #[trigger] document.bookmarks[i],
        ) && document.bookmark_table[document.bookmarks[i]].children.len() == 0
}

/// What the source of `lopdf::Document::get_object` shows of what it finds
/// from an address: the address is one of the document; what is found is an
/// object of the document and no reference; and where the object at the
/// address is no reference, it is what is found. Nothing is found only where
/// the address is none of the document, or holds a reference.
pub open spec fn well_resolved(
    document: DocumentModel,
    id: ObjectId,
    found: Option<ObjectModel>,
) -> bool {
    match found {
        Some(object) => {
            &&& document.objects.contains_key(id)
            &&& !(object is Reference)
            &&& exists|at: ObjectId| #[trigger]
                document.objects.contains_key(at) && document.objects[at] == object
            &&& !(document.objects[id] is Reference) ==> object == document.objects[id]
        },
        None => !document.objects.contains_key(id) || document.objects[id] is Reference,
    }
}

/// What the source of `lopdf::Document::build_outline` shows of what it
/// leaves alone: all but the objects and the highest recorded number stays;
/// without bookmarks everything stays, and with bookmarks the root of the
/// outline is written; every object that stood at an address
/// up to the highest recorded stays; and what stands at any other address is
/// what stood there, or a dictionary without a declared type.
pub open spec fn outline_added(before: DocumentModel, after: DocumentModel) -> bool {
    &&& after == (DocumentModel { objects: after.objects, max_id: after.max_id, ..before })
    &&& before.bookmarks.len() == 0 ==> after == before
    &&& before.bookmarks.len() > 0 ==> after.objects.contains_key(
        ((before.max_id + 1) as u32, 0u16),
    )
    &&& forall|id: ObjectId| #[trigger]
        before.objects.contains_key(id) && id.0 <= before.max_id ==> after.objects.contains_key(
            id,
        ) && after.objects[id] == before.objects[id]
    &&& forall|id: ObjectId| #[trigger]
        after.objects.contains_key(id) ==> (before.objects.contains_key(id) && after.objects[id]
            == before.objects[id]) || (id.0 > before.max_id && declared_type(after.objects[id])
            is None)
}

/// What the source of `lopdf::Document::compress` shows of what it leaves
/// alone: all but the objects stays; the addresses stay; an object that is
/// no stream stays; and a stream stays a stream that declares the same type.
pub open spec fn streams_compressed(before: DocumentModel, after: DocumentModel) -> bool {
    &&& after == (DocumentModel { objects: after.objects, ..before })
    &&& after.objects.dom() == before.objects.dom()
    &&& forall|id: ObjectId| #[trigger]
        before.objects.contains_key(id) ==> if before.objects[id] is Stream {
            after.objects[id] is Stream && declared_type(after.objects[id]) == declared_type(
                before.objects[id],
            )
        } else {
            after.objects[id] == before.objects[id]
        }
}

/// The document has finitely many objects, `total` of them.
pub open spec fn finite_count(document: DocumentModel, total: usize) -> bool {
    document.objects.dom().finite() && document.objects.len() == total
}

/// The 32 bits of the real numbers 0 and 1.
pub open spec fn unit_bits(level: u8) -> u32 {
    if level == 0 {
        0
    } else {
        0x3f80_0000
    }
}

/// A dictionary whose declared type is `Page`.
pub open spec fn is_page(object: ObjectModel) -> bool {
    object is Dictionary && dictionary_type_name(object->Dictionary_0) == Some(
        name_bytes("Page"@),
    )
}

/// `lopdf::Document::with_version`: an empty document of that version.
#[verifier::external_body]
pub(crate) fn new_document(version: &str) -> (document: lopdf::Document)
    ensures
        document_model(document) == (DocumentModel {
            version: version@,
            trailer: Map::empty(),
            objects: Map::empty(),
            max_id: 0,
            max_bookmark_id: 0,
            bookmarks: Seq::empty(),
            bookmark_table: Map::empty(),
        }),
{
    lopdf::Document::with_version(version)
}

/// `BTreeMap::len` on the `objects` of a document.
#[verifier::external_body]
pub(crate) fn object_count(document: &lopdf::Document) -> (total: usize)
    ensures
        finite_count(document_model(*document), total),
{
    document.objects.len()
}

/// `lopdf::Document::renumber_objects_with`, and the `max_id` that it leaves.
/// It follows the children of every bookmark for each object that moves, so
/// it is called only where no top-level bookmark has children.
#[verifier::external_body]
pub(crate) fn renumber_from(document: &mut lopdf::Document, start: u32) -> (max_id: u32)
    requires
        1 <= start,
        flat_bookmarks(document_model(*old(document))),
        document_model(*old(document)).objects.dom().finite(),
        start + document_model(*old(document)).objects.len() <= u32::MAX,
        document_model(*old(document)).objects.len() <= i32::MAX,
    ensures
        document_model(*final(document)) == renumbered(document_model(*old(document)), start),
        numbered_from(
            document_model(*old(document)),
            document_model(*final(document)),
            start,
        ),
        max_id == document_model(*final(document)).max_id,
{
    document.renumber_objects_with(start);
    document.max_id
}

/// `lopdf::Document::get_pages`, its values in the order of their numbers:
/// at most as many pages as the document has objects, and at each address
/// `get_object` finds a dictionary whose declared type is `Page`.
#[verifier::external_body]
pub(crate) fn page_ids(document: &lopdf::Document) -> (ids: Vec<ObjectId>)
    ensures
        ids@ == page_order(document_model(*document)),
        ids@.len() <= document_model(*document).objects.len(),
        forall|i: int|
            0 <= i < ids@.len() ==> {
                let found = #[trigger] resolved(document_model(*document), ids@[i]);
                found.is_some() && is_page(found.unwrap()) && well_resolved(
                    document_model(*document),
                    ids@[i],
                    found,
                )
            },
{
    document.get_pages().into_values().collect()
}

/// `lopdf::Document::get_object`: a copy of what it finds. It starts at the
/// address and follows references; what it finds is an object of the
/// document and no reference.
#[verifier::external_body]
pub(crate) fn get_object(document: &lopdf::Document, id: ObjectId) -> (found: Option<
    lopdf::Object,
>)
    ensures
        match found {
            Some(object) => resolved(document_model(*document), id) == Some(
                object_model(object),
            ),
            None => resolved(document_model(*document), id).is_none(),
        },
        well_resolved(
            document_model(*document),
            id,
            match found {
                Some(object) => Some(object_model(object)),
                None => None,
            },
        ),
{
    document.get_object(id).ok().cloned()
}

/// `BTreeMap::get` on the `objects` of a document.
#[verifier::external_body]
pub(crate) fn object_at(document: &lopdf::Document, id: ObjectId) -> (found: Option<
    &lopdf::Object,
>)
    ensures
        found.is_some() == document_model(*document).objects.contains_key(id),
        found.is_some() ==> object_model(*found.unwrap()) == document_model(
            *document,
        ).objects[id],
{
    document.objects.get(&id)
}

/// `BTreeMap::into_iter` on the `objects` of a document: every object with
/// its address, in increasing order of address, as many as the document has.
#[verifier::external_body]
pub(crate) fn into_entries(document: lopdf::Document) -> (entries: Vec<(ObjectId, lopdf::Object)>)
    ensures
        lists_map(entries_model(entries@), document_model(document).objects),
        finite_count(document_model(document), entries.len()),
{
    document.objects.into_iter().collect()
}

/// `BTreeMap::insert` on the `objects` of a document, with a copy of the
/// object: it stands at the address, whatever stood there before.
#[verifier::external_body]
pub(crate) fn insert_object(document: &mut lopdf::Document, id: ObjectId, object: &lopdf::Object)
    ensures
        document_model(*final(document)) == (DocumentModel {
            objects: document_model(*old(document)).objects.insert(id, object_model(*object)),
            ..document_model(*old(document))
        }),
{
    document.objects.insert(id, object.clone());
}

/// `lopdf::Dictionary::get` on the trailer of a document.
#[verifier::external_body]
pub(crate) fn trailer_get<'a>(document: &'a lopdf::Document, key: &[u8]) -> (found: Option<
    &'a lopdf::Object,
>)
    ensures
        found.is_some() == document_model(*document).trailer.contains_key(key@),
        found.is_some() ==> object_model(*found.unwrap()) == document_model(
            *document,
        ).trailer[key@],
{
    document.trailer.get(key).ok()
}

/// `lopdf::Dictionary::set` on the trailer of a document.
#[verifier::external_body]
pub(crate) fn trailer_set(document: &mut lopdf::Document, key: Vec<u8>, value: lopdf::Object)
    ensures
        document_model(*final(document)) == (DocumentModel {
            trailer: document_model(*old(document)).trailer.insert(key@, object_model(value)),
            ..document_model(*old(document))
        }),
{
    document.trailer.set(key, value);
}

/// Writes the `max_id` of a document.
#[verifier::external_body]
pub(crate) fn set_max_id(document: &mut lopdf::Document, max_id: u32)
    ensures
        document_model(*final(document)) == (DocumentModel {
            max_id,
            ..document_model(*old(document))
        }),
{
    document.max_id = max_id;
}

/// `lopdf::Bookmark::new` and `lopdf::Document::add_bookmark` without a
/// parent: the bookmark gets the next identifier, enters the table without
/// children, and is the last of the top-level bookmarks.
#[verifier::external_body]
pub(crate) fn add_bookmark(
    document: &mut lopdf::Document,
    title: String,
    color: (u8, u8, u8),
    format: u32,
    page: ObjectId,
) -> (id: u32)
    requires
        document_model(*old(document)).max_bookmark_id < u32::MAX,
        color.0 <= 1 && color.1 <= 1 && color.2 <= 1,
    ensures
        id == document_model(*old(document)).max_bookmark_id + 1,
        document_model(*final(document)) == (DocumentModel {
            max_bookmark_id: id,
            bookmarks: document_model(*old(document)).bookmarks.push(id),
            bookmark_table: document_model(*old(document)).bookmark_table.insert(
                id,
                BookmarkModel {
                    children: Seq::empty(),
                    title: title@,
                    format,
                    color: (unit_bits(color.0), unit_bits(color.1), unit_bits(color.2)),
                    page,
                    id,
                },
            ),
            ..document_model(*old(document))
        }),
{
    let color = [color.0.into(), color.1.into(), color.2.into()];
    document.add_bookmark(lopdf::Bookmark::new(title, color, format, page), None)
}

/// `lopdf::Document::adjust_zero_pages`: where no top-level bookmark has
/// children, nothing changes.
#[verifier::external_body]
pub(crate) fn adjust_zero_pages(document: &mut lopdf::Document)
    requires
        flat_bookmarks(document_model(*old(document))),
    ensures
        document_model(*final(document)) == document_model(*old(document)),
{
    document.adjust_zero_pages();
}

/// `Clone::clone` on the `bookmarks` of a document: the identifiers of the
/// top-level bookmarks, in order.
#[verifier::external_body]
pub(crate) fn top_bookmarks(document: &lopdf::Document) -> (ids: Vec<u32>)
    ensures
        ids@ == document_model(*document).bookmarks,
{
    document.bookmarks.clone()
}

/// `HashMap::get` on the `bookmark_table` of a document, and the `children`
/// of what it finds.
#[verifier::external_body]
pub(crate) fn bookmark_children(document: &lopdf::Document, id: u32) -> (found: Option<
    &Vec<u32>,
>)
    ensures
        found.is_some() == document_model(*document).bookmark_table.contains_key(id),
        found.is_some() ==> found.unwrap()@ == document_model(
            *document,
        ).bookmark_table[id].children,
{
    document.bookmark_table.get(&id).map(|bookmark| &bookmark.children)
}

/// `lopdf::Document::build_outline`: without bookmarks it returns nothing
/// and changes nothing; else the root of the outline gets the number after
/// the highest recorded. It writes dictionaries without a declared type at
/// addresses above the highest recorded, and leaves the trailer, the
/// bookmarks and every other object alone.
#[verifier::external_body]
pub(crate) fn build_outline(document: &mut lopdf::Document) -> (root: Option<ObjectId>)
    requires
        flat_bookmarks(document_model(*old(document))),
        document_model(*old(document)).max_id + 1 + 2 * document_model(
            *old(document),
        ).bookmarks.len() <= u32::MAX,
    ensures
        document_model(*final(document)) == outlined(document_model(*old(document))),
        outline_added(document_model(*old(document)), document_model(*final(document))),
        root == outline_root(document_model(*old(document))),
{
    document.build_outline()
}

/// The address that the root of a document's outline gets.
pub open spec fn outline_root(document: DocumentModel) -> Option<ObjectId> {
    if document.bookmarks.len() == 0 {
        None
    } else {
        Some(((document.max_id + 1) as u32, 0u16))
    }
}

/// `lopdf::Document::compress`: only streams change, and each stays a
/// stream that declares the type it declared.
#[verifier::external_body]
pub(crate) fn compress(document: &mut lopdf::Document)
    ensures
        document_model(*final(document)) == compressed(document_model(*old(document))),
        streams_compressed(document_model(*old(document)), document_model(*final(document))),
{
    document.compress();
}

} // verus!
