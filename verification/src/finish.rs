//! The last steps of the tree finalizer: the objects of the merged document
//! are renumbered from 1, the bookmarks become an outline, the catalog is
//! pointed to it, and the streams are compressed.

use vstd::prelude::*;
use crate::document::{
    adjust_zero_pages, build_outline, compress, compressed, document_model, flat_bookmarks,
    insert_object, object_at, object_count, outline_root, outlined, renumber_from, renumbered,
    set_max_id, trailer_get,
};
use crate::model::{declared_type, key_outlines, key_root, DocumentModel, ObjectId, ObjectModel};
use crate::names::{lemma_names_differ, outlines_key, root_key};
use crate::store::{as_dict, as_reference, clone_dictionary, dict_set, dictionary, reference};

verus! {

/// The address of the catalog: what the `Root` field of the trailer refers
/// to.
pub open spec fn catalog_address(document: DocumentModel) -> Option<ObjectId> {
    if document.trailer.contains_key(key_root()) {
        match document.trailer[key_root()] {
            ObjectModel::Reference(id) => Some(id),
            _ => None,
        }
    } else {
        None
    }
}

/// The document with the `Outlines` field of its catalog pointing to the
/// root of the outline. Nothing changes where there is no outline, or no
/// dictionary at the address of the catalog.
pub open spec fn linked(document: DocumentModel, root: Option<ObjectId>) -> DocumentModel {
    match (root, catalog_address(document)) {
        (Some(root), Some(at)) => if document.objects.contains_key(at) {
            match document.objects[at] {
                ObjectModel::Dictionary(fields) => DocumentModel {
                    objects: document.objects.insert(
                        at,
                        ObjectModel::Dictionary(
                            fields.insert(key_outlines(), ObjectModel::Reference(root)),
                        ),
                    ),
                    ..document
                },
                _ => document,
            }
        } else {
            document
        },
        _ => document,
    }
}

/// The document with the number of its objects recorded as the highest
/// object number.
pub open spec fn counted(document: DocumentModel) -> DocumentModel {
    DocumentModel { max_id: document.objects.len() as u32, ..document }
}

/// What the last steps make of a document: its objects are counted and
/// renumbered from 1, the outline is built from its bookmarks, the catalog is
/// pointed to the outline, and the streams are compressed.
pub open spec fn finished(document: DocumentModel) -> DocumentModel {
    let numbered = renumbered(counted(document), 1);
    compressed(linked(outlined(numbered), outline_root(numbered)))
}

/// What the outline, the link to it and the compression leave of the
/// renumbered document. The trailer stays. Every object stays at its address
/// and declares the type it declared; but for streams and the catalog it
/// stays as it was. Every object that is added declares no type. Where the
/// trailer leads to a dictionary, that catalog is as it was, with the root
/// of the outline as its `Outlines` where an outline was built; and the root
/// of the outline is then an object of the document.
pub open spec fn settled(numbered: DocumentModel, done: DocumentModel) -> bool {
    &&& done.trailer == numbered.trailer
    &&& forall|id: ObjectId| #[trigger]
        numbered.objects.contains_key(id) ==> done.objects.contains_key(id) && declared_type(
            done.objects[id],
        ) == declared_type(numbered.objects[id])
    &&& forall|id: ObjectId| #[trigger]
        numbered.objects.contains_key(id) && !(numbered.objects[id] is Stream) && Some(id)
            != catalog_address(numbered) ==> done.objects[id] == numbered.objects[id]
    &&& forall|id: ObjectId| #[trigger]
        done.objects.contains_key(id) && !numbered.objects.contains_key(id) ==> declared_type(
            done.objects[id],
        ) is None
    &&& match catalog_address(numbered) {
        Some(at) => numbered.objects.contains_key(at) && numbered.objects[at] is Dictionary
            ==> done.objects[at] == match outline_root(numbered) {
            Some(root) => ObjectModel::Dictionary(
                numbered.objects[at]->Dictionary_0.insert(
                    key_outlines(),
                    ObjectModel::Reference(root),
                ),
            ),
            None => numbered.objects[at],
        },
        None => true,
    }
    &&& match outline_root(numbered) {
        Some(root) => done.objects.contains_key(root) && !numbered.objects.contains_key(root),
        None => done.objects.dom() == numbered.objects.dom(),
    }
}

/// The document can take the last steps: its bookmarks have no children,
/// and its objects and the objects of the outline fit the counters of the
/// store.
pub open spec fn ready_to_finish(document: DocumentModel) -> bool {
    &&& flat_bookmarks(document)
    &&& document.objects.len() <= i32::MAX
    &&& document.objects.len() + 1 + 2 * document.bookmarks.len() <= u32::MAX
}

/// Points the `Outlines` field of the catalog to the root of the outline.
pub fn link_outline(document: &mut lopdf::Document, root: Option<ObjectId>)
    ensures
        document_model(*final(document)) == linked(document_model(*old(document)), root),
{
    if let Some(root) = root {
        let key = root_key();
        let address = match trailer_get(document, key.as_slice()) {
            Some(value) => as_reference(value),
            None => None,
        };
        if let Some(at) = address {
            let rebuilt = match object_at(document, at) {
                Some(catalog) => match as_dict(catalog) {
                    Some(fields) => {
                        let mut fields = clone_dictionary(fields);
                        dict_set(&mut fields, outlines_key(), reference(root));
                        Some(dictionary(fields))
                    },
                    None => None,
                },
                None => None,
            };
            if let Some(catalog) = rebuilt {
                insert_object(document, at, &catalog);
            }
        }
    }
}

/// Takes a document through the last steps.
pub fn finish(document: lopdf::Document) -> (done: lopdf::Document)
    requires
        ready_to_finish(document_model(document)),
    ensures
        document_model(done) == finished(document_model(document)),
        settled(renumbered(counted(document_model(document)), 1), document_model(done)),
{
    let mut document = document;
    let ghost start = document_model(document);
    let total = object_count(&document);
    set_max_id(&mut document, total as u32);
    assert(document_model(document) == counted(start));
    let _ = renumber_from(&mut document, 1);
    let ghost numbered = document_model(document);
    assert(flat_bookmarks(numbered)) by {
        assert forall|i: int| 0 <= i < numbered.bookmarks.len() implies numbered.bookmark_table.contains_key(
        #[trigger] numbered.bookmarks[i]) && numbered.bookmark_table[numbered.bookmarks[i]].children.len()
            == 0 by {
            let id = start.bookmarks[i];
            assert(start.bookmark_table.contains_key(id));
            assert(numbered.bookmark_table.dom().contains(id));
        }
    }
    adjust_zero_pages(&mut document);
    let root = build_outline(&mut document);
    let ghost built = document_model(document);
    link_outline(&mut document, root);
    let ghost pointed = document_model(document);
    compress(&mut document);
    proof {
        lemma_names_differ();
        let done = document_model(document);
        assert(catalog_address(built) == catalog_address(numbered));
        assert forall|id: ObjectId| #[trigger] numbered.objects.contains_key(id) implies id.0
            <= numbered.max_id by {}
        assert forall|id: ObjectId| #[trigger]
            numbered.objects.contains_key(id) implies done.objects.contains_key(id)
            && declared_type(done.objects[id]) == declared_type(numbered.objects[id]) by {
            assert(built.objects.contains_key(id) && built.objects[id] == numbered.objects[id]);
            assert(pointed.objects.contains_key(id));
            assert(declared_type(pointed.objects[id]) == declared_type(built.objects[id]));
        }
        assert forall|id: ObjectId| #[trigger]
            done.objects.contains_key(id) && !numbered.objects.contains_key(id) implies declared_type(
            done.objects[id],
        ) is None by {
            assert(pointed.objects.contains_key(id));
            assert(built.objects.contains_key(id));
            assert(declared_type(pointed.objects[id]) == declared_type(built.objects[id]));
        }
    }
    document
}

} // verus!
