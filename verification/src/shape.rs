//! What the objects of the merged document look like, address by address.

use vstd::prelude::*;
use crate::classify::{role_of, Role};
use crate::document::is_page;
use crate::bookmark::BookmarkView;
use crate::finalizer::{adopted, assembled, unified_catalog, unified_pages, with_pages};
use crate::merger::{catalog_index, is_pages_root, pages_root, passed_through};
use crate::model::{
    dictionary_type_name, key_count, key_kids, key_linearized, key_outlines, key_pages,
    key_parent, key_type, DictionaryModel, Entry, ObjectId, ObjectModel,
};
use crate::names::lemma_names_differ;

verus! {

/// A field that is neither `Type` nor `Linearized` can be written without
/// changing the declared type.
pub proof fn lemma_type_survives_insert(
    fields: DictionaryModel,
    key: Seq<u8>,
    value: ObjectModel,
)
    requires
        key != key_type(),
        key != key_linearized(),
    ensures
        dictionary_type_name(fields.insert(key, value)) == dictionary_type_name(fields),
{
}

/// A field that is neither `Type` nor `Linearized` can be removed without
/// changing the declared type.
pub proof fn lemma_type_survives_remove(fields: DictionaryModel, key: Seq<u8>)
    requires
        key != key_type(),
        key != key_linearized(),
    ensures
        dictionary_type_name(fields.remove(key)) == dictionary_type_name(fields),
{
}

/// An adopted page is still a page.
pub proof fn lemma_adopted_is_page(fields: DictionaryModel, parent: ObjectId)
    requires
        is_page(ObjectModel::Dictionary(fields)),
    ensures
        is_page(ObjectModel::Dictionary(adopted(fields, parent))),
        role_of(ObjectModel::Dictionary(adopted(fields, parent))) == Role::Page,
{
    lemma_names_differ();
    lemma_type_survives_insert(fields, key_parent(), ObjectModel::Reference(parent));
}

/// The unified catalog plays the role that the catalog played.
pub proof fn lemma_unified_catalog_role(fields: DictionaryModel, pages_id: ObjectId)
    ensures
        role_of(ObjectModel::Dictionary(unified_catalog(fields, pages_id))) == role_of(
            ObjectModel::Dictionary(fields),
        ),
        !unified_catalog(fields, pages_id).contains_key(key_outlines()),
        unified_catalog(fields, pages_id).contains_key(key_pages()),
        unified_catalog(fields, pages_id)[key_pages()] == ObjectModel::Reference(pages_id),
{
    lemma_names_differ();
    let pointed = fields.insert(key_pages(), ObjectModel::Reference(pages_id));
    lemma_type_survives_insert(fields, key_pages(), ObjectModel::Reference(pages_id));
    lemma_type_survives_remove(pointed, key_outlines());
}

/// The unified page-tree root declares the type that the gathered fields
/// declare, and holds the count and the references.
pub proof fn lemma_unified_pages_fields(gathered: DictionaryModel, pages: Seq<Entry>)
    ensures
        dictionary_type_name(unified_pages(gathered, pages)) == dictionary_type_name(gathered),
        unified_pages(gathered, pages).contains_key(key_count()),
        unified_pages(gathered, pages)[key_count()] == ObjectModel::Integer(pages.len() as i64),
        unified_pages(gathered, pages).contains_key(key_kids()),
        unified_pages(gathered, pages)[key_kids()] == ObjectModel::Array(
            crate::finalizer::kids(pages),
        ),
{
    lemma_names_differ();
    let count = ObjectModel::Integer(pages.len() as i64);
    lemma_type_survives_insert(gathered, key_count(), count);
    lemma_type_survives_insert(
        gathered.insert(key_count(), count),
        key_kids(),
        ObjectModel::Array(crate::finalizer::kids(pages)),
    );
}

/// What was passed through either stood in the base or plays no special
/// role.
pub proof fn lemma_passed_through_shape(
    base: Map<ObjectId, ObjectModel>,
    all: Seq<Entry>,
    id: ObjectId,
)
    requires
        passed_through(base, all).contains_key(id),
    ensures
        (base.contains_key(id) && passed_through(base, all)[id] == base[id]) || role_of(
            passed_through(base, all)[id],
        ) == Role::Other,
    decreases all.len(),
{
    if all.len() > 0 {
        let before = passed_through(base, all.drop_last());
        if role_of(all.last().1) == Role::Other && all.last().0 == id {
        } else {
            assert(before.contains_key(id));
            lemma_passed_through_shape(base, all.drop_last(), id);
        }
    }
}

/// What stands at an address after the pages were written either stood in
/// the base, or is a collected page of that address, adopted.
pub proof fn lemma_with_pages_shape(
    base: Map<ObjectId, ObjectModel>,
    pages: Seq<Entry>,
    parent: ObjectId,
    id: ObjectId,
)
    requires
        with_pages(base, pages, parent).contains_key(id),
    ensures
        (base.contains_key(id) && with_pages(base, pages, parent)[id] == base[id]) || (exists|
            k: int,
        |
            0 <= k < pages.len() && (#[trigger] pages[k]).0 == id && pages[k].1 is Dictionary
                && with_pages(base, pages, parent)[id] == ObjectModel::Dictionary(
                adopted(pages[k].1->Dictionary_0, parent),
            )),
    decreases pages.len(),
{
    if pages.len() > 0 {
        let shorter = pages.drop_last();
        let page = pages.last();
        if page.1 is Dictionary && page.0 == id {
            assert(pages[pages.len() - 1] == page);
        } else {
            assert(with_pages(base, shorter, parent).contains_key(id));
            lemma_with_pages_shape(base, shorter, parent, id);
            if !(base.contains_key(id) && with_pages(base, shorter, parent)[id] == base[id]) {
                let k = choose|k: int|
                    0 <= k < shorter.len() && (#[trigger] shorter[k]).0 == id
                        && shorter[k].1 is Dictionary && with_pages(base, shorter, parent)[id]
                        == ObjectModel::Dictionary(adopted(shorter[k].1->Dictionary_0, parent));
                assert(pages[k] == shorter[k]);
            }
        }
    }
}

/// There is no root of a page tree exactly where no object counts as one.
pub proof fn lemma_pages_root_none(all: Seq<Entry>)
    ensures
        pages_root(all) is None <==> forall|i: int|
            0 <= i < all.len() ==> !is_pages_root((#[trigger] all[i]).1),
    decreases all.len(),
{
    if all.len() > 0 {
        let shorter = all.drop_last();
        lemma_pages_root_none(shorter);
        if pages_root(all) is None {
            assert forall|i: int| 0 <= i < all.len() implies !is_pages_root(
                (#[trigger] all[i]).1,
            ) by {
                if i < all.len() - 1 {
                    assert(shorter[i] == all[i]);
                }
            }
        } else {
            if is_pages_root(all.last().1) {
                assert(all[all.len() - 1] == all.last());
            } else {
                let i = choose|i: int| 0 <= i < shorter.len() && is_pages_root((#[trigger] shorter[i]).1);
                assert(all[i] == shorter[i]);
            }
        }
    }
}

/// There is no catalog exactly where no object plays that role.
pub proof fn lemma_catalog_index_none(all: Seq<Entry>)
    ensures
        catalog_index(all) is None <==> forall|i: int|
            0 <= i < all.len() ==> role_of((#[trigger] all[i]).1) != Role::Catalog,
    decreases all.len(),
{
    if all.len() > 0 {
        let shorter = all.drop_last();
        lemma_catalog_index_none(shorter);
        if catalog_index(all) is None {
            assert forall|i: int| 0 <= i < all.len() implies role_of((#[trigger] all[i]).1)
                != Role::Catalog by {
                if i < all.len() - 1 {
                    assert(shorter[i] == all[i]);
                }
            }
        } else {
            if catalog_index(shorter) is None {
                assert(all[all.len() - 1] == all.last());
            } else {
                let i = choose|i: int|
                    0 <= i < shorter.len() && role_of((#[trigger] shorter[i]).1) == Role::Catalog;
                assert(all[i] == shorter[i]);
            }
        }
    }
}

/// The catalog is the first object that plays that role.
pub proof fn lemma_catalog_is_first(all: Seq<Entry>)
    ensures
        match catalog_index(all) {
            Some(at) => 0 <= at < all.len() && role_of(all[at].1) == Role::Catalog && forall|
                i: int,
            |
                0 <= i < at ==> role_of((#[trigger] all[i]).1) != Role::Catalog,
            None => true,
        },
    decreases all.len(),
{
    if all.len() > 0 {
        let shorter = all.drop_last();
        lemma_catalog_is_first(shorter);
        lemma_catalog_index_none(shorter);
        match catalog_index(all) {
            Some(at) => {
                assert forall|i: int| 0 <= i < at implies role_of((#[trigger] all[i]).1)
                    != Role::Catalog by {
                    assert(shorter[i] == all[i]);
                }
            },
            None => {},
        }
    }
}

/// The unified page-tree root has the address of the first object that
/// counts as such a root.
pub proof fn lemma_root_is_first(all: Seq<Entry>)
    ensures
        match pages_root(all) {
            Some(root) => exists|at: int|
                0 <= at < all.len() && is_pages_root((#[trigger] all[at]).1) && all[at].0
                    == root.0 && forall|i: int|
                    0 <= i < at ==> !is_pages_root((#[trigger] all[i]).1),
            None => true,
        },
    decreases all.len(),
{
    if all.len() > 0 {
        let shorter = all.drop_last();
        lemma_root_is_first(shorter);
        lemma_pages_root_none(shorter);
        match pages_root(shorter) {
            Some(root) => {
                let at = choose|at: int|
                    0 <= at < shorter.len() && is_pages_root((#[trigger] shorter[at]).1)
                        && shorter[at].0 == root.0 && forall|i: int|
                        0 <= i < at ==> !is_pages_root((#[trigger] shorter[i]).1);
                assert(all[at] == shorter[at]);
                assert forall|i: int| 0 <= i < at implies !is_pages_root((#[trigger] all[i]).1) by {
                    assert(shorter[i] == all[i]);
                }
            },
            None => {
                if is_pages_root(all.last().1) {
                    let at = all.len() - 1;
                    assert(all[at] == all.last());
                    assert forall|i: int| 0 <= i < at implies !is_pages_root(
                        (#[trigger] all[i]).1,
                    ) by {
                        assert(shorter[i] == all[i]);
                    }
                }
            },
        }
    }
}

/// What can stand at an address of what is put together: the unified
/// catalog, the unified root of the page tree, a collected page of that
/// address, adopted, or an object that plays no special role.
pub open spec fn stands_as(
    objects: Seq<Entry>,
    pages: Seq<Entry>,
    id: ObjectId,
    found: ObjectModel,
) -> bool {
    let root = pages_root(objects)->Some_0;
    let catalog = objects[catalog_index(objects)->Some_0];
    ||| catalog.1 is Dictionary && id == catalog.0 && found == ObjectModel::Dictionary(
        unified_catalog(catalog.1->Dictionary_0, root.0),
    )
    ||| id == root.0 && found == ObjectModel::Dictionary(unified_pages(root.1, pages))
    ||| exists|k: int|
        0 <= k < pages.len() && (#[trigger] pages[k]).0 == id && pages[k].1 is Dictionary && found
            == ObjectModel::Dictionary(adopted(pages[k].1->Dictionary_0, root.0))
    ||| role_of(found) == Role::Other
}

/// Every object of what is put together is the unified catalog, the unified
/// root, an adopted page or an object that plays no special role.
pub proof fn lemma_merged_shape(
    objects: Seq<Entry>,
    pages: Seq<Entry>,
    bookmarks: Seq<BookmarkView>,
    id: ObjectId,
)
    requires
        assembled(objects, pages, bookmarks) is Ok,
        assembled(objects, pages, bookmarks)->Ok_0.objects.contains_key(id),
    ensures
        stands_as(objects, pages, id, assembled(objects, pages, bookmarks)->Ok_0.objects[id]),
{
    let merged = assembled(objects, pages, bookmarks)->Ok_0;
    let root = pages_root(objects)->Some_0;
    let catalog = objects[catalog_index(objects)->Some_0];
    let passed = passed_through(Map::empty(), objects);
    let paged = with_pages(passed, pages, root.0);
    if catalog.1 is Dictionary && id == catalog.0 {
    } else if id == root.0 {
    } else {
        assert(paged.contains_key(id) && paged[id] == merged.objects[id]);
        lemma_with_pages_shape(passed, pages, root.0, id);
        if passed.contains_key(id) && paged[id] == passed[id] {
            lemma_passed_through_shape(Map::empty(), objects, id);
        }
    }
}

} // verus!
