//! The classifier and merger: one pass over every object of every input,
//! which finds the catalog, folds the page-tree roots into one, and hands the
//! objects that play no special role to the output unchanged.

use vstd::prelude::*;
use crate::classify::{classify, role_of, Role};
use crate::document::{document_model, entries_model, insert_object};
use crate::model::{
    dictionary_type_name, key_type, name_bytes, DictionaryModel, DocumentModel, Entry, ObjectId,
    ObjectModel,
};
use crate::names::lemma_names_differ;
use crate::store::{as_dict, clone_dictionary, dict_extend, dictionary_model, extended};

verus! {

/// The position of the first object whose role is `Catalog`.
pub open spec fn catalog_index(all: Seq<Entry>) -> Option<int>
    decreases all.len(),
{
    if all.len() == 0 {
        None
    } else {
        match catalog_index(all.drop_last()) {
            Some(i) => Some(i),
            None => if role_of(all.last().1) == Role::Catalog {
                Some(all.len() - 1)
            } else {
                None
            },
        }
    }
}

/// Whether an object counts as a root of a page tree: a dictionary whose
/// role is `Pages`.
pub open spec fn is_pages_root(object: ObjectModel) -> bool {
    role_of(object) == Role::Pages && object is Dictionary
}

/// The unified root of the page trees, before its pages are written into
/// it: the address is that of the first root; each later root is extended by
/// what was gathered before it.
pub open spec fn pages_root(all: Seq<Entry>) -> Option<(ObjectId, DictionaryModel)>
    decreases all.len(),
{
    if all.len() == 0 {
        None
    } else {
        let before = pages_root(all.drop_last());
        let entry = all.last();
        if is_pages_root(entry.1) {
            match before {
                None => Some((entry.0, entry.1->Dictionary_0)),
                Some(root) => Some((root.0, extended(entry.1->Dictionary_0, root.1))),
            }
        } else {
            before
        }
    }
}

/// The unified root still declares itself the root of a page tree. What the
/// store's `extend` makes of two dictionaries is not defined here; that it
/// leaves the `Type` of the extended one alone is.
pub open spec fn root_keeps_type(all: Seq<Entry>) -> bool {
    match pages_root(all) {
        Some(root) => dictionary_type_name(root.1) == Some(name_bytes("Pages"@)),
        None => true,
    }
}

/// The position of the first object that counts as a root of a page tree.
pub open spec fn first_root_index(all: Seq<Entry>) -> Option<int>
    decreases all.len(),
{
    if all.len() == 0 {
        None
    } else {
        match first_root_index(all.drop_last()) {
            Some(i) => Some(i),
            None => if is_pages_root(all.last().1) {
                Some(all.len() - 1)
            } else {
                None
            },
        }
    }
}

/// The unified root has the address of the first root of a page tree, and
/// exactly the fields that this first root has: a field that only a later
/// root has is not taken over. Which value stands under a field that several
/// roots have is the store's `extend` to say.
pub open spec fn root_keeps_names(all: Seq<Entry>) -> bool {
    match pages_root(all) {
        Some(root) => match first_root_index(all) {
            Some(at) => 0 <= at < all.len() && is_pages_root(all[at].1) && root.0 == all[at].0
                && root.1.dom() == all[at].1->Dictionary_0.dom(),
            None => false,
        },
        None => first_root_index(all) is None,
    }
}

/// The objects of `base`, and over them, in order, each object of `all` whose
/// role is `Other`.
pub open spec fn passed_through(base: Map<ObjectId, ObjectModel>, all: Seq<Entry>) -> Map<
    ObjectId,
    ObjectModel,
>
    decreases all.len(),
{
    if all.len() == 0 {
        base
    } else {
        let before = passed_through(base, all.drop_last());
        if role_of(all.last().1) == Role::Other {
            before.insert(all.last().0, all.last().1)
        } else {
            before
        }
    }
}

/// What the pass over the objects finds.
pub struct Roots {
    /// The position of the first catalog among the objects.
    pub catalog: Option<usize>,
    /// The address and the gathered fields of the unified page-tree root.
    pub pages: Option<(ObjectId, lopdf::Dictionary)>,
}

impl Roots {
    /// The page-tree root, as a model.
    pub open spec fn pages_model(&self) -> Option<(ObjectId, DictionaryModel)> {
        match self.pages {
            Some(root) => Some((root.0, dictionary_model(root.1))),
            None => None,
        }
    }

    /// The position of the catalog, as a model.
    pub open spec fn catalog_model(&self) -> Option<int> {
        match self.catalog {
            Some(i) => Some(i as int),
            None => None,
        }
    }
}

/// Classifies every object, in order. Objects whose role is `Other` enter
/// the output at their address. The first catalog is noted. The page-tree
/// roots are folded into one. Pages and outline objects are left out.
pub fn merge_objects(output: &mut lopdf::Document, objects: &Vec<(ObjectId, lopdf::Object)>) -> (roots:
    Roots)
    ensures
        document_model(*final(output)) == (DocumentModel {
            objects: passed_through(
                document_model(*old(output)).objects,
                entries_model(objects@),
            ),
            ..document_model(*old(output))
        }),
        roots.catalog_model() == catalog_index(entries_model(objects@)),
        roots.pages_model() == pages_root(entries_model(objects@)),
        root_keeps_type(entries_model(objects@)),
        root_keeps_names(entries_model(objects@)),
{
    let ghost all = entries_model(objects@);
    let ghost base = document_model(*output);
    let mut roots = Roots { catalog: None, pages: None };
    let mut i: usize = 0;
    while i < objects.len()
        invariant
            i <= objects.len(),
            all == entries_model(objects@),
            all.len() == objects.len(),
            document_model(*output) == (DocumentModel {
                objects: passed_through(base.objects, all.take(i as int)),
                ..base
            }),
            roots.catalog_model() == catalog_index(all.take(i as int)),
            roots.pages_model() == pages_root(all.take(i as int)),
            root_keeps_type(all.take(i as int)),
            root_keeps_names(all.take(i as int)),
        decreases objects.len() - i,
    {
        let id = objects[i].0;
        let object = &objects[i].1;
        proof {
            let next = all.take(i + 1);
            assert(next.drop_last() =~= all.take(i as int));
            assert(next.last() == all[i as int]);
            assert(all[i as int] == (id, crate::store::object_model(*object)));
            if first_root_index(all.take(i as int)) is Some {
                let at = first_root_index(all.take(i as int))->Some_0;
                assert(next[at] == all.take(i as int)[at]);
            }
        }
        match classify(object) {
            Role::Catalog => {
                if roots.catalog.is_none() {
                    roots.catalog = Some(i);
                }
            },
            Role::Pages => {
                if let Some(entries) = as_dict(object) {
                    let mut merged = clone_dictionary(entries);
                    let before = roots.pages;
                    proof {
                        lemma_names_differ();
                    }
                    roots.pages = match before {
                        Some(root) => {
                            dict_extend(&mut merged, &root.1);
                            assert(dictionary_model(merged)[key_type()] == dictionary_model(
                                *entries,
                            )[key_type()]);
                            Some((root.0, merged))
                        },
                        None => Some((id, merged)),
                    };
                }
            },
            Role::Page => {},
            Role::Outlines => {},
            Role::Outline => {},
            Role::Other => {
                insert_object(output, id, object);
            },
        }
        i += 1;
    }
    assert(all.take(i as int) =~= all);
    roots
}

} // verus!
