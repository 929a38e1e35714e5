//! The role that an object plays in a document, read from its declared type.

use vstd::prelude::*;
use vstd::slice::slice_to_vec;
use crate::model::{declared_type, dictionary_type_name, name_bytes, ObjectModel};
use crate::names::{linearized_key, name, same_bytes, type_key};
use crate::store::{as_dict, as_name, dict_get, dictionary_model, is_utf8, object_model, stream_dict};

verus! {

/// The roles that the merge tells apart.
#[derive(Clone, Copy, Debug, PartialEq, Eq)]
pub enum Role {
    Catalog,
    Pages,
    Page,
    Outlines,
    Outline,
    Other,
}

/// The role that goes with a declared type; `Other` where there is none.
pub open spec fn role_of_name(declared: Option<Seq<u8>>) -> Role {
    match declared {
        None => Role::Other,
        Some(bytes) => if bytes == name_bytes("Catalog"@) {
            Role::Catalog
        } else if bytes == name_bytes("Pages"@) {
            Role::Pages
        } else if bytes == name_bytes("Page"@) {
            Role::Page
        } else if bytes == name_bytes("Outlines"@) {
            Role::Outlines
        } else if bytes == name_bytes("Outline"@) {
            Role::Outline
        } else {
            Role::Other
        },
    }
}

/// The role of an object.
pub open spec fn role_of(object: ObjectModel) -> Role {
    role_of_name(declared_type(object))
}

/// The declared type of a dictionary.
pub fn dictionary_declared_type(entries: &lopdf::Dictionary) -> (declared: Option<Vec<u8>>)
    ensures
        match declared {
            Some(bytes) => dictionary_type_name(dictionary_model(*entries)) == Some(bytes@),
            None => dictionary_type_name(dictionary_model(*entries)).is_none(),
        },
{
    let key = type_key();
    if let Some(value) = dict_get(entries, key.as_slice()) {
        if let Some(bytes) = as_name(value) {
            if is_utf8(bytes) {
                return Some(slice_to_vec(bytes));
            }
        }
    }
    let fallback = linearized_key();
    if dict_get(entries, fallback.as_slice()).is_some() {
        return Some(fallback);
    }
    None
}

/// The declared type of an object.
pub fn declared_type_of(object: &lopdf::Object) -> (declared: Option<Vec<u8>>)
    ensures
        match declared {
            Some(bytes) => declared_type(object_model(*object)) == Some(bytes@),
            None => declared_type(object_model(*object)).is_none(),
        },
{
    if let Some(entries) = as_dict(object) {
        dictionary_declared_type(entries)
    } else if let Some(entries) = stream_dict(object) {
        dictionary_declared_type(entries)
    } else {
        None
    }
}

/// The role that goes with a declared type.
pub fn role_for(declared: &Option<Vec<u8>>) -> (role: Role)
    ensures
        role == role_of_name(
            match *declared {
                Some(bytes) => Some(bytes@),
                None => None,
            },
        ),
{
    match declared {
        None => Role::Other,
        Some(bytes) => {
            proof {
                reveal_strlit("Catalog");
                reveal_strlit("Pages");
                reveal_strlit("Page");
                reveal_strlit("Outlines");
                reveal_strlit("Outline");
            }
            if same_bytes(bytes.as_slice(), name("Catalog").as_slice()) {
                Role::Catalog
            } else if same_bytes(bytes.as_slice(), name("Pages").as_slice()) {
                Role::Pages
            } else if same_bytes(bytes.as_slice(), name("Page").as_slice()) {
                Role::Page
            } else if same_bytes(bytes.as_slice(), name("Outlines").as_slice()) {
                Role::Outlines
            } else if same_bytes(bytes.as_slice(), name("Outline").as_slice()) {
                Role::Outline
            } else {
                Role::Other
            }
        },
    }
}

/// The role of an object.
pub fn classify(object: &lopdf::Object) -> (role: Role)
    ensures
        role == role_of(object_model(*object)),
{
    let declared = declared_type_of(object);
    role_for(&declared)
}

} // verus!
