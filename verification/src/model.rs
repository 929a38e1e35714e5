//! Mathematical models of PDF values: what an object, a dictionary and a
//! document hold, independent of how they are stored.

use vstd::prelude::*;
use vstd::utf8::valid_utf8;

verus! {

/// The address of an indirect object: its number and its generation.
pub type ObjectId = (u32, u16);

/// A dictionary as a map from field name to value. The order in which the
/// fields are written is not part of the model.
pub type DictionaryModel = Map<Seq<u8>, ObjectModel>;

/// What a PDF object holds.
pub enum ObjectModel {
    Null,
    Boolean(bool),
    Integer(i64),
    /// A real number, by its 32 bits.
    Real(u32),
    Name(Seq<u8>),
    /// The bytes of a string, and whether it is written in hexadecimal.
    String(Seq<u8>, bool),
    Array(Seq<ObjectModel>),
    Dictionary(Map<Seq<u8>, ObjectModel>),
    Stream(StreamModel),
    Reference(ObjectId),
}

/// What a stream holds: its dictionary and its bytes.
pub struct StreamModel {
    pub dict: Map<Seq<u8>, ObjectModel>,
    pub content: Seq<u8>,
    pub allows_compression: bool,
    pub start_position: Option<usize>,
}

/// One entry of a document's bookmark table.
pub struct BookmarkModel {
    pub children: Seq<u32>,
    pub title: Seq<char>,
    pub format: u32,
    /// Red, green and blue, each by its 32 bits.
    pub color: (u32, u32, u32),
    pub page: ObjectId,
    pub id: u32,
}

/// What a document holds.
pub struct DocumentModel {
    pub version: Seq<char>,
    pub trailer: Map<Seq<u8>, ObjectModel>,
    pub objects: Map<ObjectId, ObjectModel>,
    pub max_id: u32,
    pub max_bookmark_id: u32,
    /// The identifiers of the top-level bookmarks, in order.
    pub bookmarks: Seq<u32>,
    pub bookmark_table: Map<u32, BookmarkModel>,
}

/// An indirect object together with its address.
pub type Entry = (ObjectId, ObjectModel);

/// The bytes of a name written in ASCII.
pub open spec fn name_bytes(text: Seq<char>) -> Seq<u8> {
    Seq::new(text.len(), |i: int| text[i] as u8)
}

pub open spec fn key_type() -> Seq<u8> {
    name_bytes("Type"@)
}

pub open spec fn key_linearized() -> Seq<u8> {
    name_bytes("Linearized"@)
}

pub open spec fn key_parent() -> Seq<u8> {
    name_bytes("Parent"@)
}

pub open spec fn key_count() -> Seq<u8> {
    name_bytes("Count"@)
}

pub open spec fn key_kids() -> Seq<u8> {
    name_bytes("Kids"@)
}

pub open spec fn key_pages() -> Seq<u8> {
    name_bytes("Pages"@)
}

pub open spec fn key_outlines() -> Seq<u8> {
    name_bytes("Outlines"@)
}

pub open spec fn key_root() -> Seq<u8> {
    name_bytes("Root"@)
}

/// The declared type of a dictionary: its `Type` field where that is a name
/// in valid UTF-8; failing that, `Linearized` where such a field exists.
pub open spec fn dictionary_type_name(entries: DictionaryModel) -> Option<Seq<u8>> {
    if entries.contains_key(key_type()) && entries[key_type()] is Name && valid_utf8(
        entries[key_type()]->Name_0,
    ) {
        Some(entries[key_type()]->Name_0)
    } else if entries.contains_key(key_linearized()) {
        Some(key_linearized())
    } else {
        None
    }
}

/// The declared type of an object: that of its dictionary, for a dictionary
/// and for a stream; none for any other object.
pub open spec fn declared_type(object: ObjectModel) -> Option<Seq<u8>> {
    match object {
        ObjectModel::Dictionary(entries) => dictionary_type_name(entries),
        ObjectModel::Stream(stream) => dictionary_type_name(stream.dict),
        _ => None,
    }
}

/// Addresses are ordered by number, then by generation.
pub open spec fn id_lt(a: ObjectId, b: ObjectId) -> bool {
    a.0 < b.0 || (a.0 == b.0 && a.1 < b.1)
}

/// The entries stand in strictly increasing order of address.
pub open spec fn strictly_increasing(entries: Seq<Entry>) -> bool {
    forall|i: int, j: int|
        0 <= i < j < entries.len() ==> id_lt(#[trigger] entries[i].0, #[trigger] entries[j].0)
}

/// The entries are those of the map, each once.
pub open spec fn lists_map(entries: Seq<Entry>, objects: Map<ObjectId, ObjectModel>) -> bool {
    &&& strictly_increasing(entries)
    &&& forall|i: int|
        0 <= i < entries.len() ==> objects.contains_key(#[trigger] entries[i].0)
            && objects[entries[i].0] == entries[i].1
    &&& forall|id: ObjectId|
        objects.contains_key(id) ==> exists|i: int|
            0 <= i < entries.len() && #[trigger] entries[i].0 == id
}

} // verus!
