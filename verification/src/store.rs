//! PDF objects and dictionaries as `lopdf` stores them. Each function here
//! hands one operation of `lopdf` to the verified code, with a contract over
//! the models of `crate::model` that is taken on trust.

use vstd::prelude::*;
use vstd::utf8::valid_utf8;
use crate::model::{DictionaryModel, ObjectId, ObjectModel};

verus! {

#[verifier::external_type_specification]
#[verifier::external_body]
pub struct ExObject(lopdf::Object);

#[verifier::external_type_specification]
#[verifier::external_body]
pub struct ExDictionary(lopdf::Dictionary);

/// What an object holds.
pub uninterp spec fn object_model(object: lopdf::Object) -> ObjectModel;

/// What a dictionary holds.
pub uninterp spec fn dictionary_model(dictionary: lopdf::Dictionary) -> DictionaryModel;

/// What `lopdf::Dictionary::extend` leaves in a dictionary that held
/// `target`, when it is extended by one that holds `other`.
pub uninterp spec fn extended(target: DictionaryModel, other: DictionaryModel) -> DictionaryModel;

/// What the source of `lopdf::Dictionary::extend` shows at a glance: the
/// result has the fields of `other` and no others; a field that only `other`
/// has keeps the value it has there; and where the extended dictionary held a
/// null, a boolean, a name or a stream under the same name, that value stays.
pub open spec fn extension_of(
    target: DictionaryModel,
    other: DictionaryModel,
    result: DictionaryModel,
) -> bool {
    &&& result.dom() == other.dom()
    &&& forall|key: Seq<u8>|
        other.contains_key(key) && !target.contains_key(key) ==> #[trigger] result[key]
            == other[key]
    &&& forall|key: Seq<u8>|
        other.contains_key(key) && target.contains_key(key) && (target[key] is Null
            || target[key] is Boolean || target[key] is Name || target[key] is Stream)
            ==> #[trigger] result[key] == target[key]
}

/// `lopdf::Object::as_dict`: the dictionary of an object that is one.
#[verifier::external_body]
pub(crate) fn as_dict(object: &lopdf::Object) -> (found: Option<&lopdf::Dictionary>)
    ensures
        match object_model(*object) {
            ObjectModel::Dictionary(entries) => found.is_some() && dictionary_model(
                *found.unwrap(),
            ) == entries,
            _ => found.is_none(),
        },
{
    object.as_dict().ok()
}

/// `lopdf::Object::as_stream`, and the `dict` field of what it returns: the
/// dictionary of an object that is a stream.
#[verifier::external_body]
pub(crate) fn stream_dict(object: &lopdf::Object) -> (found: Option<&lopdf::Dictionary>)
    ensures
        match object_model(*object) {
            ObjectModel::Stream(stream) => found.is_some() && dictionary_model(*found.unwrap())
                == stream.dict,
            _ => found.is_none(),
        },
{
    object.as_stream().ok().map(|stream| &stream.dict)
}

/// `lopdf::Object::as_name`: the bytes of an object that is a name.
#[verifier::external_body]
pub(crate) fn as_name(object: &lopdf::Object) -> (found: Option<&[u8]>)
    ensures
        match object_model(*object) {
            ObjectModel::Name(bytes) => found.is_some() && found.unwrap()@ == bytes,
            _ => found.is_none(),
        },
{
    object.as_name().ok()
}

/// `lopdf::Object::as_reference`: the address that a reference holds.
#[verifier::external_body]
pub(crate) fn as_reference(object: &lopdf::Object) -> (found: Option<ObjectId>)
    ensures
        match object_model(*object) {
            ObjectModel::Reference(id) => found == Some(id),
            _ => found.is_none(),
        },
{
    object.as_reference().ok()
}

/// `std::str::from_utf8`: whether the bytes are valid UTF-8.
#[verifier::external_body]
pub(crate) fn is_utf8(bytes: &[u8]) -> (valid: bool)
    ensures
        valid == valid_utf8(bytes@),
{
    std::str::from_utf8(bytes).is_ok()
}

/// `lopdf::Object::Reference`.
#[verifier::external_body]
pub(crate) fn reference(id: ObjectId) -> (object: lopdf::Object)
    ensures
        object_model(object) == ObjectModel::Reference(id),
{
    lopdf::Object::Reference(id)
}

/// `lopdf::Object::Integer`.
#[verifier::external_body]
pub(crate) fn integer(value: i64) -> (object: lopdf::Object)
    ensures
        object_model(object) == ObjectModel::Integer(value),
{
    lopdf::Object::Integer(value)
}

/// `lopdf::Object::Array`.
#[verifier::external_body]
pub(crate) fn array(items: Vec<lopdf::Object>) -> (object: lopdf::Object)
    ensures
        object_model(object) == ObjectModel::Array(
            items@.map_values(|item: lopdf::Object| object_model(item)),
        ),
{
    lopdf::Object::Array(items)
}

/// `lopdf::Object::Dictionary`.
#[verifier::external_body]
pub(crate) fn dictionary(entries: lopdf::Dictionary) -> (object: lopdf::Object)
    ensures
        object_model(object) == ObjectModel::Dictionary(dictionary_model(entries)),
{
    lopdf::Object::Dictionary(entries)
}

/// `Clone::clone` as `lopdf` derives it for `Dictionary`: a dictionary that
/// holds the same.
#[verifier::external_body]
pub(crate) fn clone_dictionary(entries: &lopdf::Dictionary) -> (copy: lopdf::Dictionary)
    ensures
        dictionary_model(copy) == dictionary_model(*entries),
{
    entries.clone()
}

/// `lopdf::Dictionary::get`: the value under a name, if there is one.
#[verifier::external_body]
pub(crate) fn dict_get<'a>(entries: &'a lopdf::Dictionary, key: &[u8]) -> (found: Option<
    &'a lopdf::Object,
>)
    ensures
        found.is_some() == dictionary_model(*entries).contains_key(key@),
        found.is_some() ==> object_model(*found.unwrap()) == dictionary_model(*entries)[key@],
{
    entries.get(key).ok()
}

/// `lopdf::Dictionary::set`: the value stands under the name, whatever stood
/// there before; the other fields stay.
#[verifier::external_body]
pub(crate) fn dict_set(entries: &mut lopdf::Dictionary, key: Vec<u8>, value: lopdf::Object)
    ensures
        dictionary_model(*final(entries)) == dictionary_model(*old(entries)).insert(
            key@,
            object_model(value),
        ),
{
    entries.set(key, value);
}

/// `lopdf::Dictionary::remove`: nothing stands under the name any more; the
/// other fields stay.
#[verifier::external_body]
pub(crate) fn dict_remove(entries: &mut lopdf::Dictionary, key: &[u8])
    ensures
        dictionary_model(*final(entries)) == dictionary_model(*old(entries)).remove(key@),
{
    entries.remove(key);
}

/// `lopdf::Dictionary::extend`.
#[verifier::external_body]
pub(crate) fn dict_extend(entries: &mut lopdf::Dictionary, other: &lopdf::Dictionary)
    ensures
        dictionary_model(*final(entries)) == extended(
            dictionary_model(*old(entries)),
            dictionary_model(*other),
        ),
        extension_of(
            dictionary_model(*old(entries)),
            dictionary_model(*other),
            dictionary_model(*final(entries)),
        ),
{
    entries.extend(other);
}

} // verus!
