//! The field names and type names that the merge reads and writes, as bytes.

use vstd::prelude::*;
use vstd::string::StrSliceExecFns;
use crate::model::{
    key_count, key_kids, key_linearized, key_outlines, key_pages, key_parent, key_root, key_type,
    name_bytes,
};

verus! {

/// The bytes of a name written in ASCII.
pub fn name(text: &str) -> (bytes: Vec<u8>)
    requires
        text.is_ascii(),
    ensures
        bytes@ == name_bytes(text@),
{
    broadcast use vstd::string::is_ascii_spec_bytes;

    let bytes = text.as_bytes_vec();
    assert(bytes@ =~= name_bytes(text@));
    bytes
}

/// Whether two byte strings are the same.
pub fn same_bytes(a: &[u8], b: &[u8]) -> (same: bool)
    ensures
        same == (a@ == b@),
{
    if a.len() != b.len() {
        return false;
    }
    let mut i: usize = 0;
    while i < a.len()
        invariant
            a.len() == b.len(),
            i <= a.len(),
            forall|j: int| 0 <= j < i ==> a@[j] == b@[j],
        decreases a.len() - i,
    {
        if a[i] != b[i] {
            return false;
        }
        i += 1;
    }
    assert(a@ =~= b@);
    true
}

/// The names that the merge tells apart are different byte strings.
pub proof fn lemma_names_differ()
    ensures
        key_type() != key_linearized(),
        key_parent() != key_type() && key_parent() != key_linearized(),
        key_count() != key_type() && key_count() != key_linearized(),
        key_kids() != key_type() && key_kids() != key_linearized(),
        key_pages() != key_type() && key_pages() != key_linearized(),
        key_outlines() != key_type() && key_outlines() != key_linearized(),
        key_count() != key_kids(),
        key_pages() != key_outlines(),
        name_bytes("Catalog"@) != name_bytes("Pages"@),
        name_bytes("Catalog"@) != name_bytes("Page"@),
        name_bytes("Catalog"@) != name_bytes("Outlines"@),
        name_bytes("Catalog"@) != name_bytes("Outline"@),
        name_bytes("Catalog"@) != key_linearized(),
        name_bytes("Pages"@) != name_bytes("Page"@),
        name_bytes("Pages"@) != name_bytes("Outlines"@),
        name_bytes("Pages"@) != name_bytes("Outline"@),
        name_bytes("Pages"@) != key_linearized(),
        name_bytes("Page"@) != name_bytes("Outlines"@),
        name_bytes("Page"@) != name_bytes("Outline"@),
        name_bytes("Page"@) != key_linearized(),
        name_bytes("Outlines"@) != name_bytes("Outline"@),
{
    reveal_strlit("Type");
    reveal_strlit("Linearized");
    reveal_strlit("Parent");
    reveal_strlit("Count");
    reveal_strlit("Kids");
    reveal_strlit("Pages");
    reveal_strlit("Outlines");
    reveal_strlit("Catalog");
    reveal_strlit("Page");
    reveal_strlit("Outline");
    assert(key_type().len() == 4 && key_type()[0] == 0x54);
    assert(key_linearized().len() == 10);
    assert(key_parent().len() == 6);
    assert(key_count().len() == 5);
    assert(key_kids().len() == 4 && key_kids()[0] == 0x4b);
    assert(key_pages().len() == 5);
    assert(key_outlines().len() == 8);
    assert(name_bytes("Catalog"@).len() == 7 && name_bytes("Catalog"@)[0] == 0x43);
    assert(name_bytes("Page"@).len() == 4);
    assert(name_bytes("Outline"@).len() == 7 && name_bytes("Outline"@)[0] == 0x4f);
}

pub fn type_key() -> (bytes: Vec<u8>)
    ensures
        bytes@ == key_type(),
{
    proof {
        reveal_strlit("Type");
    }
    name("Type")
}

pub fn linearized_key() -> (bytes: Vec<u8>)
    ensures
        bytes@ == key_linearized(),
{
    proof {
        reveal_strlit("Linearized");
    }
    name("Linearized")
}

pub fn parent_key() -> (bytes: Vec<u8>)
    ensures
        bytes@ == key_parent(),
{
    proof {
        reveal_strlit("Parent");
    }
    name("Parent")
}

pub fn count_key() -> (bytes: Vec<u8>)
    ensures
        bytes@ == key_count(),
{
    proof {
        reveal_strlit("Count");
    }
    name("Count")
}

pub fn kids_key() -> (bytes: Vec<u8>)
    ensures
        bytes@ == key_kids(),
{
    proof {
        reveal_strlit("Kids");
    }
    name("Kids")
}

pub fn pages_key() -> (bytes: Vec<u8>)
    ensures
        bytes@ == key_pages(),
{
    proof {
        reveal_strlit("Pages");
    }
    name("Pages")
}

pub fn outlines_key() -> (bytes: Vec<u8>)
    ensures
        bytes@ == key_outlines(),
{
    proof {
        reveal_strlit("Outlines");
    }
    name("Outlines")
}

pub fn root_key() -> (bytes: Vec<u8>)
    ensures
        bytes@ == key_root(),
{
    proof {
        reveal_strlit("Root");
    }
    name("Root")
}

} // verus!
