use lopdf::{Dictionary, Object, Stream, StringFormat};
use pdf_merge::classify::{classify, declared_type_of, dictionary_declared_type, role_for, Role};
use pdf_merge::names::{name, same_bytes};
use pdf_merge::title::{append_decimal, title_for};

fn typed(type_text: &str) -> Dictionary {
    let mut fields = Dictionary::new();
    fields.set("Type", Object::Name(type_text.as_bytes().to_vec()));
    fields
}

#[test]
fn a_catalog_is_classified_as_catalog() {
    assert_eq!(classify(&Object::Dictionary(typed("Catalog"))), Role::Catalog);
}

#[test]
fn a_page_tree_root_is_classified_as_pages() {
    assert_eq!(classify(&Object::Dictionary(typed("Pages"))), Role::Pages);
}

#[test]
fn a_page_is_classified_as_page() {
    assert_eq!(classify(&Object::Dictionary(typed("Page"))), Role::Page);
}

#[test]
fn outline_objects_are_classified_as_such() {
    assert_eq!(classify(&Object::Dictionary(typed("Outlines"))), Role::Outlines);
    assert_eq!(classify(&Object::Dictionary(typed("Outline"))), Role::Outline);
}

#[test]
fn other_types_and_untyped_objects_are_other() {
    assert_eq!(classify(&Object::Dictionary(typed("Font"))), Role::Other);
    assert_eq!(classify(&Object::Dictionary(Dictionary::new())), Role::Other);
    assert_eq!(classify(&Object::Integer(7)), Role::Other);
    assert_eq!(classify(&Object::Null), Role::Other);
    assert_eq!(classify(&Object::Reference((3, 0))), Role::Other);
    assert_eq!(classify(&Object::Name(b"Catalog".to_vec())), Role::Other);
    assert_eq!(
        classify(&Object::String(b"Pages".to_vec(), StringFormat::Literal)),
        Role::Other
    );
}

#[test]
fn role_names_are_case_sensitive_and_exact() {
    assert_eq!(classify(&Object::Dictionary(typed("catalog"))), Role::Other);
    assert_eq!(classify(&Object::Dictionary(typed("Pages "))), Role::Other);
    assert_eq!(classify(&Object::Dictionary(typed("Pag"))), Role::Other);
    assert_eq!(classify(&Object::Dictionary(typed(""))), Role::Other);
}

#[test]
fn a_stream_has_the_type_of_its_dictionary() {
    let stream = Stream::new(typed("Pages"), vec![1, 2, 3]);
    let object = Object::Stream(stream);
    assert_eq!(declared_type_of(&object), Some(b"Pages".to_vec()));
    assert_eq!(classify(&object), Role::Pages);
}

#[test]
fn the_type_must_be_a_name() {
    let mut fields = Dictionary::new();
    fields.set("Type", Object::String(b"Catalog".to_vec(), StringFormat::Literal));
    assert_eq!(dictionary_declared_type(&fields), None);
    assert_eq!(classify(&Object::Dictionary(fields)), Role::Other);
}

#[test]
fn a_type_that_is_not_utf8_is_no_type() {
    let mut fields = Dictionary::new();
    fields.set("Type", Object::Name(vec![0xff, 0xfe]));
    assert_eq!(dictionary_declared_type(&fields), None);
    assert_eq!(classify(&Object::Dictionary(fields)), Role::Other);
}

#[test]
fn linearized_stands_in_where_the_type_is_missing() {
    let mut fields = Dictionary::new();
    fields.set("Linearized", Object::Integer(1));
    assert_eq!(dictionary_declared_type(&fields), Some(b"Linearized".to_vec()));
    let mut both = typed("Page");
    both.set("Linearized", Object::Integer(1));
    assert_eq!(dictionary_declared_type(&both), Some(b"Page".to_vec()));
    let mut broken = Dictionary::new();
    broken.set("Type", Object::Name(vec![0xc3]));
    broken.set("Linearized", Object::Integer(1));
    assert_eq!(dictionary_declared_type(&broken), Some(b"Linearized".to_vec()));
    assert_eq!(classify(&Object::Dictionary(broken)), Role::Other);
}

#[test]
fn the_declared_type_is_the_name_as_written() {
    assert_eq!(
        declared_type_of(&Object::Dictionary(typed("Catalog"))),
        Some(b"Catalog".to_vec())
    );
    assert_eq!(
        declared_type_of(&Object::Dictionary(typed("Größe"))),
        Some("Größe".as_bytes().to_vec())
    );
    assert_eq!(declared_type_of(&Object::Dictionary(Dictionary::new())), None);
    assert_eq!(
        declared_type_of(&Object::Stream(Stream::new(typed("XObject"), vec![]))),
        Some(b"XObject".to_vec())
    );
    assert_eq!(declared_type_of(&Object::Integer(1)), None);
}

#[test]
fn role_for_reads_the_name() {
    assert_eq!(role_for(&None), Role::Other);
    assert_eq!(role_for(&Some(b"Catalog".to_vec())), Role::Catalog);
    assert_eq!(role_for(&Some(b"Pages".to_vec())), Role::Pages);
    assert_eq!(role_for(&Some(b"Page".to_vec())), Role::Page);
    assert_eq!(role_for(&Some(b"Outlines".to_vec())), Role::Outlines);
    assert_eq!(role_for(&Some(b"Outline".to_vec())), Role::Outline);
    assert_eq!(role_for(&Some(b"Linearized".to_vec())), Role::Other);
    assert_eq!(role_for(&Some(Vec::new())), Role::Other);
}

#[test]
fn names_are_their_ascii_bytes() {
    assert_eq!(name("Type"), b"Type".to_vec());
    assert_eq!(name(""), Vec::<u8>::new());
    assert_eq!(pdf_merge::names::type_key(), b"Type".to_vec());
    assert_eq!(pdf_merge::names::linearized_key(), b"Linearized".to_vec());
    assert_eq!(pdf_merge::names::parent_key(), b"Parent".to_vec());
    assert_eq!(pdf_merge::names::count_key(), b"Count".to_vec());
    assert_eq!(pdf_merge::names::kids_key(), b"Kids".to_vec());
    assert_eq!(pdf_merge::names::pages_key(), b"Pages".to_vec());
    assert_eq!(pdf_merge::names::outlines_key(), b"Outlines".to_vec());
    assert_eq!(pdf_merge::names::root_key(), b"Root".to_vec());
}

#[test]
fn same_bytes_compares_every_byte() {
    assert!(same_bytes(b"Pages", b"Pages"));
    assert!(same_bytes(b"", b""));
    assert!(!same_bytes(b"Pages", b"Page"));
    assert!(!same_bytes(b"Pages", b"Pagez"));
    assert!(!same_bytes(b"", b"P"));
}

#[test]
fn titles_carry_the_number_in_decimal() {
    assert_eq!(title_for(1), "Page_1");
    assert_eq!(title_for(2), "Page_2");
    assert_eq!(title_for(0), "Page_0");
    assert_eq!(title_for(9), "Page_9");
    assert_eq!(title_for(10), "Page_10");
    assert_eq!(title_for(12), "Page_12");
    assert_eq!(title_for(100), "Page_100");
    assert_eq!(title_for(90817), "Page_90817");
    assert_eq!(title_for(u32::MAX), "Page_4294967295");
}

#[test]
fn append_decimal_keeps_what_was_written() {
    let mut text = String::from("n=");
    append_decimal(&mut text, 305);
    assert_eq!(text, "n=305");
    append_decimal(&mut text, 0);
    assert_eq!(text, "n=3050");
}
