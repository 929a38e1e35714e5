use lopdf::{Dictionary, Document, Object, ObjectId, Stream};
use pdf_merge::bookmark::{add_bookmarks, Bookmark};
use pdf_merge::collect::{collect_pages, first_page_bookmark, gather};
use pdf_merge::finalizer::{
    assemble, build_catalog, build_pages_root, insert_pages, page_references, MergeError,
};
use pdf_merge::finish::{finish, link_outline};
use pdf_merge::merger::merge_objects;
use pdf_merge::renumber::renumber_documents;

fn name(text: &str) -> Object {
    Object::Name(text.as_bytes().to_vec())
}

fn typed(type_text: &str) -> Dictionary {
    let mut fields = Dictionary::new();
    fields.set("Type", name(type_text));
    fields
}

fn page(parent: ObjectId, mark: i64) -> Object {
    let mut fields = typed("Page");
    fields.set("Parent", parent);
    fields.set("Mark", mark);
    Object::Dictionary(fields)
}

/// A document whose objects stand at the given numbers: a catalog, a root
/// of the page tree, and one page for each further number, in that order in
/// the page tree.
fn document_at(catalog: u32, root: u32, pages: &[u32]) -> Document {
    let mut document = Document::with_version("1.4");
    let mut kids = Vec::new();
    for number in pages.iter() {
        document.objects.insert((*number, 0), page((root, 0), i64::from(*number)));
        kids.push(Object::Reference((*number, 0)));
    }
    let mut fields = typed("Pages");
    fields.set("Count", pages.len() as i64);
    fields.set("Kids", kids);
    document.objects.insert((root, 0), Object::Dictionary(fields));
    let mut fields = typed("Catalog");
    fields.set("Pages", (root, 0));
    document.objects.insert((catalog, 0), Object::Dictionary(fields));
    document.trailer.set("Root", (catalog, 0));
    document.max_id = *pages.iter().chain([catalog, root].iter()).max().unwrap();
    document
}

/// Whether two objects are dictionaries with the same fields, in whatever
/// order the fields are written.
fn same_fields(found: &Object, expected: &Object) -> bool {
    match (found.as_dict(), expected.as_dict()) {
        (Ok(found), Ok(expected)) => {
            found.len() == expected.len()
                && expected.iter().all(|(key, value)| found.get(key).ok() == Some(value))
        }
        _ => false,
    }
}

fn ids_of(document: &Document) -> Vec<ObjectId> {
    document.objects.keys().cloned().collect()
}

#[test]
fn documents_are_numbered_one_after_the_other() {
    let mut documents = vec![
        document_at(40, 10, &[20, 30]),
        Document::with_version("1.4"),
        document_at(7, 8, &[9]),
    ];
    renumber_documents(&mut documents);
    assert_eq!(ids_of(&documents[0]), vec![(1, 0), (2, 0), (3, 0), (4, 0)]);
    assert_eq!(documents[0].max_id, 4);
    assert_eq!(ids_of(&documents[1]), Vec::<ObjectId>::new());
    assert_eq!(documents[1].max_id, 4);
    assert_eq!(ids_of(&documents[2]), vec![(5, 0), (6, 0), (7, 0)]);
    assert_eq!(documents[2].max_id, 7);
    let catalog = documents[2].catalog().unwrap();
    assert_eq!(catalog.get(b"Pages").unwrap().as_reference().unwrap(), (6, 0));
    let pages: Vec<ObjectId> = documents[2].get_pages().into_values().collect();
    assert_eq!(pages, vec![(7, 0)]);
    let first: Vec<ObjectId> = documents[0].get_pages().into_values().collect();
    assert_eq!(first, vec![(2, 0), (3, 0)]);
}

#[test]
fn renumbering_nothing_changes_nothing() {
    let mut documents: Vec<Document> = Vec::new();
    renumber_documents(&mut documents);
    assert!(documents.is_empty());
}

#[test]
fn pages_are_collected_in_the_order_of_the_page_tree() {
    let document = document_at(1, 2, &[9, 4, 6]);
    let pages = collect_pages(&document);
    let ids: Vec<ObjectId> = pages.iter().map(|entry| entry.0).collect();
    assert_eq!(ids, vec![(9, 0), (4, 0), (6, 0)]);
    assert_eq!(pages[0].1, page((2, 0), 9));
    assert_eq!(pages[1].1, page((2, 0), 4));
    assert_eq!(pages[2].1, page((2, 0), 6));
    assert!(collect_pages(&Document::with_version("1.4")).is_empty());
}

#[test]
fn a_page_behind_a_reference_is_collected_at_the_address_of_the_reference() {
    let mut document = document_at(1, 2, &[3]);
    document.objects.insert((3, 0), Object::Reference((5, 0)));
    document.objects.insert((5, 0), page((2, 0), 55));
    let pages = collect_pages(&document);
    assert_eq!(pages.len(), 1);
    assert_eq!(pages[0].0, (3, 0));
    assert_eq!(pages[0].1, page((2, 0), 55));
}

#[test]
fn the_bookmark_of_a_document_leads_to_its_first_page() {
    let pages = vec![((12, 0), page((1, 0), 0)), ((11, 0), page((1, 0), 1))];
    let made = first_page_bookmark(&pages, 7).unwrap();
    assert_eq!(made.title, "Page_7");
    assert_eq!(made.color, (0, 0, 1));
    assert_eq!(made.level, 0);
    assert_eq!(made.target, (12, 0));
    assert!(first_page_bookmark(&Vec::new(), 7).is_none());
}

#[test]
fn gathering_takes_every_object_and_page_in_order() {
    let mut documents = vec![
        document_at(4, 1, &[2, 3]),
        document_at(1, 2, &[]),
        document_at(1, 2, &[3, 4, 5]),
    ];
    renumber_documents(&mut documents);
    let gathered = gather(documents);
    let ids: Vec<u32> = gathered.objects.iter().map(|entry| (entry.0).0).collect();
    assert_eq!(ids, vec![1, 2, 3, 4, 5, 6, 7, 8, 9, 10, 11]);
    let pages: Vec<u32> = gathered.pages.iter().map(|entry| (entry.0).0).collect();
    assert_eq!(pages, vec![2, 3, 9, 10, 11]);
    let titles: Vec<&str> = gathered.bookmarks.iter().map(|made| made.title.as_str()).collect();
    assert_eq!(titles, vec!["Page_1", "Page_3"]);
    let targets: Vec<ObjectId> = gathered.bookmarks.iter().map(|made| made.target).collect();
    assert_eq!(targets, vec![(2, 0), (9, 0)]);
    let nothing = gather(Vec::new());
    assert!(nothing.objects.is_empty() && nothing.pages.is_empty());
    assert!(nothing.bookmarks.is_empty());
}

#[test]
fn the_pass_over_the_objects_sorts_them_by_role() {
    let mut first_root = typed("Pages");
    first_root.set("Count", 1);
    first_root.set("Kids", vec![Object::Reference((3, 0))]);
    first_root.set("MediaBox", vec![Object::Integer(0), Object::Integer(9)]);
    first_root.set("Shared", name("old"));
    let mut second_root = typed("Pages");
    second_root.set("Count", 2);
    second_root.set("Kids", vec![Object::Reference((8, 0))]);
    second_root.set("Rotate", 90);
    second_root.set("Shared", name("new"));
    let mut first_catalog = typed("Catalog");
    first_catalog.set("Mark", 1);
    let mut second_catalog = typed("Catalog");
    second_catalog.set("Mark", 2);
    let objects = vec![
        ((1, 0), Object::Dictionary(typed("Font"))),
        ((2, 0), Object::Dictionary(first_root)),
        ((3, 0), page((2, 0), 0)),
        ((4, 0), Object::Stream(Stream::new(typed("Pages"), vec![1]))),
        ((5, 0), Object::Dictionary(first_catalog)),
        ((6, 0), Object::Dictionary(typed("Outlines"))),
        ((7, 0), Object::Dictionary(second_root)),
        ((8, 0), Object::Dictionary(typed("Outline"))),
        ((9, 0), Object::Dictionary(second_catalog)),
        ((10, 0), Object::Integer(3)),
    ];
    let mut output = Document::with_version("1.5");
    let roots = merge_objects(&mut output, &objects);
    assert_eq!(ids_of(&output), vec![(1, 0), (10, 0)]);
    assert_eq!(output.objects[&(10, 0)], Object::Integer(3));
    assert_eq!(output.objects[&(1, 0)], Object::Dictionary(typed("Font")));
    assert_eq!(roots.catalog, Some(4));
    let (root_id, gathered) = roots.pages.unwrap();
    assert_eq!(root_id, (2, 0));
    assert_eq!(gathered.len(), 5);
    assert_eq!(gathered.get(b"Type").unwrap(), &name("Pages"));
    assert_eq!(
        gathered.get(b"Count").unwrap(),
        &Object::Array(vec![Object::Integer(2), Object::Integer(1)])
    );
    assert_eq!(
        gathered.get(b"Kids").unwrap(),
        &Object::Array(vec![Object::Reference((8, 0)), Object::Reference((3, 0))])
    );
    assert_eq!(
        gathered.get(b"MediaBox").unwrap(),
        &Object::Array(vec![Object::Integer(0), Object::Integer(9)])
    );
    assert_eq!(gathered.get(b"Shared").unwrap(), &name("new"));
    assert!(gathered.get(b"Rotate").is_err());
}

#[test]
fn the_pass_over_no_objects_finds_no_roots() {
    let mut output = Document::with_version("1.5");
    let roots = merge_objects(&mut output, &Vec::new());
    assert!(roots.catalog.is_none());
    assert!(roots.pages.is_none());
    assert!(output.objects.is_empty());
}

#[test]
fn pages_are_written_with_their_new_parent() {
    let pages = vec![
        ((3, 0), page((1, 0), 0)),
        ((4, 0), Object::Integer(1)),
        ((5, 0), page((2, 0), 1)),
    ];
    let mut output = Document::with_version("1.5");
    output.objects.insert((5, 0), Object::Null);
    output.objects.insert((6, 0), Object::Null);
    insert_pages(&mut output, &pages, (9, 0));
    assert_eq!(ids_of(&output), vec![(3, 0), (5, 0), (6, 0)]);
    assert!(same_fields(&output.objects[&(3, 0)], &page((9, 0), 0)));
    assert!(same_fields(&output.objects[&(5, 0)], &page((9, 0), 1)));
    assert!(!same_fields(&output.objects[&(5, 0)], &page((2, 0), 1)));
    assert_eq!(output.objects[&(6, 0)], Object::Null);
}

#[test]
fn the_root_refers_to_every_collected_page() {
    let pages = vec![
        ((7, 0), page((1, 0), 0)),
        ((3, 1), page((1, 0), 1)),
        ((7, 0), page((1, 0), 2)),
    ];
    assert_eq!(
        page_references(&pages),
        vec![Object::Reference((7, 0)), Object::Reference((3, 1)), Object::Reference((7, 0))]
    );
    assert!(page_references(&Vec::new()).is_empty());
    let mut gathered = typed("Pages");
    gathered.set("Count", vec![Object::Integer(2), Object::Integer(1)]);
    gathered.set("Kids", Vec::<Object>::new());
    gathered.set("MediaBox", vec![Object::Integer(0)]);
    let root = build_pages_root(gathered, &pages);
    let fields = root.as_dict().unwrap();
    assert_eq!(fields.len(), 4);
    assert_eq!(fields.get(b"Type").unwrap(), &name("Pages"));
    assert_eq!(fields.get(b"Count").unwrap(), &Object::Integer(3));
    assert_eq!(fields.get(b"Kids").unwrap(), &Object::Array(page_references(&pages)));
    assert_eq!(fields.get(b"MediaBox").unwrap(), &Object::Array(vec![Object::Integer(0)]));
}

#[test]
fn the_catalog_points_to_the_root_and_loses_its_outlines() {
    let mut fields = typed("Catalog");
    fields.set("Pages", (70, 0));
    fields.set("Outlines", (71, 0));
    fields.set("Lang", Object::string_literal("en"));
    let rebuilt = build_catalog(&Object::Dictionary(fields), (2, 0)).unwrap();
    let rebuilt = rebuilt.as_dict().unwrap();
    assert_eq!(rebuilt.len(), 3);
    assert_eq!(rebuilt.get(b"Type").unwrap(), &name("Catalog"));
    assert_eq!(rebuilt.get(b"Pages").unwrap(), &Object::Reference((2, 0)));
    assert_eq!(rebuilt.get(b"Lang").unwrap(), &Object::string_literal("en"));
    assert!(rebuilt.get(b"Outlines").is_err());
    let stream = Object::Stream(Stream::new(typed("Catalog"), vec![]));
    assert!(build_catalog(&stream, (2, 0)).is_none());
    assert!(build_catalog(&Object::Null, (2, 0)).is_none());
}

fn blue(title: &str, target: ObjectId) -> Bookmark {
    Bookmark { title: title.to_string(), color: (0, 0, 1), level: 0, target }
}

#[test]
fn bookmarks_enter_the_document_in_order() {
    let mut output = Document::with_version("1.5");
    let bookmarks = vec![
        blue("Page_1", (3, 0)),
        Bookmark { title: "Page_4".to_string(), color: (1, 0, 1), level: 2, target: (8, 0) },
    ];
    add_bookmarks(&mut output, &bookmarks);
    assert_eq!(output.bookmarks, vec![1, 2]);
    assert_eq!(output.max_bookmark_id, 2);
    assert_eq!(output.bookmark_table.len(), 2);
    let first = &output.bookmark_table[&1];
    assert_eq!(first.title, "Page_1");
    assert_eq!(first.color, [0.0, 0.0, 1.0]);
    assert_eq!(first.color[2].to_bits(), 0x3f80_0000);
    assert_eq!(first.color[0].to_bits(), 0);
    assert_eq!(first.format, 0);
    assert_eq!(first.page, (3, 0));
    assert_eq!(first.id, 1);
    assert!(first.children.is_empty());
    let second = &output.bookmark_table[&2];
    assert_eq!(second.title, "Page_4");
    assert_eq!(second.color, [1.0, 0.0, 1.0]);
    assert_eq!(second.format, 2);
    assert_eq!(second.page, (8, 0));
    assert_eq!(second.id, 2);
    let mut untouched = Document::with_version("1.5");
    add_bookmarks(&mut untouched, &Vec::new());
    assert!(untouched.bookmarks.is_empty());
}

fn sample_objects() -> Vec<(ObjectId, Object)> {
    let mut root = typed("Pages");
    root.set("Count", 1);
    root.set("Kids", vec![Object::Reference((3, 0))]);
    let mut catalog = typed("Catalog");
    catalog.set("Pages", (2, 0));
    catalog.set("Outlines", (6, 0));
    vec![
        ((1, 0), Object::Dictionary(catalog)),
        ((2, 0), Object::Dictionary(root)),
        ((3, 0), page((2, 0), 0)),
        ((4, 0), Object::string_literal("kept")),
        ((5, 0), page((2, 0), 1)),
        ((6, 0), Object::Dictionary(typed("Outlines"))),
    ]
}

#[test]
fn the_parts_are_put_together() {
    let objects = sample_objects();
    let pages = vec![((3, 0), page((2, 0), 0))];
    let bookmarks = vec![blue("Page_1", (3, 0))];
    let document = assemble(&objects, &pages, &bookmarks).unwrap();
    assert_eq!(document.version, "1.5");
    assert_eq!(ids_of(&document), vec![(1, 0), (2, 0), (3, 0), (4, 0)]);
    assert_eq!(document.objects[&(4, 0)], Object::string_literal("kept"));
    assert!(same_fields(&document.objects[&(3, 0)], &page((2, 0), 0)));
    let root = document.objects[&(2, 0)].as_dict().unwrap();
    assert_eq!(root.len(), 3);
    assert_eq!(root.get(b"Count").unwrap(), &Object::Integer(1));
    assert_eq!(root.get(b"Kids").unwrap(), &Object::Array(vec![Object::Reference((3, 0))]));
    let catalog = document.objects[&(1, 0)].as_dict().unwrap();
    assert_eq!(catalog.len(), 2);
    assert_eq!(catalog.get(b"Pages").unwrap(), &Object::Reference((2, 0)));
    assert_eq!(document.trailer.len(), 1);
    assert_eq!(document.trailer.get(b"Root").unwrap(), &Object::Reference((1, 0)));
    assert_eq!(document.bookmarks, vec![1]);
    assert_eq!(document.max_id, 0);
}

#[test]
fn later_writes_win_an_address() {
    let objects = sample_objects();
    let pages = vec![
        ((4, 0), page((2, 0), 7)),
        ((2, 0), page((2, 0), 8)),
        ((1, 0), page((2, 0), 9)),
    ];
    let document = assemble(&objects, &pages, &Vec::new()).unwrap();
    assert_eq!(ids_of(&document), vec![(1, 0), (2, 0), (4, 0)]);
    assert!(same_fields(&document.objects[&(4, 0)], &page((2, 0), 7)));
    let root = document.objects[&(2, 0)].as_dict().unwrap();
    assert_eq!(root.get(b"Type").unwrap(), &name("Pages"));
    assert_eq!(root.get(b"Count").unwrap(), &Object::Integer(3));
    let catalog = document.objects[&(1, 0)].as_dict().unwrap();
    assert_eq!(catalog.get(b"Type").unwrap(), &name("Catalog"));
}

#[test]
fn a_catalog_that_is_no_dictionary_is_not_written() {
    let mut objects = sample_objects();
    objects[0] = ((1, 0), Object::Stream(Stream::new(typed("Catalog"), vec![])));
    let document = assemble(&objects, &Vec::new(), &Vec::new()).unwrap();
    assert_eq!(ids_of(&document), vec![(2, 0), (4, 0)]);
    assert_eq!(document.trailer.get(b"Root").unwrap(), &Object::Reference((1, 0)));
}

#[test]
fn a_page_tree_root_that_is_no_dictionary_does_not_count() {
    let objects = vec![
        ((1, 0), Object::Dictionary(typed("Catalog"))),
        ((2, 0), Object::Stream(Stream::new(typed("Pages"), vec![]))),
    ];
    assert_eq!(
        assemble(&objects, &Vec::new(), &Vec::new()).err(),
        Some(MergeError::MissingPagesRoot)
    );
}

#[test]
fn putting_together_fails_without_roots() {
    let no_pages = vec![((1, 0), Object::Dictionary(typed("Catalog")))];
    assert_eq!(
        assemble(&no_pages, &Vec::new(), &Vec::new()).err(),
        Some(MergeError::MissingPagesRoot)
    );
    let no_catalog = vec![((1, 0), Object::Dictionary(typed("Pages")))];
    assert_eq!(
        assemble(&no_catalog, &Vec::new(), &Vec::new()).err(),
        Some(MergeError::MissingCatalogRoot)
    );
    assert_eq!(
        assemble(&Vec::new(), &Vec::new(), &Vec::new()).err(),
        Some(MergeError::MissingPagesRoot)
    );
}

#[test]
fn errors_have_messages() {
    assert_eq!(MergeError::MissingPagesRoot.message(), "Pages root not found.");
    assert_eq!(MergeError::MissingCatalogRoot.message(), "Catalog root not found.");
}

#[test]
fn the_catalog_is_pointed_to_the_outline() {
    let mut document = document_at(1, 2, &[3]);
    link_outline(&mut document, Some((9, 0)));
    let catalog = document.objects[&(1, 0)].as_dict().unwrap();
    assert_eq!(catalog.get(b"Outlines").unwrap(), &Object::Reference((9, 0)));
    assert_eq!(catalog.get(b"Pages").unwrap(), &Object::Reference((2, 0)));
    assert_eq!(ids_of(&document), vec![(1, 0), (2, 0), (3, 0)]);
}

#[test]
fn without_an_outline_or_a_catalog_nothing_is_linked() {
    let mut document = document_at(1, 2, &[3]);
    let before = document.objects.clone();
    link_outline(&mut document, None);
    assert_eq!(document.objects, before);
    document.trailer.remove(b"Root");
    link_outline(&mut document, Some((9, 0)));
    assert_eq!(document.objects, before);
    document.trailer.set("Root", Object::Integer(1));
    link_outline(&mut document, Some((9, 0)));
    assert_eq!(document.objects, before);
    document.trailer.set("Root", (8, 0));
    link_outline(&mut document, Some((9, 0)));
    assert_eq!(document.objects, before);
    document.objects.insert((8, 0), Object::Integer(0));
    let before = document.objects.clone();
    link_outline(&mut document, Some((9, 0)));
    assert_eq!(document.objects, before);
}

#[test]
fn the_last_steps_renumber_and_build_the_outline() {
    let objects = vec![
        ((10, 0), Object::Dictionary(typed("Catalog"))),
        ((20, 0), Object::Dictionary(typed("Pages"))),
        ((30, 0), page((20, 0), 0)),
        ((40, 0), Object::Stream(Stream::new(Dictionary::new(), vec![b'y'; 4000]))),
    ];
    let pages = vec![((30, 0), page((20, 0), 0))];
    let bookmarks = vec![blue("Page_1", (30, 0))];
    let document = assemble(&objects, &pages, &bookmarks).unwrap();
    let done = finish(document);
    assert_eq!(
        ids_of(&done),
        vec![(1, 0), (2, 0), (3, 0), (4, 0), (5, 0), (6, 0), (7, 0)]
    );
    assert_eq!(done.max_id, 7);
    assert_eq!(done.trailer.get(b"Root").unwrap(), &Object::Reference((1, 0)));
    let catalog = done.objects[&(1, 0)].as_dict().unwrap();
    assert_eq!(catalog.get(b"Pages").unwrap(), &Object::Reference((2, 0)));
    assert_eq!(catalog.get(b"Outlines").unwrap(), &Object::Reference((5, 0)));
    let root = done.objects[&(2, 0)].as_dict().unwrap();
    assert_eq!(root.get(b"Kids").unwrap(), &Object::Array(vec![Object::Reference((3, 0))]));
    let outline = done.objects[&(5, 0)].as_dict().unwrap();
    assert_eq!(outline.get(b"Count").unwrap(), &Object::Integer(1));
    assert_eq!(outline.get(b"First").unwrap(), &Object::Reference((6, 0)));
    let item = done.objects[&(6, 0)].as_dict().unwrap();
    assert_eq!(item.get(b"Title").unwrap(), &Object::string_literal("Page_1"));
    assert_eq!(
        item.get(b"C").unwrap(),
        &Object::Array(vec![Object::Real(0.0), Object::Real(0.0), Object::Real(1.0)])
    );
    assert_eq!(item.get(b"F").unwrap(), &Object::Integer(0));
    let action = done.objects[&(7, 0)].as_dict().unwrap();
    assert_eq!(
        action.get(b"D").unwrap(),
        &Object::Array(vec![Object::Reference((3, 0)), name("Fit")])
    );
    let stream = done.objects[&(4, 0)].as_stream().unwrap();
    assert!(stream.content.len() < 4000);
}

#[test]
fn the_last_steps_without_bookmarks_build_no_outline() {
    let objects = vec![
        ((10, 0), Object::Dictionary(typed("Catalog"))),
        ((20, 0), Object::Dictionary(typed("Pages"))),
    ];
    let document = assemble(&objects, &Vec::new(), &Vec::new()).unwrap();
    let done = finish(document);
    assert_eq!(ids_of(&done), vec![(1, 0), (2, 0)]);
    let catalog = done.objects[&(1, 0)].as_dict().unwrap();
    assert!(catalog.get(b"Outlines").is_err());
}
