//! Bookmarks: one entry of the table of contents of the merged document, as
//! it is noted before the outline is built.

use vstd::prelude::*;
use crate::document::{add_bookmark, document_model, unit_bits};
use crate::model::{BookmarkModel, DocumentModel, ObjectId};

verus! {

/// One entry of the table of contents.
#[derive(Debug)]
pub struct Bookmark {
    pub title: String,
    /// Red, green and blue, each 0 or 1.
    pub color: (u8, u8, u8),
    /// The nesting level.
    pub level: u32,
    /// The page that the entry leads to.
    pub target: ObjectId,
}

/// A bookmark as a mathematical value.
pub struct BookmarkView {
    pub title: Seq<char>,
    pub color: (u8, u8, u8),
    pub level: u32,
    pub target: ObjectId,
}

impl View for Bookmark {
    type V = BookmarkView;

    open spec fn view(&self) -> BookmarkView {
        BookmarkView {
            title: self.title@,
            color: self.color,
            level: self.level,
            target: self.target,
        }
    }
}

impl BookmarkView {
    /// Each part of the colour is 0 or 1.
    pub open spec fn well_formed(self) -> bool {
        self.color.0 <= 1 && self.color.1 <= 1 && self.color.2 <= 1
    }

    /// The entry of a document's bookmark table that holds this bookmark
    /// under the identifier `id`.
    pub open spec fn table_entry(self, id: u32) -> BookmarkModel {
        BookmarkModel {
            children: Seq::empty(),
            title: self.title,
            format: self.level,
            color: (unit_bits(self.color.0), unit_bits(self.color.1), unit_bits(self.color.2)),
            page: self.target,
            id,
        }
    }
}

/// The views of a list of bookmarks.
pub open spec fn bookmark_views(list: Seq<Bookmark>) -> Seq<BookmarkView> {
    list.map_values(|bookmark: Bookmark| bookmark@)
}

/// Every bookmark of the list is well formed.
pub open spec fn all_well_formed(list: Seq<BookmarkView>) -> bool {
    forall|i: int| 0 <= i < list.len() ==> (#[trigger] list[i]).well_formed()
}

/// The identifiers 1, 2, ... that `count` top-level bookmarks get in a
/// document that had none.
pub open spec fn bookmark_ids(count: nat) -> Seq<u32> {
    Seq::new(count, |i: int| (i + 1) as u32)
}

/// The bookmark table of a document that had none and was given the
/// bookmarks of the list, in order.
pub open spec fn bookmark_table(list: Seq<BookmarkView>) -> Map<u32, BookmarkModel> {
    Map::new(
        |id: u32| 1 <= id <= list.len(),
        |id: u32| list[id - 1].table_entry(id),
    )
}

/// A document that had no bookmarks, with those of the list added.
pub open spec fn with_bookmarks(document: DocumentModel, list: Seq<BookmarkView>) -> DocumentModel {
    DocumentModel {
        max_bookmark_id: list.len() as u32,
        bookmarks: bookmark_ids(list.len()),
        bookmark_table: bookmark_table(list),
        ..document
    }
}

/// Adds the bookmarks, in order, as top-level bookmarks of a document that
/// has none.
pub fn add_bookmarks(output: &mut lopdf::Document, bookmarks: &Vec<Bookmark>)
    requires
        bookmarks.len() < u32::MAX,
        all_well_formed(bookmark_views(bookmarks@)),
        document_model(*old(output)).max_bookmark_id == 0,
        document_model(*old(output)).bookmarks == Seq::<u32>::empty(),
        document_model(*old(output)).bookmark_table == Map::<u32, BookmarkModel>::empty(),
    ensures
        document_model(*final(output)) == with_bookmarks(
            document_model(*old(output)),
            bookmark_views(bookmarks@),
        ),
{
    let ghost base = document_model(*output);
    let ghost list = bookmark_views(bookmarks@);
    let mut i: usize = 0;
    assert(with_bookmarks(base, list.take(0)).bookmarks =~= base.bookmarks);
    assert(with_bookmarks(base, list.take(0)).bookmark_table =~= base.bookmark_table);
    while i < bookmarks.len()
        invariant
            i <= bookmarks.len(),
            bookmarks.len() < u32::MAX,
            list == bookmark_views(bookmarks@),
            all_well_formed(list),
            document_model(*output) == with_bookmarks(base, list.take(i as int)),
        decreases bookmarks.len() - i,
    {
        let bookmark = &bookmarks[i];
        assert(list[i as int] == bookmark@);
        assert(list[i as int].well_formed());
        let id = add_bookmark(
            output,
            bookmark.title.clone(),
            bookmark.color,
            bookmark.level,
            bookmark.target,
        );
        proof {
            let before = list.take(i as int);
            let after = list.take(i + 1);
            assert(id == i + 1);
            assert(bookmark_ids(after.len()) =~= bookmark_ids(before.len()).push(id));
            assert(bookmark_table(after) =~= bookmark_table(before).insert(
                id,
                list[i as int].table_entry(id),
            ));
        }
        i += 1;
    }
    assert(list.take(i as int) =~= list);
}

} // verus!
