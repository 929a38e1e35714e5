pub mod model;
pub mod store;
pub mod document;
pub mod names;
pub mod classify;
pub mod listing;
pub mod renumber;
pub mod title;
pub mod bookmark;
pub mod collect;
pub mod merger;
pub mod finalizer;
pub mod bounds;
pub mod finish;
pub mod merge;
pub mod shape;
pub mod laws;
