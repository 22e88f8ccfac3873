//! A query-time bookmark filter.
//!
//! Given a stored collection of bookmarks (name + link pairs) and a
//! user-typed query, the library produces a ranked, bounded list of
//! matching display rows for a launcher-style UI, falling back to a
//! "search the web" suggestion when nothing matches.

pub mod bookmark;
pub mod matcher;
pub mod query;
pub mod rank;
pub mod results;
pub mod store;

pub use bookmark::Bookmark;
pub use bookmark::Item;
pub use bookmark::ReadError;
pub use query::normalize_query;
pub use rank::RESULT_CAP;
pub use rank::sort_and_filter_matching_bookmarks;
pub use results::empty;
pub use results::search;
pub use results::to_items;
pub use store::read_bookmarks;
