//! The bookmark value type, the display row type, and the errors a
//! document load can end in.

use vstd::prelude::*;

verus! {

/// A saved reference: a display name and the link it opens.
///
/// The link is opaque to this library: it is never validated or
/// dereferenced, only handed back as the payload of a display row.
#[derive(Debug, Clone, PartialEq, Eq)]
pub struct Bookmark {
    pub name: String,
    pub link: String,
}

/// Why loading a bookmark document failed.  Both errors are fatal for
/// the whole load: no partial collection is ever returned.
#[derive(Debug, Clone, Copy, PartialEq, Eq, Structural)]
pub enum ReadError {
    /// The document text is not valid JSON.
    Parse,
    /// Some bookmark entry lacks a non-empty string `title` or `href`.
    Schema,
}

/// One display row handed to the launcher: a title, a subtitle, and
/// the URL to open when the row is chosen.
#[derive(Debug, Clone, PartialEq, Eq)]
pub struct Item {
    pub title: String,
    pub subtitle: String,
    pub arg: String,
}

/// A well-formed bookmark has a non-empty name and a non-empty link;
/// loading establishes this for every element of the collection.
pub open spec fn bookmark_wf(b: Bookmark) -> bool {
    &&& b.name@.len() > 0
    &&& b.link@.len() > 0
}

impl Bookmark {
    /// Assembles a bookmark from the two fields extracted from one
    /// document entry: `Ok` exactly when both are present and
    /// non-empty, `Err(Schema)` otherwise.
    pub fn from_fields(title: Option<String>, href: Option<String>) -> (r: Result<Bookmark, ReadError>)
        ensures
            match r {
                Ok(b) => {
                    &&& title is Some && href is Some
                    &&& b.name == title->0 && b.link == href->0
                    &&& bookmark_wf(b)
                },
                Err(e) => {
                    &&& e == ReadError::Schema
                    &&& (title is None || href is None || title->0@.len() == 0 || href->0@.len() == 0)
                },
            },
    {
        match (title, href) {
            (Some(name), Some(link)) => {
                if name.as_str().unicode_len() == 0 || link.as_str().unicode_len() == 0 {
                    Err(ReadError::Schema)
                } else {
                    Ok(Bookmark { name, link })
                }
            },
            _ => Err(ReadError::Schema),
        }
    }

    /// Maps this bookmark to its display row: the name as title, the
    /// fixed "open in browser" subtitle, and the link as payload.
    pub fn to_item(&self) -> (r: Item)
        ensures
            r.title@ == self.name@,
            r.subtitle@ == "Open in browser →"@,
            r.arg@ == self.link@,
    {
        Item {
            title: self.name.clone(),
            subtitle: String::from_str("Open in browser →"),
            arg: self.link.clone(),
        }
    }
}

} // verus!
