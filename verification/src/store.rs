//! The bookmark store: loading the collection from a JSON document.
//!
//! The document's top level is an object; each of its values is an
//! array of entries carrying string fields `title` and `href`.  All
//! groups are flattened into one sequence in document order.  Loading
//! is all-or-nothing: one bad entry aborts the whole load.

use vstd::prelude::*;

use crate::bookmark::Bookmark;
use crate::bookmark::ReadError;
use crate::bookmark::bookmark_wf;

verus! {

/// `json::JsonValue`, the parsed-document type of the `json` crate,
/// declared so that values of it can flow through verified code.  It
/// stays opaque here: only the trusted accessors below look inside.
#[verifier::external_type_specification]
#[verifier::external_body]
pub struct ExJsonValue(json::JsonValue);

/// `json::Error`, the parse-error type of the `json` crate.
#[verifier::external_type_specification]
#[verifier::external_body]
pub struct ExJsonError(json::Error);

/// Whether the `json` crate accepts `s` as a JSON document.
pub uninterp spec fn wellformed_json(s: Seq<char>) -> bool;

/// The flattened bookmark entries of the document with text `s`: for
/// every top-level key in document order, for every element of that
/// key's array in array order, the element's `title` and `href`
/// fields — each the field's text when it is a JSON string, `None`
/// when it is missing or of another type.  Entries of non-array
/// top-level values and non-object top-level documents contribute
/// nothing.
pub uninterp spec fn flat_entries_of(s: Seq<char>) -> Seq<(Option<Seq<char>>, Option<Seq<char>>)>;

/// What the document value `v` holds under `key`: the text when `v`
/// is an object whose `key` maps to a JSON string, `None` otherwise.
pub uninterp spec fn string_field_of(v: json::JsonValue, key: Seq<char>) -> Option<Seq<char>>;

/// The view of one extracted field.
pub open spec fn opt_view(o: Option<String>) -> Option<Seq<char>> {
    match o {
        Some(s) => Some(s@),
        None => None,
    }
}

/// The views of a row of extracted entries.
pub open spec fn entry_views(es: Seq<(Option<String>, Option<String>)>) -> Seq<
    (Option<Seq<char>>, Option<Seq<char>>),
> {
    es.map_values(|e: (Option<String>, Option<String>)| (opt_view(e.0), opt_view(e.1)))
}

/// An extracted entry is good when both fields are present as
/// non-empty strings.
pub open spec fn entry_good(e: (Option<Seq<char>>, Option<Seq<char>>)) -> bool {
    &&& e.0 is Some && e.0->0.len() > 0
    &&& e.1 is Some && e.1->0.len() > 0
}

/// Every extracted entry of the document is good.
pub open spec fn entries_ok(es: Seq<(Option<Seq<char>>, Option<Seq<char>>)>) -> bool {
    forall|k: int| 0 <= k < es.len() ==> entry_good(#[trigger] es[k])
}

/// Relies on `json::parse`, `JsonValue::entries`,
/// `JsonValue::members`, the `Index<&str>` impl for `JsonValue`, and
/// `JsonValue::as_str`: all pure functions of the text, so the
/// extraction succeeds exactly when the parser accepts the text, and
/// what it extracts is a function of the text alone.
#[verifier::external_body]
fn parse_entries(text: &str) -> (r: Result<Vec<(Option<String>, Option<String>)>, json::Error>)
    ensures
        r is Ok <==> wellformed_json(text@),
        r is Ok ==> entry_views(r->Ok_0@) == flat_entries_of(text@),
{
    let doc = json::parse(text)?;
    let rows: Vec<(Option<String>, Option<String>)> = doc
        .entries()
        .flat_map(|entry| entry.1.members())
        .map(|m| (m["title"].as_str().map(str::to_owned), m["href"].as_str().map(str::to_owned)))
        .collect();
    Ok(rows)
}

/// Relies on the `json` crate's `Index<&str>` impl for `JsonValue`
/// and on `JsonValue::as_str`: the looked-up text depends on the
/// value and the key alone.
#[verifier::external_body]
fn string_field(v: &json::JsonValue, key: &str) -> (r: Option<String>)
    ensures
        opt_view(r) == string_field_of(*v, key@),
{
    v[key].as_str().map(str::to_owned)
}

impl Bookmark {
    /// Reads one document entry: its `title` becomes the name and its
    /// `href` the link.  Both must be present as non-empty strings,
    /// else the entry fails with `Schema`; everything else about the
    /// entry is ignored.
    pub fn from_json_value(value: &json::JsonValue) -> (r: Result<Bookmark, ReadError>)
        ensures
            ({
                let t = string_field_of(*value, "title"@);
                let h = string_field_of(*value, "href"@);
                match r {
                    Ok(b) => {
                        &&& t is Some && t->0.len() > 0
                        &&& h is Some && h->0.len() > 0
                        &&& b.name@ == t->0
                        &&& b.link@ == h->0
                        &&& bookmark_wf(b)
                    },
                    Err(e) => {
                        &&& e == ReadError::Schema
                        &&& (t is None || h is None || t->0.len() == 0 || h->0.len() == 0)
                    },
                }
            }),
    {
        let title = string_field(value, "title");
        let href = string_field(value, "href");
        Bookmark::from_fields(title, href)
    }
}

/// Loads the whole collection: one bookmark per extracted entry of
/// the document, names from `title`, links from `href`, flattened in
/// document order.  Fails with `Parse` exactly when the text is not a
/// JSON document, and with `Schema` exactly when the text parses but
/// some entry lacks a non-empty string `title` or `href`; either
/// failure aborts the whole load, so nothing partial is ever
/// returned.
pub fn read_bookmarks(json: String) -> (r: Result<Vec<Bookmark>, ReadError>)
    ensures
        r is Ok <==> wellformed_json(json@) && entries_ok(flat_entries_of(json@)),
        r is Ok ==> r->Ok_0@.len() == flat_entries_of(json@).len(),
        r is Ok ==> forall|k: int|
            0 <= k < r->Ok_0@.len() ==> (#[trigger] r->Ok_0@[k]).name@ == flat_entries_of(
                json@,
            )[k].0->0 && r->Ok_0@[k].link@ == flat_entries_of(json@)[k].1->0,
        r is Ok ==> forall|k: int| 0 <= k < r->Ok_0@.len() ==> bookmark_wf(#[trigger] r->Ok_0@[k]),
        (r is Err && r->Err_0 == ReadError::Parse) <==> !wellformed_json(json@),
        (r is Err && r->Err_0 == ReadError::Schema) <==> wellformed_json(json@) && !entries_ok(
            flat_entries_of(json@),
        ),
{
    let ghost es = flat_entries_of(json@);
    let mut rest = match parse_entries(json.as_str()) {
        Ok(v) => v,
        Err(_) => {
            return Err(ReadError::Parse);
        },
    };
    proof {
        assert(entry_views(rest@) =~= es.skip(0));
    }
    let mut result: Vec<Bookmark> = Vec::new();
    while rest.len() > 0
        invariant
            wellformed_json(json@),
            es == flat_entries_of(json@),
            result@.len() + rest@.len() == es.len(),
            entry_views(rest@) == es.skip(result@.len() as int),
            forall|k: int| 0 <= k < result@.len() ==> entry_good(#[trigger] es[k]),
            forall|k: int|
                0 <= k < result@.len() ==> (#[trigger] result@[k]).name@ == es[k].0->0
                    && result@[k].link@ == es[k].1->0,
            forall|k: int| 0 <= k < result@.len() ==> bookmark_wf(#[trigger] result@[k]),
        decreases rest@.len(),
    {
        let ghost rest_prev = rest@;
        let ghost n = result@.len() as int;
        let e = rest.remove(0);
        proof {
            assert(entry_views(rest_prev)[0] == es.skip(n)[0]);
            assert((opt_view(e.0), opt_view(e.1)) == es[n]);
            assert(entry_views(rest@) =~= es.skip(n + 1)) by {
                assert forall|k: int| 0 <= k < rest@.len() implies #[trigger] entry_views(rest@)[k]
                    == es.skip(n + 1)[k] by {
                    assert(rest@[k] == rest_prev[k + 1]);
                    assert(entry_views(rest_prev)[k + 1] == es.skip(n)[k + 1]);
                }
            }
        }
        match Bookmark::from_fields(e.0, e.1) {
            Ok(b) => {
                proof {
                    assert(es[n].0 == opt_view(e.0) && es[n].1 == opt_view(e.1));
                    assert(e.0 is Some && e.1 is Some);
                    assert(es[n].0->0 == e.0->0@ && es[n].1->0 == e.1->0@);
                    assert(entry_good(es[n]));
                    assert(b.name@ == es[n].0->0 && b.link@ == es[n].1->0);
                }
                let ghost res_prev = result@;
                result.push(b);
                proof {
                    assert forall|k: int| 0 <= k < result@.len() implies entry_good(
                        #[trigger] es[k],
                    ) by {
                        if k < n {
                            assert(res_prev[k].name@ == es[k].0->0);
                        }
                    }
                    assert forall|k: int| 0 <= k < result@.len() implies (
                    #[trigger] result@[k]).name@ == es[k].0->0 && result@[k].link@
                        == es[k].1->0 by {
                        if k < n {
                            assert(result@[k] == res_prev[k]);
                            assert(res_prev[k].name@ == es[k].0->0);
                        } else {
                            assert(result@[k] == b);
                        }
                    }
                    assert forall|k: int| 0 <= k < result@.len() implies bookmark_wf(
                        #[trigger] result@[k],
                    ) by {
                        if k < n {
                            assert(result@[k] == res_prev[k]);
                            assert(bookmark_wf(res_prev[k]));
                        } else {
                            assert(result@[k] == b);
                        }
                    }
                }
            },
            Err(err) => {
                proof {
                    assert(!entry_good(es[n]));
                    assert(!entries_ok(es));
                }
                return Err(err);
            },
        }
    }
    proof {
        assert(result@.len() == es.len());
        assert(entries_ok(es));
    }
    Ok(result)
}

} // verus!
