use bookmark_filter::Bookmark;
use bookmark_filter::Item;
use bookmark_filter::ReadError;
use bookmark_filter::RESULT_CAP;
use bookmark_filter::empty;
use bookmark_filter::normalize_query;
use bookmark_filter::read_bookmarks;
use bookmark_filter::search;
use bookmark_filter::sort_and_filter_matching_bookmarks;
use bookmark_filter::to_items;

fn bm(name: &str, link: &str) -> Bookmark {
    Bookmark {
        name: String::from(name),
        link: String::from(link),
    }
}

#[test]
fn does_not_matches_the_query() {
    let bookmark = Bookmark {
        name: String::from("Dashboard"),
        link: String::from("http://www.test.blub"),
    };

    let score = bookmark.calculate_matching_score("z".to_string());

    assert_eq!(score, 0);
}

#[test]
fn matches_the_query() {
    let bookmark = Bookmark {
        name: String::from("Dashboard"),
        link: String::from("http://www.test.blub"),
    };

    let score = bookmark.calculate_matching_score("d".to_string());

    assert_eq!(score, -29);
}

#[test]
fn transforms_to_item() {
    let bookmark = Bookmark {
        name: String::from("Dashboard"),
        link: String::from("http://www.test.blub"),
    };
    let expected_item = Item {
        title: String::from("Dashboard"),
        subtitle: String::from("Open in browser →"),
        arg: String::from("http://www.test.blub"),
    };

    let item = bookmark.to_item();

    assert_eq!(item, expected_item);
}

#[test]
fn sorts_and_keep_matchting_bookmarks() {
    let bookmark1 = Bookmark {
        name: String::from("Dashboard"),
        link: String::from("http://www.test.blub"),
    };
    let bookmark2 = Bookmark {
        name: String::from("Bookmarks"),
        link: String::from("http://www.bookmarks.blub"),
    };
    let bookmarks = vec![bookmark1.clone(), bookmark2.clone()];
    let expected_bookmarks = vec![bookmark1.clone(), bookmark2.clone()];

    let matching_bookmarks = sort_and_filter_matching_bookmarks(bookmarks, "o".to_owned());

    assert_eq!(matching_bookmarks, expected_bookmarks);
}

#[test]
fn removes_not_matchting_bookmarks() {
    let bookmark1 = Bookmark {
        name: String::from("Dashboard"),
        link: String::from("http://www.test.blub"),
    };
    let bookmark2 = Bookmark {
        name: String::from("Bookmarks"),
        link: String::from("http://www.bookmarks.blub"),
    };
    let bookmarks = vec![bookmark1.clone(), bookmark2.clone()];
    let expected_bookmarks = vec![bookmark1.clone()];

    let matching_bookmarks = sort_and_filter_matching_bookmarks(bookmarks, "d".to_owned());

    assert_eq!(matching_bookmarks, expected_bookmarks);
}

#[test]
fn relevance_is_the_positive_score() {
    let bookmark = bm("Dashboard", "http://www.test.blub");
    assert_eq!(bookmark.relevance("d"), 29);
    assert_eq!(bookmark.relevance("z"), 0);
}

#[test]
fn no_match_yields_fallback_item() {
    let bookmarks = vec![bm("Dashboard", "http://www.test.blub")];
    let items = to_items(
        bookmarks,
        String::from("z"),
        String::from("http://search.example"),
    );
    assert_eq!(items.len(), 1);
    assert_eq!(items[0].title, "nothing found for z, try search on website");
    assert_eq!(items[0].subtitle, "Open them →");
    assert_eq!(items[0].arg, "http://search.example");
}

#[test]
fn single_match_yields_single_item() {
    let bookmarks = vec![bm("Dashboard", "http://www.test.blub")];
    let items = to_items(
        bookmarks,
        String::from("d"),
        String::from("http://search.example"),
    );
    assert_eq!(items.len(), 1);
    assert_eq!(items[0].title, "Dashboard");
    assert_eq!(items[0].subtitle, "Open in browser →");
    assert_eq!(items[0].arg, "http://www.test.blub");
}

#[test]
fn common_letter_keeps_both_in_source_order() {
    let bookmarks = vec![
        bm("Dashboard", "http://link.one"),
        bm("Bookmarks", "http://link.two"),
    ];
    let items = to_items(
        bookmarks,
        String::from("o"),
        String::from("http://search.example"),
    );
    assert_eq!(items.len(), 2);
    assert_eq!(items[0].title, "Dashboard");
    assert_eq!(items[1].title, "Bookmarks");
}

#[test]
fn selective_letter_keeps_only_the_match() {
    let bookmarks = vec![
        bm("Dashboard", "http://link.one"),
        bm("Bookmarks", "http://link.two"),
    ];
    let items = to_items(
        bookmarks,
        String::from("d"),
        String::from("http://search.example"),
    );
    assert_eq!(items.len(), 1);
    assert_eq!(items[0].title, "Dashboard");
    assert_eq!(items[0].arg, "http://link.one");
}

#[test]
fn no_query_yields_placeholder() {
    let bookmarks = vec![bm("Dashboard", "http://www.test.blub")];
    let items = search(bookmarks, None, String::from("http://search.example"));
    assert_eq!(items.len(), 1);
    assert_eq!(items[0].title, "Search for bookmarks");
    assert_eq!(items[0].subtitle, "Open them →");
    assert_eq!(items[0].arg, "http://search.example");
}

#[test]
fn empty_query_yields_placeholder() {
    let bookmarks = vec![bm("Dashboard", "http://www.test.blub")];
    let items = search(
        bookmarks,
        Some(String::new()),
        String::from("http://search.example"),
    );
    assert_eq!(items.len(), 1);
    assert_eq!(items[0].title, "Search for bookmarks");
}

#[test]
fn whitespace_query_yields_placeholder() {
    let bookmarks = vec![bm("Dashboard", "http://www.test.blub")];
    let items = search(
        bookmarks,
        Some(String::from("   ")),
        String::from("http://search.example"),
    );
    assert_eq!(items.len(), 1);
    assert_eq!(items[0].title, "Search for bookmarks");
}

#[test]
fn placeholder_is_independent_of_collection() {
    let many = vec![bm("One", "http://l.one"), bm("Two", "http://l.two")];
    let with_many = search(many, None, String::from("http://search.example"));
    let with_none = search(Vec::new(), None, String::from("http://search.example"));
    assert_eq!(with_many, with_none);
}

#[test]
fn output_is_capped_at_ten() {
    let names = [
        "Alpha news", "Alpha mail", "Alpha maps", "Alpha docs", "Alpha chat", "Alpha code",
        "Alpha wiki", "Alpha blog", "Alpha shop", "Alpha bank", "Alpha cloud", "Alpha photos",
        "Alpha music", "Alpha videos", "Alpha games",
    ];
    let mut bookmarks = Vec::new();
    for name in names {
        bookmarks.push(bm(name, "http://capped.example"));
    }
    assert_eq!(bookmarks.len(), 15);

    let ranked = sort_and_filter_matching_bookmarks(bookmarks.clone(), String::from("alpha"));
    assert_eq!(ranked.len(), RESULT_CAP);
    assert_eq!(ranked.len(), 10);

    // Best matches come first: the scores never rise along the list.
    for window in 0..ranked.len() - 1 {
        assert!(ranked[window].relevance("alpha") >= ranked[window + 1].relevance("alpha"));
    }

    let items = to_items(
        bookmarks,
        String::from("alpha"),
        String::from("http://search.example"),
    );
    assert_eq!(items.len(), 10);
}

#[test]
fn ranking_is_deterministic() {
    let bookmarks = vec![
        bm("Dashboard", "http://link.one"),
        bm("Bookmarks", "http://link.two"),
        bm("Boards", "http://link.three"),
    ];
    let first = sort_and_filter_matching_bookmarks(bookmarks.clone(), String::from("bo"));
    let second = sort_and_filter_matching_bookmarks(bookmarks, String::from("bo"));
    assert_eq!(first, second);
}

#[test]
fn equal_scores_keep_source_order() {
    let bookmarks = vec![
        bm("Twin", "http://first.example"),
        bm("Twin", "http://second.example"),
    ];
    let ranked = sort_and_filter_matching_bookmarks(bookmarks, String::from("twin"));
    assert_eq!(ranked.len(), 2);
    assert_eq!(ranked[0].link, "http://first.example");
    assert_eq!(ranked[1].link, "http://second.example");
}

#[test]
fn query_case_does_not_change_results() {
    let bookmarks = vec![
        bm("delta", "http://link.one"),
        bm("Dashboard", "http://link.two"),
    ];
    let lower = search(
        bookmarks.clone(),
        Some(String::from("d")),
        String::from("http://search.example"),
    );
    let upper = search(
        bookmarks,
        Some(String::from("D")),
        String::from("http://search.example"),
    );
    assert_eq!(lower, upper);
    assert!(upper.iter().any(|it| it.title == "delta"));
}

#[test]
fn query_is_trimmed_before_matching() {
    let bookmarks = vec![bm("Dashboard", "http://www.test.blub")];
    let padded = search(
        bookmarks.clone(),
        Some(String::from("  d  ")),
        String::from("http://search.example"),
    );
    let plain = search(
        bookmarks,
        Some(String::from("d")),
        String::from("http://search.example"),
    );
    assert_eq!(padded, plain);
    assert_eq!(padded[0].title, "Dashboard");
}

#[test]
fn normalize_lowers_and_trims() {
    assert_eq!(normalize_query(" Mixed CASE  "), "mixed case");
    assert_eq!(normalize_query(""), "");
    assert_eq!(normalize_query("   "), "");
}

#[test]
fn placeholder_builders_carry_their_strings() {
    let placeholder = empty(String::from("http://search.example"));
    assert_eq!(placeholder.title, "Search for bookmarks");
    assert_eq!(placeholder.subtitle, "Open them →");
    assert_eq!(placeholder.arg, "http://search.example");

    let fallback = bookmark_filter::results::default(String::from("zzz"), String::from("http://search.example"));
    assert_eq!(fallback.title, "nothing found for zzz, try search on website");
    assert_eq!(fallback.subtitle, "Open them →");
    assert_eq!(fallback.arg, "http://search.example");
}

#[test]
fn reads_and_flattens_all_groups() {
    let document = String::from(
        "{\"toolbar\":[{\"title\":\"Dashboard\",\"href\":\"http://www.test.blub\"},\
         {\"title\":\"Bookmarks\",\"href\":\"http://www.bookmarks.blub\"}],\
         \"other\":[{\"title\":\"News\",\"href\":\"http://news.example\"}]}",
    );
    let bookmarks = read_bookmarks(document).unwrap();
    assert_eq!(
        bookmarks,
        vec![
            bm("Dashboard", "http://www.test.blub"),
            bm("Bookmarks", "http://www.bookmarks.blub"),
            bm("News", "http://news.example"),
        ]
    );
}

#[test]
fn extra_fields_are_ignored() {
    let document = String::from(
        "{\"g\":[{\"title\":\"One\",\"href\":\"http://l.one\",\"icon\":\"star\",\"rank\":3}]}",
    );
    let bookmarks = read_bookmarks(document).unwrap();
    assert_eq!(bookmarks, vec![bm("One", "http://l.one")]);
}

#[test]
fn empty_object_reads_as_empty_collection() {
    assert_eq!(read_bookmarks(String::from("{}")).unwrap(), Vec::new());
}

#[test]
fn malformed_document_is_a_parse_error() {
    assert_eq!(
        read_bookmarks(String::from("{not json")),
        Err(ReadError::Parse)
    );
}

#[test]
fn missing_href_is_a_schema_error() {
    let document = String::from("{\"g\":[{\"title\":\"One\"}]}");
    assert_eq!(read_bookmarks(document), Err(ReadError::Schema));
}

#[test]
fn non_string_title_is_a_schema_error() {
    let document = String::from("{\"g\":[{\"title\":7,\"href\":\"http://l.one\"}]}");
    assert_eq!(read_bookmarks(document), Err(ReadError::Schema));
}

#[test]
fn empty_title_is_a_schema_error() {
    let document = String::from("{\"g\":[{\"title\":\"\",\"href\":\"http://l.one\"}]}");
    assert_eq!(read_bookmarks(document), Err(ReadError::Schema));
}

#[test]
fn one_bad_entry_aborts_the_whole_load() {
    let document = String::from(
        "{\"g\":[{\"title\":\"Good\",\"href\":\"http://l.one\"},{\"title\":\"Bad\"}]}",
    );
    assert_eq!(read_bookmarks(document), Err(ReadError::Schema));
}

#[test]
fn builds_bookmark_from_fields() {
    assert_eq!(
        Bookmark::from_fields(Some(String::from("One")), Some(String::from("http://l.one"))),
        Ok(bm("One", "http://l.one"))
    );
    assert_eq!(
        Bookmark::from_fields(None, Some(String::from("http://l.one"))),
        Err(ReadError::Schema)
    );
    assert_eq!(
        Bookmark::from_fields(Some(String::from("One")), Some(String::new())),
        Err(ReadError::Schema)
    );
}

#[test]
fn builds_bookmark_from_json_value() {
    let value = json::parse("{\"title\":\"One\",\"href\":\"http://l.one\"}").unwrap();
    assert_eq!(Bookmark::from_json_value(&value), Ok(bm("One", "http://l.one")));

    let bad = json::parse("{\"title\":\"One\"}").unwrap();
    assert_eq!(Bookmark::from_json_value(&bad), Err(ReadError::Schema));
}
