use s3_viewer::models::{ListedLevel, ListedObject};
use s3_viewer::scripts::listing::{
    LevelListing, ListedPage, ListingStep, FOLDER_DELIMITER, LIST_PAGE_SIZE,
    MAX_LIST_PAGES_PER_LEVEL,
};

fn page(prefixes: &[&str], keys: &[&str], next: Option<&str>) -> ListedPage {
    ListedPage {
        common_prefixes: prefixes.iter().map(ToString::to_string).collect(),
        objects: keys
            .iter()
            .map(|key| ListedObject {
                key: key.to_string(),
                size: 1,
                last_modified: "t".to_string(),
            })
            .collect(),
        next_continuation_token: next.map(ToString::to_string),
    }
}

fn keys_of(level: &ListedLevel) -> Vec<&str> {
    level.objects.iter().map(|o| o.key.as_str()).collect()
}

#[test]
fn the_first_request_lists_the_prefix_with_the_delimiter() {
    let listing = LevelListing::start("a/");
    let request = listing.page_request();
    assert_eq!(request.prefix.as_deref(), Some("a/"));
    assert_eq!(request.delimiter, "/");
    assert_eq!(request.continuation_token, None);
    assert_eq!(request.max_keys, 1000);
    assert_eq!(FOLDER_DELIMITER, "/");
    assert_eq!(LIST_PAGE_SIZE, 1000);
    assert_eq!(listing.pages_read(), 0);

    let root = LevelListing::start("");
    assert_eq!(root.page_request().prefix, None);
}

#[test]
fn a_single_page_completes_the_level() {
    let step = LevelListing::start("a/").on_page(page(&["a/b/"], &["a/x"], None));
    let ListingStep::Done(level) = step else {
        panic!("a page without a token ends the listing");
    };
    assert_eq!(level.common_prefixes, vec!["a/b/"]);
    assert_eq!(keys_of(&level), vec!["a/x"]);
    assert!(!level.is_truncated);
}

#[test]
fn pages_are_followed_by_their_tokens_and_appended_in_order() {
    let step = LevelListing::start("").on_page(page(&["p/"], &["k1"], Some("t1")));
    let ListingStep::Next(listing) = step else {
        panic!("a token asks for the next page");
    };
    assert_eq!(listing.pages_read(), 1);
    assert_eq!(listing.page_request().continuation_token.as_deref(), Some("t1"));
    let step = listing.on_page(page(&["q/"], &["k2", "k3"], Some("t2")));
    let ListingStep::Next(listing) = step else {
        panic!("a new token asks for the next page");
    };
    assert_eq!(listing.page_request().continuation_token.as_deref(), Some("t2"));
    let ListingStep::Done(level) = listing.on_page(page(&[], &["k4"], None)) else {
        panic!("the last page ends the listing");
    };
    assert_eq!(level.common_prefixes, vec!["p/", "q/"]);
    assert_eq!(keys_of(&level), vec!["k1", "k2", "k3", "k4"]);
    assert!(!level.is_truncated);
}

#[test]
fn a_repeated_token_stops_the_listing_as_truncated() {
    let ListingStep::Next(listing) = LevelListing::start("").on_page(page(&[], &["k1"], Some("t")))
    else {
        panic!("a token asks for the next page");
    };
    let ListingStep::Done(level) = listing.on_page(page(&[], &["k2"], Some("t"))) else {
        panic!("the token just sent ends the listing");
    };
    assert_eq!(keys_of(&level), vec!["k1", "k2"]);
    assert!(level.is_truncated);
}

#[test]
fn the_page_cap_stops_the_listing_as_truncated() {
    assert_eq!(MAX_LIST_PAGES_PER_LEVEL, 100);
    let mut listing = LevelListing::start("x/");
    let mut pages = 0;
    let level = loop {
        let token = format!("t{pages}");
        let key = format!("x/k{pages}");
        pages += 1;
        match listing.on_page(page(&[], &[key.as_str()], Some(token.as_str()))) {
            ListingStep::Next(next) => listing = next,
            ListingStep::Done(level) => break level,
        }
    };
    assert_eq!(pages, MAX_LIST_PAGES_PER_LEVEL);
    assert_eq!(level.objects.len(), MAX_LIST_PAGES_PER_LEVEL);
    assert!(level.is_truncated);
}
