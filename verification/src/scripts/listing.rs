//! Listing ONE level of a bucket: the common prefixes and objects directly
//! under a prefix (empty = bucket root), following continuation tokens until
//! S3 has no more pages. The pages themselves are fetched by the caller; this
//! is what decides which page to ask for next and when to stop.
//!
//! A server that answers with the very token it was just sent would serve the
//! same page again and again: the listing stops there and the level is
//! reported as truncated, so no entry is repeated. At most
//! `MAX_LIST_PAGES_PER_LEVEL` pages are read; when that cap stops the
//! listing, the level is reported as truncated too.
use vstd::prelude::*;

use crate::models::{LevelView, ListedLevel, ListedObject, ListedObjectView};
use crate::text::{option_string_view, str_eq};

verus! {

/// S3's own maximum page size.
pub const LIST_PAGE_SIZE: u32 = 1000;

/// Safety cap for huge folders: at most 100 pages of 1000 keys are read for
/// one level.
pub const MAX_LIST_PAGES_PER_LEVEL: usize = 100;

pub const FOLDER_DELIMITER: &'static str = "/";

/// One `ListObjectsV2` request of a level listing.
pub struct ListPageRequest {
    pub prefix: Option<String>,
    pub delimiter: String,
    pub continuation_token: Option<String>,
    pub max_keys: u32,
}

/// One page S3 answered.
pub struct ListedPage {
    pub common_prefixes: Vec<String>,
    pub objects: Vec<ListedObject>,
    pub next_continuation_token: Option<String>,
}

/// A level listing in progress: what the pages read so far held, the token
/// to continue with, and how many pages were read.
pub struct LevelListing {
    prefix: String,
    common_prefixes: Vec<String>,
    objects: Vec<ListedObject>,
    continuation_token: Option<String>,
    pages_read: usize,
}

/// The contents of a [`LevelListing`].
pub struct ListingView {
    pub prefix: Seq<char>,
    pub common_prefixes: Seq<Seq<char>>,
    pub objects: Seq<ListedObjectView>,
    pub continuation_token: Option<Seq<char>>,
    pub pages_read: nat,
}

impl View for LevelListing {
    type V = ListingView;

    closed spec fn view(&self) -> ListingView {
        ListingView {
            prefix: self.prefix@,
            common_prefixes: self.common_prefixes@.map_values(|s: String| s@),
            objects: self.objects@.map_values(|o: ListedObject| o@),
            continuation_token: option_string_view(self.continuation_token),
            pages_read: self.pages_read as nat,
        }
    }
}

/// What to do after a page: ask for the next one, or hand over the level.
pub enum ListingStep {
    Next(LevelListing),
    Done(ListedLevel),
}

impl LevelListing {
    /// A listing never stands after the page cap: the page that reaches it
    /// ends the listing.
    #[verifier::type_invariant]
    spec fn within_page_cap(&self) -> bool {
        self.pages_read < MAX_LIST_PAGES_PER_LEVEL
    }

    /// A listing of the level under `prefix` that has read nothing yet.
    pub fn start(prefix: &str) -> (r: LevelListing)
        ensures
            r@ == (ListingView {
                prefix: prefix@,
                common_prefixes: Seq::empty(),
                objects: Seq::empty(),
                continuation_token: None,
                pages_read: 0,
            }),
    {
        let r = LevelListing {
            prefix: String::from_str(prefix),
            common_prefixes: Vec::new(),
            objects: Vec::new(),
            continuation_token: None,
            pages_read: 0,
        };
        assert(r@.common_prefixes =~= Seq::empty());
        assert(r@.objects =~= Seq::empty());
        r
    }

    /// How many pages the listing has read: always fewer than the cap, since
    /// the page that reaches the cap ends the listing.
    pub fn pages_read(&self) -> (r: usize)
        ensures
            r == self@.pages_read,
            r < MAX_LIST_PAGES_PER_LEVEL,
    {
        proof {
            use_type_invariant(self);
        }
        self.pages_read
    }

    /// The request for the next page: the listed prefix (none for the bucket
    /// root), delimiter `/`, the current continuation token, pages of 1000.
    pub fn page_request(&self) -> (r: ListPageRequest)
        ensures
            option_string_view(r.prefix) == (if self@.prefix.len() == 0 {
                None
            } else {
                Some(self@.prefix)
            }),
            r.delimiter@ == FOLDER_DELIMITER@,
            option_string_view(r.continuation_token) == self@.continuation_token,
            r.max_keys == LIST_PAGE_SIZE,
    {
        let prefix = if self.prefix.as_str().unicode_len() == 0 {
            None
        } else {
            Some(self.prefix.clone())
        };
        let continuation_token = match &self.continuation_token {
            Some(t) => Some(t.clone()),
            None => None,
        };
        ListPageRequest {
            prefix,
            delimiter: String::from_str(FOLDER_DELIMITER),
            continuation_token,
            max_keys: LIST_PAGE_SIZE,
        }
    }

    /// Takes in the page S3 answered the last request with. The entries are
    /// appended in order. Without a next token the level is complete; with
    /// the token that was just sent, or when the page cap is reached, the
    /// level is complete but truncated; otherwise the next page is asked for
    /// with the new token.
    pub fn on_page(self, page: ListedPage) -> (r: ListingStep)
        ensures
            ({
                let common_prefixes = self@.common_prefixes + page.common_prefixes@.map_values(
                    |s: String| s@,
                );
                let objects = self@.objects + page.objects@.map_values(|o: ListedObject| o@);
                let pages_read = self@.pages_read + 1;
                match page.next_continuation_token {
                    None => r matches ListingStep::Done(level) && level@ == (LevelView {
                        common_prefixes,
                        objects,
                        is_truncated: false,
                    }),
                    Some(token) => if self@.continuation_token == Some(token@)
                        || pages_read >= MAX_LIST_PAGES_PER_LEVEL {
                        r matches ListingStep::Done(level) && level@ == (LevelView {
                            common_prefixes,
                            objects,
                            is_truncated: true,
                        })
                    } else {
                        r matches ListingStep::Next(next) && next@ == (ListingView {
                            prefix: self@.prefix,
                            common_prefixes,
                            objects,
                            continuation_token: Some(token@),
                            pages_read,
                        })
                    },
                }
            }),
    {
        proof {
            use_type_invariant(&self);
        }
        let ghost old_view = self@;
        let LevelListing { prefix, mut common_prefixes, mut objects, continuation_token, pages_read } =
            self;
        let ListedPage { common_prefixes: mut page_prefixes, objects: mut page_objects, next_continuation_token } =
            page;
        let ghost pp = page_prefixes@;
        let ghost po = page_objects@;
        let ghost cp0 = common_prefixes@;
        let ghost ob0 = objects@;
        common_prefixes.append(&mut page_prefixes);
        objects.append(&mut page_objects);
        proof {
            assert(common_prefixes@.map_values(|s: String| s@) =~= cp0.map_values(|s: String| s@)
                + pp.map_values(|s: String| s@));
            assert(objects@.map_values(|o: ListedObject| o@) =~= ob0.map_values(
                |o: ListedObject| o@,
            ) + po.map_values(|o: ListedObject| o@));
        }
        let pages_read = pages_read + 1;
        match next_continuation_token {
            None => ListingStep::Done(
                ListedLevel { common_prefixes, objects, is_truncated: false },
            ),
            Some(token) => {
                let repeated = match &continuation_token {
                    Some(sent) => str_eq(sent.as_str(), token.as_str()),
                    None => false,
                };
                if repeated || pages_read >= MAX_LIST_PAGES_PER_LEVEL {
                    ListingStep::Done(ListedLevel { common_prefixes, objects, is_truncated: true })
                } else {
                    ListingStep::Next(
                        LevelListing {
                            prefix,
                            common_prefixes,
                            objects,
                            continuation_token: Some(token),
                            pages_read,
                        },
                    )
                }
            },
        }
    }
}

} // verus!
