//! The request-level logic: names, sorting, listing, headers.
pub mod names;
pub mod name_sort;
pub mod list_response;
pub mod content_disposition;
pub mod content_type;
pub mod prefix;
pub mod listing;
pub mod download;
