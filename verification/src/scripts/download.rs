//! Streaming one object back as an attachment: the headers the response
//! starts with, and what the pump does with each event of the S3 stream.
use vstd::prelude::*;

use crate::scripts::content_disposition::{build_content_disposition, content_disposition};
use crate::scripts::content_type::{resolve_content_type, resolved_content_type};
use crate::text::option_str_view;
use crate::text;
use crate::text::{push_decimal, push_str};

verus! {

/// How many chunks may wait for a slow client. Bounded on purpose: back
/// pressure reaches S3, and a multi-gigabyte object costs a few chunks of
/// memory.
pub const DOWNLOAD_CHUNKS_IN_FLIGHT: usize = 4;

/// The names and values of headers, in order.
pub open spec fn header_views(h: Seq<(String, String)>) -> Seq<(Seq<char>, Seq<char>)> {
    h.map_values(|p: (String, String)| (p.0@, p.1@))
}

/// The headers of a download response, in order: the resolved content type,
/// the attachment disposition named after the key, `nosniff` (the stored
/// type is whatever the uploader chose; a browser must not sniff it into
/// something executable), and the length when S3 gave one.
pub open spec fn download_header_list(
    stored_content_type: Option<Seq<char>>,
    content_length: Option<u64>,
    key: Seq<char>,
) -> Seq<(Seq<char>, Seq<char>)> {
    let base = seq![
        ("Content-Type"@, resolved_content_type(stored_content_type)),
        ("Content-Disposition"@, content_disposition(key)),
        ("X-Content-Type-Options"@, "nosniff"@),
    ];
    match content_length {
        Some(n) => base.push(("Content-Length"@, text::decimal(n as nat))),
        None => base,
    }
}

fn string_of(s: &str) -> (r: String)
    ensures
        r@ == s@,
{
    String::from_str(s)
}

/// The headers a download response starts with.
pub fn download_headers(
    stored_content_type: Option<&str>,
    content_length: Option<u64>,
    key: &str,
) -> (r: Vec<(String, String)>)
    ensures
        header_views(r@) == download_header_list(
            option_str_view(stored_content_type),
            content_length,
            key@,
        ),
{
    let mut r: Vec<(String, String)> = Vec::new();
    r.push((string_of("Content-Type"), string_of(resolve_content_type(stored_content_type))));
    r.push((string_of("Content-Disposition"), build_content_disposition(key)));
    r.push((string_of("X-Content-Type-Options"), string_of("nosniff")));
    match content_length {
        Some(n) => {
            let mut len = String::new();
            push_decimal(&mut len, n);
            assert(len@ =~= text::decimal(n as nat));
            r.push((string_of("Content-Length"), len));
        },
        None => {},
    }
    assert(header_views(r@) =~= download_header_list(
        option_str_view(stored_content_type),
        content_length,
        key@,
    ));
    r
}

/// What happened last: what the S3 stream yielded, or that the client did
/// not take a chunk.
pub enum PumpEvent {
    /// The next chunk of the object.
    Chunk,
    /// The object is complete.
    End,
    /// S3 failed mid-way.
    Failed,
    /// The response could not take a chunk: the client went away.
    ClientGone,
}

/// What the pump does next.
#[derive(PartialEq, Eq, Debug)]
pub enum PumpAction {
    /// Hand the chunk to the response.
    Send,
    /// Stop: the object is complete, or the client went away (quietly:
    /// nobody is waiting any more).
    Stop,
    /// Write the failure to the log, then stop: the response ends short and,
    /// with Content-Length set, the client sees an incomplete download rather
    /// than a corrupted complete one.
    ReportAndStop,
}

/// The pump's answer to an event.
pub open spec fn pump_action_for(event: PumpEvent) -> PumpAction {
    match event {
        PumpEvent::Chunk => PumpAction::Send,
        PumpEvent::End => PumpAction::Stop,
        PumpEvent::Failed => PumpAction::ReportAndStop,
        PumpEvent::ClientGone => PumpAction::Stop,
    }
}

/// What the pump does after `event`.
pub fn next_pump_action(event: PumpEvent) -> (r: PumpAction)
    ensures
        r == pump_action_for(event),
{
    match event {
        PumpEvent::Chunk => PumpAction::Send,
        PumpEvent::End => PumpAction::Stop,
        PumpEvent::Failed => PumpAction::ReportAndStop,
        PumpEvent::ClientGone => PumpAction::Stop,
    }
}

/// The log message for a stream that failed mid-download.
pub open spec fn stream_failure_message(error_text: Seq<char>) -> Seq<char> {
    "S3 stream failed mid-download, the response is truncated: "@ + error_text
}

/// The log message for a stream that failed mid-download with `error_text`.
pub fn stream_failure_text(error_text: &str) -> (r: String)
    ensures
        r@ == stream_failure_message(error_text@),
{
    let mut r = String::new();
    push_str(&mut r, "S3 stream failed mid-download, the response is truncated: ");
    push_str(&mut r, error_text);
    r
}

} // verus!
