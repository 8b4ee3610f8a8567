use s3_viewer::scripts::download::{
    download_headers, next_pump_action, stream_failure_text, PumpAction, PumpEvent,
    DOWNLOAD_CHUNKS_IN_FLIGHT,
};

#[test]
fn download_headers_in_order() {
    let headers = download_headers(Some(" image/png "), Some(1234), "a/b/pic.png");
    let pairs: Vec<(&str, &str)> = headers.iter().map(|(k, v)| (k.as_str(), v.as_str())).collect();
    assert_eq!(
        pairs,
        vec![
            ("Content-Type", "image/png"),
            (
                "Content-Disposition",
                "attachment; filename=\"pic.png\"; filename*=UTF-8''pic.png"
            ),
            ("X-Content-Type-Options", "nosniff"),
            ("Content-Length", "1234"),
        ]
    );
}

#[test]
fn unknown_length_and_type() {
    let headers = download_headers(None, None, "k");
    assert_eq!(headers.len(), 3);
    assert_eq!(headers[0].1, "application/octet-stream");
    let headers = download_headers(Some("x\ny"), Some(0), "k");
    assert_eq!(headers[0].1, "application/octet-stream");
    assert_eq!(headers[3].1, "0");
    let headers = download_headers(None, Some(u64::MAX), "k");
    assert_eq!(headers[3].1, "18446744073709551615");
}

#[test]
fn the_pump_sends_chunks_and_stops_at_the_end() {
    assert_eq!(next_pump_action(PumpEvent::Chunk), PumpAction::Send);
    assert_eq!(next_pump_action(PumpEvent::End), PumpAction::Stop);
    assert_eq!(next_pump_action(PumpEvent::ClientGone), PumpAction::Stop);
    assert_eq!(next_pump_action(PumpEvent::Failed), PumpAction::ReportAndStop);
    assert_eq!(DOWNLOAD_CHUNKS_IN_FLIGHT, 4);
}

#[test]
fn a_broken_stream_is_logged_with_its_reason() {
    assert_eq!(
        stream_failure_text("timeout"),
        "S3 stream failed mid-download, the response is truncated: timeout"
    );
}
