use s3_viewer::scripts::content_disposition::{
    build_content_disposition, get_download_file_name, is_rfc5987_attr_char,
    percent_encode_rfc5987, to_ascii_fallback,
};

fn assert_is_valid_header_value(value: &str) {
    assert!(!value.contains('\r'));
    assert!(!value.contains('\n'));
    assert!(
        value.bytes().all(|b| b == b'\t' || (0x20..=0x7E).contains(&b)),
        "not a valid header value: {value:?}"
    );
}

#[test]
fn plain_ascii_name_from_a_nested_key() {
    let value = build_content_disposition("a/b/report.pdf");

    assert_eq!(
        value,
        "attachment; filename=\"report.pdf\"; filename*=UTF-8''report.pdf"
    );
    assert_is_valid_header_value(&value);
}

#[test]
fn spaces_are_kept_in_fallback_and_encoded_in_filename_star() {
    let value = build_content_disposition("docs/my file (1).txt");

    assert_eq!(
        value,
        "attachment; filename=\"my file (1).txt\"; filename*=UTF-8''my%20file%20%281%29.txt"
    );
    assert_is_valid_header_value(&value);
}

#[test]
fn unicode_name() {
    let value = build_content_disposition("фото/лето.jpg");

    assert_eq!(
        value,
        "attachment; filename=\"____.jpg\"; filename*=UTF-8''%D0%BB%D0%B5%D1%82%D0%BE.jpg"
    );
    assert_is_valid_header_value(&value);
}

#[test]
fn quotes_backslashes_and_line_breaks_can_not_inject() {
    let value = build_content_disposition("x/a\"b\\c\r\nSet-Cookie: x=1;.txt");

    assert_eq!(
        value,
        "attachment; filename=\"abcSet-Cookie: x=1;.txt\"; filename*=UTF-8''a%22b%5Cc%0D%0ASet-Cookie%3A%20x%3D1%3B.txt"
    );
    assert_is_valid_header_value(&value);
}

#[test]
fn percent_is_not_left_for_the_fallback_to_be_decoded() {
    let value = build_content_disposition("x/100%41.txt");

    assert_eq!(
        value,
        "attachment; filename=\"100_41.txt\"; filename*=UTF-8''100%2541.txt"
    );
    assert_is_valid_header_value(&value);
}

#[test]
fn keys_without_a_usable_name_fall_back() {
    assert_eq!(
        build_content_disposition(""),
        "attachment; filename=\"download\"; filename*=UTF-8''download"
    );
    assert_eq!(
        build_content_disposition("a/b/"),
        "attachment; filename=\"b\"; filename*=UTF-8''b"
    );
    assert_eq!(
        build_content_disposition("\r\n"),
        "attachment; filename=\"download\"; filename*=UTF-8''%0D%0A"
    );
}

#[test]
fn download_file_name_is_the_last_non_empty_segment() {
    assert_eq!(get_download_file_name("a/b/report.pdf"), "report.pdf");
    assert_eq!(get_download_file_name("report.pdf"), "report.pdf");
    assert_eq!(get_download_file_name("a/b//"), "b");
    assert_eq!(get_download_file_name("///"), "download");
    assert_eq!(get_download_file_name(""), "download");
}

#[test]
fn fallback_drops_controls_and_replaces_non_ascii() {
    assert_eq!(to_ascii_fallback("a\u{7f}b\u{85}c"), "abc");
    assert_eq!(to_ascii_fallback("ä%"), "__");
    assert_eq!(to_ascii_fallback(" \t "), "download");
    assert_eq!(to_ascii_fallback("\"\\"), "download");
}

#[test]
fn attr_chars_are_exactly_rfc5987() {
    for byte in b"!#$&+-.^_`|~09AZaz" {
        assert!(is_rfc5987_attr_char(*byte), "{byte} is an attr-char");
    }
    for byte in b" \"%'()*,/:;<=>?@[\\]{}" {
        assert!(!is_rfc5987_attr_char(*byte), "{byte} is not an attr-char");
    }
    assert!(!is_rfc5987_attr_char(0x7F));
    assert!(!is_rfc5987_attr_char(0xD0));
}

#[test]
fn percent_encoding_uses_upper_case_hex_per_byte() {
    assert_eq!(percent_encode_rfc5987("a b"), "a%20b");
    assert_eq!(percent_encode_rfc5987("ä"), "%C3%A4");
    assert_eq!(percent_encode_rfc5987("\u{1F600}"), "%F0%9F%98%80");
    assert_eq!(percent_encode_rfc5987(""), "");
}

#[test]
fn every_header_built_from_awkward_keys_is_header_safe() {
    for key in ["", "/", "\u{0}", "a\"b", "a\\b", "%%%", "x/\r\n\t", "ж/ё", "a/\u{7f}\u{9f}"] {
        let value = build_content_disposition(key);
        assert!(value.bytes().all(|b| (0x20..=0x7E).contains(&b)), "{value:?}");
    }
}

fn percent_decode(s: &str) -> Vec<u8> {
    let b = s.as_bytes();
    let mut out = Vec::new();
    let mut i = 0;
    while i < b.len() {
        if b[i] == b'%' && i + 2 < b.len() {
            let hex = std::str::from_utf8(&b[i + 1..i + 3]).unwrap();
            out.push(u8::from_str_radix(hex, 16).unwrap());
            i += 3;
        } else {
            out.push(b[i]);
            i += 1;
        }
    }
    out
}

#[test]
fn percent_decoding_gives_back_the_utf8_bytes() {
    for value in ["", "a b", "фото лето.jpg", "100%41", "x\r\n\"\\;=", "\u{1F600}~|`^"] {
        assert_eq!(percent_decode(&percent_encode_rfc5987(value)), value.as_bytes());
    }
}
