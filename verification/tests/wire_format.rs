use multipart_core::Entry;
use multipart_core::Mime;
use multipart_core::Multipart;
use multipart_core::ParseError;

fn inbound(body: &[u8], boundary: &[u8]) -> Multipart {
    Multipart::from_source(body.to_vec(), boundary.to_vec()).unwrap()
}

#[test]
fn minimal_field() {
    let body = b"--B\r\nContent-Disposition: form-data; name=\"a\"\r\n\r\nhello\r\n--B--\r\n";
    let mut m = inbound(body, b"B");
    let e = m.next_entry().unwrap().unwrap();
    assert_eq!(e.name().as_str(), "a");
    assert_eq!(e.body().as_slice(), b"hello");
    assert!(e.file_name().is_none());
    assert!(e.content_type().is_none());
    assert!(m.next_entry().is_none());
}

#[test]
fn file_part() {
    let body = b"--B\r\nContent-Disposition: form-data; name=\"pic\"; filename=\"cats.jpeg\"\r\nContent-Type: image/jpeg\r\n\r\n\x00\x01\x02\r\n--B--\r\n";
    let mut m = inbound(body, b"B");
    let e = m.next_entry().unwrap().unwrap();
    assert_eq!(e.name().as_str(), "pic");
    assert_eq!(e.file_name().unwrap().as_str(), "cats.jpeg");
    assert_eq!(e.content_type().unwrap().text().as_str(), "image/jpeg");
    assert_eq!(e.body().as_slice(), b"\x00\x01\x02");
    assert!(m.next_entry().is_none());
}

#[test]
fn missing_boundary() {
    let r = Multipart::from_source(b"anything".to_vec(), Vec::new());
    assert!(matches!(r, Err(ParseError::BoundaryNotFound)));
}

#[test]
fn boundary_with_line_break_rejected() {
    let r = Multipart::from_source(b"anything".to_vec(), b"B\r\nC".to_vec());
    assert!(matches!(r, Err(ParseError::BoundaryNotFound)));
}

#[test]
fn malformed_part_missing_disposition() {
    let body = b"--B\r\nContent-Type: text/plain\r\n\r\nhello\r\n--B--\r\n";
    let mut m = inbound(body, b"B");
    let r = m.next_entry().unwrap();
    assert!(matches!(r, Err(ParseError::MissingContentDisposition)));
    assert!(m.next_entry().is_none());
    assert!(m.next_entry().is_none());
}

#[test]
fn boundary_substring_left_intact() {
    let body = b"--B\r\nContent-Disposition: form-data; name=\"a\"\r\n\r\nfooBbar\r\n--B--\r\n";
    let mut m = inbound(body, b"B");
    let e = m.next_entry().unwrap().unwrap();
    assert_eq!(e.body().as_slice(), b"fooBbar");
    assert!(m.next_entry().is_none());
}

#[test]
fn dashed_lookalike_inside_body_left_intact() {
    // `--B` occurs inside the body, but not anchored at a line start
    // followed by CRLF, so it is ordinary content.
    let body = b"--B\r\nContent-Disposition: form-data; name=\"a\"\r\n\r\nx --By\r\n--B--\r\n";
    let mut m = inbound(body, b"B");
    let e = m.next_entry().unwrap().unwrap();
    assert_eq!(e.body().as_slice(), b"x --By");
    assert!(m.next_entry().is_none());
}

#[test]
fn two_parts_in_order() {
    let body = b"--B\r\nContent-Disposition: form-data; name=\"first\"\r\n\r\n1\r\n--B\r\nContent-Disposition: form-data; name=\"second\"\r\n\r\n2\r\n--B--\r\n";
    let mut m = inbound(body, b"B");
    let e1 = m.next_entry().unwrap().unwrap();
    assert_eq!(e1.name().as_str(), "first");
    assert_eq!(e1.body().as_slice(), b"1");
    let e2 = m.next_entry().unwrap().unwrap();
    assert_eq!(e2.name().as_str(), "second");
    assert_eq!(e2.body().as_slice(), b"2");
    assert!(m.next_entry().is_none());
}

#[test]
fn empty_body_part() {
    let body = b"--B\r\nContent-Disposition: form-data; name=\"a\"\r\n\r\n\r\n--B--\r\n";
    let mut m = inbound(body, b"B");
    let e = m.next_entry().unwrap().unwrap();
    assert_eq!(e.body().len(), 0);
    assert!(m.next_entry().is_none());
}

#[test]
fn no_terminal_boundary_is_unexpected_eof() {
    let body = b"--B\r\nContent-Disposition: form-data; name=\"a\"\r\n\r\nhello";
    let mut m = inbound(body, b"B");
    let r = m.next_entry().unwrap();
    assert!(matches!(r, Err(ParseError::UnexpectedEof)));
    assert!(m.next_entry().is_none());
}

#[test]
fn no_boundary_at_all_is_unexpected_eof() {
    let mut m = inbound(b"plain text, nothing multipart", b"B");
    let r = m.next_entry().unwrap();
    assert!(matches!(r, Err(ParseError::UnexpectedEof)));
    assert!(m.next_entry().is_none());
}

#[test]
fn immediate_terminal_boundary_yields_nothing() {
    let mut m = inbound(b"--B--\r\n", b"B");
    assert!(m.next_entry().is_none());
    assert!(m.next_entry().is_none());
}

#[test]
fn missing_name_param() {
    let body = b"--B\r\nContent-Disposition: form-data; filename=\"f\"\r\n\r\nx\r\n--B--\r\n";
    let mut m = inbound(body, b"B");
    let r = m.next_entry().unwrap();
    assert!(matches!(r, Err(ParseError::MissingNameParam)));
    assert!(m.next_entry().is_none());
}

#[test]
fn empty_name_param_counts_as_missing() {
    let body = b"--B\r\nContent-Disposition: form-data; name=\"\"\r\n\r\nx\r\n--B--\r\n";
    let mut m = inbound(body, b"B");
    let r = m.next_entry().unwrap();
    assert!(matches!(r, Err(ParseError::MissingNameParam)));
}

#[test]
fn unterminated_quote_is_header_parse_error() {
    let body = b"--B\r\nContent-Disposition: form-data; name=\"a\r\n\r\nx\r\n--B--\r\n";
    let mut m = inbound(body, b"B");
    let r = m.next_entry().unwrap();
    assert!(matches!(r, Err(ParseError::HeaderParseError)));
    assert!(m.next_entry().is_none());
}

#[test]
fn part_without_blank_line_is_header_parse_error() {
    let body = b"--B\r\nContent-Disposition: form-data; name=\"a\"\r\nno blank line\r\n--B--\r\n";
    let mut m = inbound(body, b"B");
    let r = m.next_entry().unwrap();
    assert!(matches!(r, Err(ParseError::HeaderParseError)));
}

#[test]
fn bad_content_type_is_header_parse_error() {
    let body = b"--B\r\nContent-Disposition: form-data; name=\"a\"\r\nContent-Type: noslash\r\n\r\nx\r\n--B--\r\n";
    let mut m = inbound(body, b"B");
    let r = m.next_entry().unwrap();
    assert!(matches!(r, Err(ParseError::HeaderParseError)));
}

#[test]
fn quoted_value_escapes_are_unescaped() {
    let body = b"--B\r\nContent-Disposition: form-data; name=\"a\\\"b\\\\c\"\r\n\r\nx\r\n--B--\r\n";
    let mut m = inbound(body, b"B");
    let e = m.next_entry().unwrap().unwrap();
    assert_eq!(e.name().as_str(), "a\"b\\c");
}

#[test]
fn bare_token_name_accepted() {
    let body = b"--B\r\nContent-Disposition: form-data; name=plain\r\n\r\nx\r\n--B--\r\n";
    let mut m = inbound(body, b"B");
    let e = m.next_entry().unwrap().unwrap();
    assert_eq!(e.name().as_str(), "plain");
}

#[test]
fn header_names_match_case_insensitively() {
    let body = b"--B\r\ncontent-disposition: form-data; NAME=\"a\"\r\nCONTENT-TYPE: text/plain\r\n\r\nx\r\n--B--\r\n";
    let mut m = inbound(body, b"B");
    let e = m.next_entry().unwrap().unwrap();
    assert_eq!(e.name().as_str(), "a");
    assert_eq!(e.content_type().unwrap().text().as_str(), "text/plain");
}

#[test]
fn entry_accessors() {
    let mut e = Entry::new("n".to_string(), b"body".to_vec());
    assert_eq!(e.name().as_str(), "n");
    assert_eq!(e.body().as_slice(), b"body");
    e.set_name("other".to_string());
    assert_eq!(e.name().as_str(), "other");
    e.set_file_name(Some("f.bin".to_string()));
    assert_eq!(e.file_name().unwrap().as_str(), "f.bin");
    e.set_file_name(None);
    assert!(e.file_name().is_none());
    let mime = Mime::new("application/octet-stream".to_string()).unwrap();
    e.set_content_type(Some(mime));
    assert_eq!(e.content_type().unwrap().text().as_str(), "application/octet-stream");
    e.set_content_type(None);
    assert!(e.content_type().is_none());
    let empty = Entry::empty("e".to_string());
    assert_eq!(empty.body().len(), 0);
}

#[test]
fn mime_shape_is_checked() {
    assert!(Mime::new("image/jpeg".to_string()).is_ok());
    assert!(Mime::new("text/plain; charset=utf-8".to_string()).is_ok());
    assert!(Mime::new(String::new()).is_err());
    assert!(Mime::new("noslash".to_string()).is_err());
    assert!(Mime::new(" image/jpeg".to_string()).is_err());
}

#[test]
fn outbound_serialization_exact_bytes() {
    let mut m = Multipart::new();
    m.push(Entry::new("a".to_string(), b"hello".to_vec()));
    let bytes = m.to_bytes(&b"B".to_vec());
    let expected: &[u8] =
        b"--B\r\nContent-Disposition: form-data; name=\"a\"\r\n\r\nhello\r\n--B--\r\n";
    assert_eq!(bytes.as_slice(), expected);
}

#[test]
fn outbound_container_produces_no_entries() {
    let mut m = Multipart::new();
    m.push(Entry::new("a".to_string(), b"x".to_vec()));
    assert!(m.next_entry().is_none());
}

#[test]
fn round_trip_preserves_everything() {
    let mut m = Multipart::new();
    m.push(Entry::new("plain \"quoted\" na\\me".to_string(), b"body one".to_vec()));
    let mut file = Entry::new("upload".to_string(), vec![0u8, 155, 255, 13]);
    file.set_file_name(Some("c\"ats.jpeg".to_string()));
    file.set_content_type(Some(Mime::new("image/jpeg; q=1".to_string()).unwrap()));
    m.push(file);
    m.push(Entry::new("empty".to_string(), Vec::new()));
    let bytes = m.to_bytes(&b"xYzBoundary42".to_vec());

    let mut back = Multipart::from_source(bytes, b"xYzBoundary42".to_vec()).unwrap();
    let e1 = back.next_entry().unwrap().unwrap();
    assert_eq!(e1.name().as_str(), "plain \"quoted\" na\\me");
    assert_eq!(e1.body().as_slice(), b"body one");
    assert!(e1.file_name().is_none());
    assert!(e1.content_type().is_none());
    let e2 = back.next_entry().unwrap().unwrap();
    assert_eq!(e2.name().as_str(), "upload");
    assert_eq!(e2.file_name().unwrap().as_str(), "c\"ats.jpeg");
    assert_eq!(e2.content_type().unwrap().text().as_str(), "image/jpeg; q=1");
    assert_eq!(e2.body().as_slice(), &[0u8, 155, 255, 13]);
    let e3 = back.next_entry().unwrap().unwrap();
    assert_eq!(e3.name().as_str(), "empty");
    assert_eq!(e3.body().len(), 0);
    assert!(back.next_entry().is_none());
}

#[test]
fn utf8_names_survive_a_round_trip() {
    let mut m = Multipart::new();
    m.push(Entry::new("naïve—名前".to_string(), b"v".to_vec()));
    let bytes = m.to_bytes(&b"B".to_vec());
    let mut back = Multipart::from_source(bytes, b"B".to_vec()).unwrap();
    let e = back.next_entry().unwrap().unwrap();
    assert_eq!(e.name().as_str(), "naïve—名前");
}

#[test]
fn entries_already_yielded_stay_valid_after_later_failure() {
    let body = b"--B\r\nContent-Disposition: form-data; name=\"ok\"\r\n\r\ngood\r\n--B\r\nContent-Type: text/plain\r\n\r\nbad\r\n--B--\r\n";
    let mut m = inbound(body, b"B");
    let e1 = m.next_entry().unwrap().unwrap();
    assert_eq!(e1.name().as_str(), "ok");
    let r = m.next_entry().unwrap();
    assert!(matches!(r, Err(ParseError::MissingContentDisposition)));
    assert!(m.next_entry().is_none());
    assert_eq!(e1.body().as_slice(), b"good");
}
