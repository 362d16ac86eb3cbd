use multipart::{
    boundary_from_bytes, escapeQuotes, BoundedSink, BufferSink, MultipartError, PartHeader, Sink,
    Writer,
};

fn test_writer() -> Writer {
    Writer::with_boundary(String::from("TESTBOUNDARY")).unwrap()
}

#[test]
fn two_fields_and_close_exact_output() {
    let mut w = test_writer();
    let mut sink = BufferSink::new();
    w.WriteField(&mut sink, "a", "1").unwrap();
    w.WriteField(&mut sink, "b", "2").unwrap();
    w.Close(&mut sink).unwrap();
    let expected = "--TESTBOUNDARY\r\nContent-Disposition: form-data; name=\"a\"\r\n\r\n1\r\n--TESTBOUNDARY\r\nContent-Disposition: form-data; name=\"b\"\r\n\r\n2\r\n--TESTBOUNDARY--\r\n";
    assert_eq!(sink.bytes(), expected.as_bytes());
}

#[test]
fn form_file_header_block() {
    let mut w = test_writer();
    let mut sink = BufferSink::new();
    w.CreateFormFile(&mut sink, "upload", "report.pdf").unwrap();
    let expected = "--TESTBOUNDARY\r\nContent-Disposition: form-data; name=\"upload\"; filename=\"report.pdf\"\r\nContent-Type: application/octet-stream\r\n\r\n";
    assert_eq!(sink.bytes(), expected.as_bytes());
}

#[test]
fn field_name_with_quote_is_escaped() {
    let mut w = test_writer();
    let mut sink = BufferSink::new();
    w.CreateFormField(&mut sink, "na\"me").unwrap();
    let expected = "--TESTBOUNDARY\r\nContent-Disposition: form-data; name=\"na\\\"me\"\r\n\r\n";
    assert_eq!(sink.bytes(), expected.as_bytes());
}

#[test]
fn closed_writer_rejects_every_operation() {
    let mut w = test_writer();
    let mut sink = BufferSink::new();
    w.WriteField(&mut sink, "a", "1").unwrap();
    w.Close(&mut sink).unwrap();
    let flushed = sink.bytes().len();

    let mut h = PartHeader::new();
    h.append_value("X-Key", "v");
    assert_eq!(w.CreatePart(&mut sink, &h), Err(MultipartError::WriterClosed));
    assert_eq!(w.CreateFormField(&mut sink, "b"), Err(MultipartError::WriterClosed));
    assert_eq!(
        w.CreateFormFile(&mut sink, "b", "f.bin"),
        Err(MultipartError::WriterClosed)
    );
    assert_eq!(w.WriteField(&mut sink, "b", "2"), Err(MultipartError::WriterClosed));
    assert_eq!(w.Close(&mut sink), Err(MultipartError::WriterClosed));
    assert_eq!(sink.bytes().len(), flushed);
}

#[test]
fn header_keys_emitted_sorted_with_values_in_order() {
    let mut w = test_writer();
    let mut sink = BufferSink::new();
    let mut h = PartHeader::new();
    h.append_value("Zeta", "3");
    h.append_value("Alpha", "1");
    h.append_value("Zeta", "4");
    h.append_value("Middle", "2");
    w.CreatePart(&mut sink, &h).unwrap();
    let expected = "--TESTBOUNDARY\r\nAlpha: 1\r\nMiddle: 2\r\nZeta: 3\r\nZeta: 4\r\n\r\n";
    assert_eq!(sink.bytes(), expected.as_bytes());
}

#[test]
fn empty_header_part() {
    let mut w = test_writer();
    let mut sink = BufferSink::new();
    let h = PartHeader::new();
    w.CreatePart(&mut sink, &h).unwrap();
    assert_eq!(sink.bytes(), "--TESTBOUNDARY\r\n\r\n".as_bytes());
}

#[test]
fn second_part_gets_leading_line_end() {
    let mut w = test_writer();
    let mut sink = BufferSink::new();
    let h = PartHeader::new();
    w.CreatePart(&mut sink, &h).unwrap();
    w.CreatePart(&mut sink, &h).unwrap();
    assert_eq!(
        sink.bytes(),
        "--TESTBOUNDARY\r\n\r\n\r\n--TESTBOUNDARY\r\n\r\n".as_bytes()
    );
}

#[test]
fn content_type_unquoted_for_plain_boundary() {
    let w = test_writer();
    assert_eq!(
        w.FormDataContentType(),
        String::from("multipart/form-data; boundary=TESTBOUNDARY")
    );
}

#[test]
fn content_type_quoted_for_special_boundary() {
    let w = Writer::with_boundary(String::from("b/d=x")).unwrap();
    assert_eq!(
        w.FormDataContentType(),
        String::from("multipart/form-data; boundary=\"b/d=x\"")
    );
}

#[test]
fn with_boundary_rejects_unusable_tokens() {
    assert!(Writer::with_boundary(String::from("")).is_none());
    assert!(Writer::with_boundary(String::from("has space")).is_none());
    assert!(Writer::with_boundary(String::from("tab\there")).is_none());
    let long = "x".repeat(71);
    assert!(Writer::with_boundary(long).is_none());
    let longest = "x".repeat(70);
    assert!(Writer::with_boundary(longest).is_some());
}

#[test]
fn random_boundary_shape() {
    let w = Writer::new();
    let b = w.Boundary();
    assert_eq!(b.len(), 62);
    assert!(b.ends_with("xx"));
    for c in b[..60].chars() {
        assert!(c.is_ascii_digit() || ('a'..='f').contains(&c));
    }
}

#[test]
fn random_boundaries_differ() {
    let w1 = Writer::new();
    let w2 = Writer::new();
    assert_ne!(w1.Boundary(), w2.Boundary());
}

#[test]
fn boundary_from_bytes_exact() {
    assert_eq!(boundary_from_bytes(&[0x00, 0xff, 0x1a]), String::from("00ff1axx"));
    assert_eq!(boundary_from_bytes(&[]), String::from("xx"));
}

#[test]
fn str_lt_is_strict_lexicographic() {
    assert!(multipart::str_lt("Alpha", "Zeta"));
    assert!(!multipart::str_lt("b", "a"));
    assert!(multipart::str_lt("ab", "abc"));
    assert!(!multipart::str_lt("x", "x"));
    assert!(multipart::str_lt("Content-Disposition", "Content-Type"));
}

#[test]
fn escape_quotes_rewrites_quotes_and_backslashes() {
    assert_eq!(escapeQuotes("na\"me"), String::from("na\\\"me"));
    assert_eq!(escapeQuotes("a\\b"), String::from("a\\\\b"));
    assert_eq!(escapeQuotes("plain"), String::from("plain"));
    assert_eq!(escapeQuotes(""), String::from(""));
}

#[test]
fn escape_quotes_not_idempotent_on_escapable_input() {
    let once = escapeQuotes("x\"y");
    let twice = escapeQuotes(&once);
    assert_ne!(twice, once);
    assert_eq!(once, String::from("x\\\"y"));
    assert_eq!(twice, String::from("x\\\\\\\"y"));

    let fixed = escapeQuotes("no specials");
    assert_eq!(escapeQuotes(&fixed), fixed);
}

#[test]
fn full_sink_fails_and_writer_still_closes() {
    let mut w = test_writer();
    let mut sink = BoundedSink::new(4);
    assert_eq!(
        w.CreateFormField(&mut sink, "a"),
        Err(MultipartError::SinkWriteFailed)
    );
    assert_eq!(sink.bytes().len(), 0);

    let mut w2 = test_writer();
    let mut sink2 = BoundedSink::new(0);
    assert_eq!(w2.Close(&mut sink2), Err(MultipartError::SinkWriteFailed));
    assert_eq!(w2.Close(&mut sink2), Err(MultipartError::WriterClosed));
}

#[test]
fn bounded_sink_accepts_within_capacity() {
    let mut w = test_writer();
    let mut sink = BoundedSink::new(4096);
    w.WriteField(&mut sink, "k", "v").unwrap();
    w.Close(&mut sink).unwrap();
    let expected = "--TESTBOUNDARY\r\nContent-Disposition: form-data; name=\"k\"\r\n\r\nv\r\n--TESTBOUNDARY--\r\n";
    assert_eq!(sink.bytes(), expected.as_bytes());
}

#[test]
fn part_body_written_through_sink() {
    let mut w = test_writer();
    let mut sink = BufferSink::new();
    let mut h = PartHeader::new();
    h.append_value("Content-Type", "text/plain");
    w.CreatePart(&mut sink, &h).unwrap();
    sink.write("hello".as_bytes()).unwrap();
    w.Close(&mut sink).unwrap();
    let expected = "--TESTBOUNDARY\r\nContent-Type: text/plain\r\n\r\nhello\r\n--TESTBOUNDARY--\r\n";
    assert_eq!(sink.bytes(), expected.as_bytes());
}
