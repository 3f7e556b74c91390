use netscope::outside::{CertificateParts, HeaderLine, RequestParts, ResponseParts};
use netscope::parsers::certificate::{parse_certificate, summarize};
use netscope::parsers::dns::{name_text, parse_dns, read_labels, DnsError};
use netscope::parsers::http1::{
    choose_head, content_length, header_end, is_chunked, parse_head, Head,
};
use netscope::parsers::tls::{parse_client_hello, parse_server_certificate, tls_version, TlsError};
use netscope::textmap::{Headers, TextMap};

fn headers(pairs: &[(&str, &str)]) -> Headers {
    TextMap::from_pairs(
        pairs.iter().map(|(k, v)| (k.to_string(), v.to_string())).collect(),
    )
}

#[test]
fn parses_a_question() {
    let message = [
        0, 1, 1, 0, 0, 1, 0, 0, 0, 0, 0, 0, 7, b'e', b'x', b'a', b'm', b'p', b'l', b'e', 3, b'c',
        b'o', b'm', 0, 0, 1, 0, 1,
    ];
    let summary = parse_dns(&message).unwrap();
    assert_eq!(summary.query.as_deref(), Some("example.com"));
    assert_eq!(summary.record_type, Some(1));
    assert!(!summary.is_response);
}

#[test]
fn parses_compressed_a_and_cname_answers() {
    let mut message = vec![0, 1, 0x81, 0x80, 0, 1, 0, 2, 0, 0, 0, 0];
    message.extend_from_slice(&[
        3, b'w', b'w', b'w', 7, b'e', b'x', b'a', b'm', b'p', b'l', b'e', 3, b'c', b'o', b'm', 0,
        0, 1, 0, 1,
    ]);
    message.extend_from_slice(&[
        0xc0, 0x0c, 0, 5, 0, 1, 0, 0, 0, 60, 0, 8, 5, b'a', b'l', b'i', b'a', b's', 0xc0, 0x10,
    ]);
    message.extend_from_slice(&[
        5, b'a', b'l', b'i', b'a', b's', 0xc0, 0x10, 0, 1, 0, 1, 0, 0, 0, 60, 0, 4, 192, 0, 2, 10,
    ]);
    let summary = parse_dns(&message).unwrap();
    assert_eq!(summary.answers.len(), 2);
    assert_eq!(summary.answers[1].value, "192.0.2.10");
    assert_eq!(
        summary.cname_chain,
        vec!["www.example.com", "alias.example.com"]
    );
}

#[test]
fn answers_of_other_types_are_addresses_or_hexadecimal() {
    let mut message = vec![0, 9, 0x84, 0x03, 0, 0, 0, 3, 0, 0, 0, 0];
    message.extend_from_slice(&[0, 0, 28, 0, 1, 0, 0, 0, 1, 0, 16]);
    message.extend_from_slice(&[0x20, 1, 0x0d, 0xb8, 0, 0, 0, 0, 0, 0, 0, 0, 0, 0, 0, 9]);
    message.extend_from_slice(&[0, 0, 16, 0, 1, 0, 0, 0, 1, 0, 3, 2, 0xab, 0xff]);
    message.extend_from_slice(&[1, 0xff, 0, 0, 1, 0, 1, 0, 0, 0, 1, 0, 2, 1, 2]);
    let summary = parse_dns(&message).unwrap();
    assert_eq!(summary.query, None);
    assert_eq!(summary.response_code, 3);
    assert!(summary.is_response);
    assert_eq!(summary.answers[0].value, "2001:db8::9");
    assert_eq!(summary.answers[0].name, "");
    assert_eq!(summary.answers[1].value, "0x02abff");
    assert_eq!(summary.answers[2].value, "0x0102");
    assert_eq!(summary.answers[2].name, "\u{fffd}");
    assert!(summary.cname_chain.is_empty());
}

#[test]
fn every_dns_error_has_a_message() {
    let head = |questions: u8, answers: u8| vec![0, 1, 1, 0, 0, questions, 0, answers, 0, 0, 0, 0];
    let with = |questions: u8, answers: u8, rest: &[u8]| {
        let mut m = head(questions, answers);
        m.extend_from_slice(rest);
        parse_dns(&m).unwrap_err()
    };
    assert_eq!(parse_dns(&[0; 11]).unwrap_err(), DnsError::ShortMessage);
    assert_eq!(with(1, 0, &[]), DnsError::TruncatedName);
    assert_eq!(with(1, 0, &[0, 0, 1, 0]), DnsError::TruncatedQuestion);
    assert_eq!(with(1, 0, &[0xc0]), DnsError::TruncatedPointer);
    assert_eq!(with(1, 0, &[0xc0, 200]), DnsError::InvalidPointer);
    assert_eq!(with(1, 0, &[0xc0, 12]), DnsError::InvalidPointer);
    assert_eq!(with(1, 0, &[0x40, 0]), DnsError::InvalidLabel);
    assert_eq!(with(1, 0, &[5, b'a']), DnsError::TruncatedLabel);
    assert_eq!(with(0, 1, &[0, 0, 1]), DnsError::TruncatedAnswer);
    assert_eq!(with(0, 1, &[0, 0, 1, 0, 1, 0, 0, 0, 1, 0, 4, 1]), DnsError::TruncatedRdata);
    assert_eq!(DnsError::InvalidPointer.message(), "invalid DNS compression pointer");
}

#[test]
fn names_end_behind_their_first_pointer() {
    let bytes = [1, b'a', 0, 2, b'b', b'c', 0xc0, 0, 9];
    let (labels, next) = read_labels(&bytes, 3).unwrap();
    assert_eq!(labels, vec![b"bc".to_vec(), b"a".to_vec()]);
    assert_eq!(next, 8);
    assert_eq!(name_text(&labels), "bc.a");
}

#[test]
fn sixteen_pointers_are_followed_and_no_more() {
    let mut bytes = vec![0, 0];
    for n in 0..17_u8 {
        bytes.extend_from_slice(&[0xc0, 2 * n]);
    }
    assert!(read_labels(&bytes, 32).is_ok());
    assert_eq!(read_labels(&bytes, 34).unwrap_err(), DnsError::InvalidPointer);
}

#[test]
fn extracts_sni_and_alpn() {
    let mut body = vec![3, 3];
    body.extend_from_slice(&[0; 32]);
    body.push(0);
    body.extend_from_slice(&[0, 2, 0x13, 1, 1, 0]);
    let name = b"example.com";
    let mut extensions = vec![0, 0, 0, 16, 0, 14, 0, 0, name.len() as u8];
    extensions.extend_from_slice(name);
    extensions.extend_from_slice(&[0, 16, 0, 5, 0, 3, 2, b'h', b'2']);
    body.extend_from_slice(&(extensions.len() as u16).to_be_bytes());
    body.extend_from_slice(&extensions);
    let mut record = vec![22, 3, 1];
    let length = body.len() + 4;
    record.extend_from_slice(&(length as u16).to_be_bytes());
    record.push(1);
    record.extend_from_slice(&[
        (body.len() >> 16) as u8,
        (body.len() >> 8) as u8,
        body.len() as u8,
    ]);
    record.extend_from_slice(&body);
    let hello = parse_client_hello(&record).unwrap();
    assert_eq!(hello.sni.as_deref(), Some("example.com"));
    assert_eq!(hello.alpn, vec!["h2"]);
    assert_eq!(hello.tls_version, "TLS 1.2");
    assert_eq!(hello.cipher_suites, vec!["0x1301"]);
}

#[test]
fn extracts_an_unencrypted_tls_12_leaf_certificate() {
    let body = [0, 0, 6, 0, 0, 3, 1, 2, 3];
    let mut record = vec![22, 3, 3, 0, 13, 11, 0, 0, 9];
    record.extend_from_slice(&body);
    assert_eq!(parse_server_certificate(&record).unwrap(), vec![1, 2, 3]);
}

fn hello_with(extensions: &[u8]) -> Vec<u8> {
    let mut body = vec![3, 1];
    body.extend_from_slice(&[0; 32]);
    body.extend_from_slice(&[1, 9, 0, 2, 0x00, 0x2f, 1, 0]);
    body.extend_from_slice(&(extensions.len() as u16).to_be_bytes());
    body.extend_from_slice(extensions);
    let mut record = vec![22, 3, 1, 0, 0, 1, 0, 0, body.len() as u8];
    record.extend_from_slice(&body);
    record
}

#[test]
fn the_last_usable_extension_counts() {
    let hello = parse_client_hello(&hello_with(&[
        0, 43, 0, 3, 2, 3, 4, 0, 43, 0, 1, 9, 0, 0, 0, 6, 0, 4, 0, 0, 1, b'a', 0, 0, 0, 2, 0, 0,
        0, 16, 0, 4, 0, 9, 1, b'x', 0, 16, 0, 5, 0, 2, 5, b'y', b'z',
    ]))
    .unwrap();
    assert_eq!(hello.tls_version, "TLS 1.3");
    assert_eq!(hello.sni.as_deref(), Some("a"));
    assert_eq!(hello.alpn, vec!["x"]);
    let plain = parse_client_hello(&hello_with(&[1, 2, 3])).unwrap();
    assert_eq!(plain.tls_version, "TLS 1.0");
    assert_eq!(plain.sni, None);
}

#[test]
fn every_client_hello_error_has_a_record() {
    let good = hello_with(&[]);
    let fail = |bytes: &[u8]| parse_client_hello(bytes).unwrap_err();
    assert_eq!(fail(&good[..8]), TlsError::NotClientHello);
    assert_eq!(fail(&good[..20]), TlsError::TruncatedClientHello);
    assert_eq!(fail(&[22, 3, 1, 0, 0, 1, 0, 0, 0]), TlsError::Truncated);
    assert_eq!(fail(&[&[22, 3, 1, 0, 0, 1, 0, 0, 0][..], &[0; 34]].concat()), TlsError::TruncatedHello);
    let mut odd = good.clone();
    odd[46] = 3;
    assert_eq!(fail(&odd), TlsError::TruncatedCipherSuites);
    let mut no_compression = good[..49].to_vec();
    no_compression[8] = 40;
    assert_eq!(fail(&no_compression), TlsError::TruncatedCompression);
    let mut no_extensions = good.clone();
    no_extensions[52] = 9;
    assert_eq!(fail(&no_extensions), TlsError::TruncatedExtensions);
    assert_eq!(fail(&hello_with(&[0, 0, 0, 1])), TlsError::BadExtensionLength);
    assert_eq!(TlsError::BadExtensionLength.message(), "bad extension length");
}

#[test]
fn every_certificate_error_has_a_record() {
    let fail = |bytes: &[u8]| parse_server_certificate(bytes).unwrap_err();
    assert_eq!(fail(&[]), TlsError::NoCertificateHandshake);
    assert_eq!(fail(&[23, 3, 3, 0, 0]), TlsError::NoCertificateHandshake);
    assert_eq!(fail(&[22, 3, 3, 0, 9, 11]), TlsError::TruncatedRecord);
    assert_eq!(
        fail(&[22, 3, 3, 0, 7, 11, 0, 0, 9, 0, 0, 0]),
        TlsError::TruncatedCertificateHandshake
    );
    assert_eq!(
        fail(&[22, 3, 3, 0, 7, 11, 0, 0, 3, 0, 0, 2]),
        TlsError::TruncatedCertificateList
    );
    assert_eq!(
        fail(&[22, 3, 3, 0, 10, 11, 0, 0, 6, 0, 0, 3, 0, 0, 0]),
        TlsError::TruncatedLeafCertificate
    );
}

#[test]
fn unknown_versions_are_written_in_hexadecimal() {
    assert_eq!(tls_version(0x0302), "TLS 1.1");
    assert_eq!(tls_version(0x0a1b), "0x0a1b");
}

#[test]
fn parses_request_headers_case_insensitively() {
    let parsed = parse_head(b"GET /ok HTTP/1.1\r\nHost: example.test\r\nX-A: b\r\n\r\n").unwrap();
    let Head::Request(request) = parsed else {
        panic!("expected request")
    };
    assert_eq!(request.method, "GET");
    assert_eq!(request.headers.get("host").unwrap(), "example.test");
}

#[test]
fn parses_responses_as_responses() {
    let parsed =
        parse_head(b"HTTP/1.0 404 Not Found\r\nX-A: one\r\nx-a:  two \r\n\r\n").unwrap();
    let Head::Response(response) = parsed else {
        panic!("expected response")
    };
    assert_eq!(response.status, 404);
    assert_eq!(response.reason, "Not Found");
    assert_eq!(response.version, "HTTP/1.0");
    assert_eq!(response.headers.get("x-a").unwrap(), "two");
    assert_eq!(response.headers.len(), 1);
}

#[test]
fn heads_that_are_neither_are_refused() {
    assert_eq!(parse_head(b"G/T / HTTP/1.1\r\n\r\n").unwrap_err(), "invalid token");
    assert_eq!(
        parse_head(b"GET / HTTP/1.1\r\nHost: a\r\n").unwrap_err(),
        "invalid HTTP version"
    );
}

fn line(name: &str, value: &[u8]) -> HeaderLine {
    HeaderLine {
        name: name.to_string(),
        value: value.to_vec(),
    }
}

#[test]
fn a_complete_request_counts_first() {
    let request = RequestParts {
        method: Some("PUT".into()),
        path: None,
        version: None,
        headers: vec![line("A", b" x "), line("a", b"\xff")],
    };
    let response = ResponseParts {
        code: Some(200),
        reason: None,
        version: Some(0),
        headers: vec![],
    };
    match choose_head(Ok(Some(request)), Ok(Some(response))).unwrap() {
        Head::Request(head) => {
            assert_eq!(head.method, "PUT");
            assert_eq!(head.target, "");
            assert_eq!(head.version, "HTTP/1.1");
            assert_eq!(head.headers.get("a").unwrap(), "\u{fffd}");
        }
        Head::Response(_) => panic!("expected a request"),
    }
}

#[test]
fn the_error_of_the_request_parser_is_reported() {
    let nameless = RequestParts {
        method: None,
        path: None,
        version: None,
        headers: vec![],
    };
    let codeless = || ResponseParts {
        code: None,
        reason: None,
        version: None,
        headers: vec![],
    };
    assert_eq!(
        choose_head(Ok(Some(nameless)), Ok(Some(codeless()))).unwrap_err(),
        "response has no status"
    );
    assert_eq!(
        choose_head(Ok(None), Ok(None)).unwrap_err(),
        "incomplete or invalid HTTP/1 header"
    );
    assert_eq!(choose_head(Ok(None), Err("b".into())).unwrap_err(), "b");
    assert_eq!(choose_head(Err("a".into()), Err("b".into())).unwrap_err(), "a");
    assert_eq!(choose_head(Err("a".into()), Ok(Some(codeless()))).unwrap_err(), "a");
}

#[test]
fn a_head_ends_behind_its_first_empty_line() {
    assert_eq!(header_end(b"a\r\n\r\nb\r\n\r\n"), Some(5));
    assert_eq!(header_end(b"a\r\n\r"), None);
    assert_eq!(header_end(b"\r\n\r\n"), Some(4));
}

#[test]
fn framing_headers_are_read() {
    assert_eq!(content_length(&headers(&[("content-length", "12")])), Some(12));
    assert_eq!(content_length(&headers(&[("content-length", "+7")])), Some(7));
    assert_eq!(content_length(&headers(&[("content-length", "1 2")])), None);
    assert_eq!(content_length(&headers(&[("content-length", "")])), None);
    assert_eq!(
        content_length(&headers(&[("content-length", "99999999999999999999999")])),
        None
    );
    assert!(is_chunked(&headers(&[("transfer-encoding", "gzip, Chunked ")])));
    assert!(!is_chunked(&headers(&[("transfer-encoding", "chunkedx")])));
    assert!(!is_chunked(&headers(&[])));
}

#[test]
fn certificates_must_be_whole_and_alone() {
    let parts = |remaining: &[u8]| CertificateParts {
        remaining: remaining.to_vec(),
        subject: "CN=s".into(),
        issuer: "CN=i".into(),
        serial: "01:02".into(),
        not_after: "later".into(),
    };
    let summary = summarize(Ok(parts(&[]))).unwrap();
    assert_eq!(summary.subject, "CN=s");
    assert_eq!(summary.issuer, "CN=i");
    assert_eq!(summary.serial, "01:02");
    assert_eq!(summary.not_after, "later");
    assert_eq!(
        summarize(Ok(parts(&[0]))).unwrap_err(),
        "trailing data after X.509 certificate"
    );
    assert_eq!(
        summarize(Err("broken".into())).unwrap_err(),
        "invalid X.509 certificate: broken"
    );
    assert!(parse_certificate(&[1, 2, 3]).unwrap_err().starts_with("invalid X.509 certificate: "));
}

#[test]
fn bytes_behind_a_hello_are_ignored_and_a_cut_one_is_refused() {
    let hello = hello_with(&[0, 0, 0, 6, 0, 4, 0, 0, 1, b'a']);
    let read = parse_client_hello(&hello).unwrap();
    let mut longer = hello.clone();
    longer.extend_from_slice(&[22, 3, 1, 0xff, 0xff]);
    assert_eq!(parse_client_hello(&longer).unwrap(), read);
    for length in 0..hello.len() {
        assert!(parse_client_hello(&hello[..length]).is_err());
    }
}

#[test]
fn records_around_the_certificate_are_ignored() {
    let certificate = [22, 3, 3, 0, 13, 11, 0, 0, 9, 0, 0, 6, 0, 0, 3, 1, 2, 3];
    let mut stream = vec![22, 3, 3, 0, 2, 2, 0, 20, 3, 3, 0, 1, 1];
    stream.extend_from_slice(&certificate);
    stream.extend_from_slice(&[23, 3, 3]);
    assert_eq!(parse_server_certificate(&stream), parse_server_certificate(&certificate));
    assert_eq!(parse_server_certificate(&stream).unwrap(), vec![1, 2, 3]);
}
