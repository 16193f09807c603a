use bastion::server::{
    app_notice, block_page_response, datagram_notice, handle_request, host_header_in_text,
    listener_endpoints, parse_host_header, parse_sni, sni_name_range, socket_address, TargetType,
    Transport, DEFAULT_WARNING, QUIC_TARGET,
};

/// A ClientHello record with the given session id and extensions.
fn client_hello(session_id: &[u8], extensions: &[u8]) -> Vec<u8> {
    let mut body: Vec<u8> = Vec::new();
    body.extend_from_slice(&[0x03, 0x03]);
    body.extend_from_slice(&[0xAB; 32]);
    body.push(session_id.len() as u8);
    body.extend_from_slice(session_id);
    body.extend_from_slice(&[0x00, 0x02, 0x13, 0x01]);
    body.extend_from_slice(&[0x01, 0x00]);
    body.extend_from_slice(&[(extensions.len() >> 8) as u8, extensions.len() as u8]);
    body.extend_from_slice(extensions);
    let mut record: Vec<u8> = vec![0x16, 0x03, 0x01];
    let handshake_len = body.len() + 4;
    record.extend_from_slice(&[(handshake_len >> 8) as u8, handshake_len as u8]);
    record.push(0x01);
    record.extend_from_slice(&[0x00, (body.len() >> 8) as u8, body.len() as u8]);
    record.extend_from_slice(&body);
    record
}

fn sni_extension(name: &[u8]) -> Vec<u8> {
    let mut ext: Vec<u8> = vec![0x00, 0x00];
    let list_len = name.len() + 3;
    let ext_len = list_len + 2;
    ext.extend_from_slice(&[(ext_len >> 8) as u8, ext_len as u8]);
    ext.extend_from_slice(&[(list_len >> 8) as u8, list_len as u8]);
    ext.push(0x00);
    ext.extend_from_slice(&[(name.len() >> 8) as u8, name.len() as u8]);
    ext.extend_from_slice(name);
    ext
}

#[test]
fn sni_of_a_minimal_client_hello() {
    let hello = client_hello(&[], &sni_extension(b"example.com"));
    assert_eq!(parse_sni(&hello), Some("example.com".to_string()));
}

#[test]
fn sni_position_in_a_minimal_client_hello() {
    let hello = client_hello(&[], &sni_extension(b"example.com"));
    assert_eq!(sni_name_range(&hello), Some((61, 72)));
    assert_eq!(hello.len(), 72);
}

#[test]
fn sni_behind_a_session_id_and_other_extensions() {
    let mut extensions: Vec<u8> = vec![0x00, 0x0b, 0x00, 0x02, 0x01, 0x00];
    extensions.extend_from_slice(&[0x00, 0x17, 0x00, 0x00]);
    extensions.extend_from_slice(&sni_extension(b"blocked.example.org"));
    extensions.extend_from_slice(&[0x00, 0x23, 0x00, 0x00]);
    let hello = client_hello(&[7u8; 32], &extensions);
    assert_eq!(parse_sni(&hello), Some("blocked.example.org".to_string()));
}

#[test]
fn sni_of_a_truncated_buffer_is_none() {
    let hello = client_hello(&[], &sni_extension(b"example.com"));
    assert_eq!(parse_sni(&hello[..42]), None);
    assert_eq!(parse_sni(&hello[..43]), None);
    assert_eq!(parse_sni(&[]), None);
    for cut in 0..hello.len() {
        assert_eq!(parse_sni(&hello[..cut]), None);
    }
}

#[test]
fn sni_of_other_records_is_none() {
    let mut hello = client_hello(&[], &sni_extension(b"example.com"));
    hello[0] = 0x17;
    assert_eq!(parse_sni(&hello), None);
    let mut hello = client_hello(&[], &sni_extension(b"example.com"));
    hello[5] = 0x02;
    assert_eq!(parse_sni(&hello), None);
    assert_eq!(parse_sni(&[0u8; 100]), None);
    assert_eq!(parse_sni(&[0xFFu8; 100]), None);
}

#[test]
fn sni_without_server_name_extension_is_none() {
    let hello = client_hello(&[], &[0x00, 0x17, 0x00, 0x00]);
    assert_eq!(parse_sni(&hello), None);
    assert_eq!(parse_sni(&client_hello(&[], &[])), None);
}

#[test]
fn sni_entry_of_another_type_is_none() {
    let mut extension = sni_extension(b"example.com");
    extension[6] = 0x01;
    assert_eq!(parse_sni(&client_hello(&[], &extension)), None);
}

#[test]
fn sni_with_invalid_utf8_is_decoded_lossily() {
    let hello = client_hello(&[], &sni_extension(&[b'a', 0xFF, b'b']));
    assert_eq!(parse_sni(&hello), Some("a\u{FFFD}b".to_string()));
}

#[test]
fn host_header_of_a_request() {
    let request = b"GET / HTTP/1.1\r\nHost: example.com\r\n\r\n";
    assert_eq!(parse_host_header(request), Some("example.com".to_string()));
}

#[test]
fn host_header_missing() {
    assert_eq!(parse_host_header(b"GET / HTTP/1.1\r\nAccept: */*\r\n\r\n"), None);
    assert_eq!(parse_host_header(b""), None);
    assert_eq!(parse_host_header(b"Hos"), None);
    assert_eq!(parse_host_header(b"X-Host: a.com\r\n"), None);
}

#[test]
fn host_header_in_any_case_and_trimmed() {
    assert_eq!(host_header_in_text("HOST:   a.com  \r\n"), Some("a.com".to_string()));
    assert_eq!(host_header_in_text("hOsT:a.com"), Some("a.com".to_string()));
    assert_eq!(host_header_in_text("GET /\nhost:\t b.org:8080\n"), Some("b.org:8080".to_string()));
    assert_eq!(host_header_in_text("Host:\r\n"), Some("".to_string()));
    assert_eq!(host_header_in_text("Host: "), Some("".to_string()));
}

#[test]
fn host_header_first_of_several() {
    assert_eq!(
        host_header_in_text("Host: first.com\r\nHost: second.com\r\n"),
        Some("first.com".to_string())
    );
    assert_eq!(host_header_in_text("\n\nHost: x.com"), Some("x.com".to_string()));
    assert_eq!(host_header_in_text(" Host: x.com"), None);
}

#[test]
fn host_header_of_valid_utf8_is_decoded_as_it_stands() {
    let request = "GET / HTTP/1.1\r\nHost: b\u{fc}cher.example\r\n\r\n";
    assert_eq!(parse_host_header(request.as_bytes()), host_header_in_text(request));
    assert_eq!(parse_host_header(request.as_bytes()), Some("b\u{fc}cher.example".to_string()));
}

#[test]
fn host_header_of_invalid_utf8() {
    assert_eq!(
        parse_host_header(b"GET /\xFF HTTP/1.1\r\nHost: caf\xC3\xA9.com\r\n"),
        Some("caf\u{e9}.com".to_string())
    );
    assert_eq!(parse_host_header(b"Host: a\xFFb\r\n"), Some("a\u{FFFD}b".to_string()));
}

#[test]
fn request_on_port_80_is_logged_and_answered() {
    let outcome = handle_request(80, b"GET / HTTP/1.1\r\nHost: example.com\r\n\r\n", "Stay focused");
    let notice = outcome.notice.unwrap();
    assert_eq!(notice.target, "example.com");
    assert_eq!(notice.target_type, TargetType::Website);
    assert_eq!(
        outcome.response.unwrap(),
        "HTTP/1.1 403 Forbidden\r\nContent-Type: text/html\r\n\r\n<h1>Stay focused</h1>"
    );
}

#[test]
fn request_on_port_80_without_host_is_answered_but_not_logged() {
    let outcome = handle_request(80, b"GET / HTTP/1.1\r\n\r\n", DEFAULT_WARNING);
    assert!(outcome.notice.is_none());
    assert_eq!(
        outcome.response.unwrap(),
        "HTTP/1.1 403 Forbidden\r\nContent-Type: text/html\r\n\r\n<h1>Blocked by Bastion</h1>"
    );
}

#[test]
fn request_on_port_443_is_logged_and_not_answered() {
    let hello = client_hello(&[], &sni_extension(b"example.com"));
    let outcome = handle_request(443, &hello, DEFAULT_WARNING);
    assert_eq!(outcome.notice.unwrap().target, "example.com");
    assert!(outcome.response.is_none());
    let outcome = handle_request(443, b"GET / HTTP/1.1\r\nHost: example.com\r\n\r\n", "w");
    assert!(outcome.notice.is_none());
    assert!(outcome.response.is_none());
}

#[test]
fn empty_read_leads_to_nothing() {
    for port in [80u16, 443, 8080] {
        let outcome = handle_request(port, &[], DEFAULT_WARNING);
        assert!(outcome.notice.is_none());
        assert!(outcome.response.is_none());
    }
}

#[test]
fn datagrams_give_the_generic_notice() {
    let notice = datagram_notice();
    assert_eq!(notice.target, "QUIC/UDP Protocol");
    assert_eq!(notice.target, QUIC_TARGET);
    assert_eq!(notice.target_type, TargetType::Website);
    assert_eq!(notice.target_type.as_str(), "website");
}

#[test]
fn terminated_apps_give_an_app_notice() {
    let notice = app_notice("Discord.exe");
    assert_eq!(notice.target, "Discord.exe");
    assert_eq!(notice.target_type.as_str(), "app");
}

#[test]
fn block_page_shows_the_warning() {
    assert_eq!(
        block_page_response(""),
        "HTTP/1.1 403 Forbidden\r\nContent-Type: text/html\r\n\r\n<h1></h1>"
    );
}

#[test]
fn socket_addresses() {
    assert_eq!(socket_address("127.0.0.1", 80), "127.0.0.1:80");
    assert_eq!(socket_address("::1", 443), "[::1]:443");
    assert_eq!(socket_address("localhost", 0), "localhost:0");
    assert_eq!(socket_address("::", 65535), "[::]:65535");
}

#[test]
fn listeners_cover_both_loopbacks() {
    let list = listener_endpoints();
    let seen: Vec<(String, u16, Transport)> =
        list.iter().map(|e| (e.address.clone(), e.port, e.transport)).collect();
    assert_eq!(
        seen,
        vec![
            ("127.0.0.1:80".to_string(), 80, Transport::Tcp),
            ("[::1]:80".to_string(), 80, Transport::Tcp),
            ("127.0.0.1:443".to_string(), 443, Transport::Tcp),
            ("127.0.0.1:443".to_string(), 443, Transport::Udp),
            ("[::1]:443".to_string(), 443, Transport::Tcp),
            ("[::1]:443".to_string(), 443, Transport::Udp),
        ]
    );
}
