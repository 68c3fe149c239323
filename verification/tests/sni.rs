use cairn::domain::sni::{parse_destination_name, MAX_INSPECT};

fn client_hello(name: &str) -> Vec<u8> {
    let name = name.as_bytes();
    let mut server_name = Vec::new();
    server_name.extend_from_slice(&((name.len() + 3) as u16).to_be_bytes());
    server_name.push(0);
    server_name.extend_from_slice(&(name.len() as u16).to_be_bytes());
    server_name.extend_from_slice(name);

    let mut extensions = Vec::new();
    // An unrelated extension first.
    extensions.extend_from_slice(&[0x00, 0x0b, 0x00, 0x02, 0x01, 0x00]);
    extensions.extend_from_slice(&[0x00, 0x00]);
    extensions.extend_from_slice(&(server_name.len() as u16).to_be_bytes());
    extensions.extend_from_slice(&server_name);

    let mut body = vec![0x03, 0x03];
    body.extend_from_slice(&[7u8; 32]);
    body.push(0);
    body.extend_from_slice(&[0x00, 0x02, 0x13, 0x01]);
    body.extend_from_slice(&[0x01, 0x00]);
    body.extend_from_slice(&(extensions.len() as u16).to_be_bytes());
    body.extend_from_slice(&extensions);

    let mut handshake = vec![0x01];
    let length = body.len() as u32;
    handshake.extend_from_slice(&length.to_be_bytes()[1..]);
    handshake.extend_from_slice(&body);

    let mut record = vec![0x16, 0x03, 0x01];
    record.extend_from_slice(&(handshake.len() as u16).to_be_bytes());
    record.extend_from_slice(&handshake);
    record
}

#[test]
fn the_server_name_of_a_client_hello_is_read() {
    let found = parse_destination_name(&client_hello("News.Example")).unwrap();
    assert_eq!(found.as_str(), "news.example");
}

#[test]
fn a_truncated_hello_names_nothing() {
    let hello = client_hello("news.example");
    for cut in [1usize, 4, 5, 20, 44, hello.len() - 3] {
        assert!(parse_destination_name(&hello[..cut]).is_none(), "cut at {cut}");
    }
}

#[test]
fn the_host_header_of_a_request_is_read_without_its_port() {
    let request = b"GET /secret/path HTTP/1.1\r\nUser-Agent: x\r\nHOST: example.com:8080\r\n\r\nbody";
    assert_eq!(parse_destination_name(request).unwrap().as_str(), "example.com");
}

#[test]
fn headers_after_the_blank_line_are_never_read() {
    let request = b"GET / HTTP/1.1\r\n\r\nHost: example.com\r\n";
    assert!(parse_destination_name(request).is_none());
}

#[test]
fn nothing_is_read_beyond_the_cap() {
    let mut request = b"GET / HTTP/1.1\r\nX-Padding: ".to_vec();
    request.extend(std::iter::repeat(b'a').take(MAX_INSPECT));
    request.extend_from_slice(b"\r\nHost: example.com\r\n\r\n");
    assert!(parse_destination_name(&request).is_none());
}

#[test]
fn empty_bytes_name_nothing() {
    assert!(parse_destination_name(b"").is_none());
}

#[test]
fn a_host_that_is_not_a_name_names_nothing() {
    assert!(parse_destination_name(b"GET / HTTP/1.1\r\nHost: 10.0.0.1\r\n\r\n").is_none());
}
