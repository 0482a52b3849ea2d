use tunnelium::error::Error;
use tunnelium::tunnel::proxy::{
    encode, http_connect_accepted, http_connect_request_text, http_head_progress,
    socks5_connect_reply, socks5_connect_request, socks5_greeting, socks5_method,
    socks5_userpass_accepted, socks5_userpass_message, BoundAddress, HeadProgress, Socks5Method,
};

fn ssh_text(e: Error) -> String {
    match e {
        Error::Ssh(s) => s,
        other => panic!("expected an SSH error, got {:?}", other),
    }
}

#[test]
fn base64_known_values() {
    assert_eq!(encode(b""), "");
    assert_eq!(encode(b"f"), "Zg==");
    assert_eq!(encode(b"fo"), "Zm8=");
    assert_eq!(encode(b"foo"), "Zm9v");
    assert_eq!(encode(b"foob"), "Zm9vYg==");
    assert_eq!(encode(b"fooba"), "Zm9vYmE=");
    assert_eq!(encode(b"foobar"), "Zm9vYmFy");
    assert_eq!(encode(b"user:pass"), "dXNlcjpwYXNz");
    assert_eq!(encode(&[0xff, 0xfe, 0xfd]), "//79");
    for n in 0..20usize {
        let data = vec![7u8; n];
        assert_eq!(encode(&data).len(), 4 * ((n + 2) / 3));
    }
}

#[test]
fn http_connect_request_with_and_without_credentials() {
    assert_eq!(
        http_connect_request_text("example.com", 22, &None),
        "CONNECT example.com:22 HTTP/1.1\r\nHost: example.com:22\r\n\r\n"
    );
    assert_eq!(
        http_connect_request_text("h", 2222, &Some(("user".to_string(), "pass".to_string()))),
        "CONNECT h:2222 HTTP/1.1\r\nHost: h:2222\r\nProxy-Authorization: Basic dXNlcjpwYXNz\r\n\r\n"
    );
}

#[test]
fn http_reply_status_is_read_from_the_first_line() {
    assert!(http_connect_accepted(b"HTTP/1.1 200 Connection established\r\n\r\n"));
    assert!(http_connect_accepted(b"HTTP/1.0 200 OK\r\n\r\n"));
    assert!(!http_connect_accepted(b"HTTP/1.1 407 Proxy Authentication Required\r\n\r\n"));
    assert!(!http_connect_accepted(b"HTTP/1.1 403 Forbidden\r\nX: 200\r\n\r\n"));
    assert!(!http_connect_accepted(b""));
}

#[test]
fn http_head_progress_stops_at_blank_line_or_limit() {
    assert_eq!(http_head_progress(b"HTTP/1.1 200 OK\r\n\r\n"), HeadProgress::Complete);
    assert_eq!(http_head_progress(b"HTTP/1.1 200 OK\r\n"), HeadProgress::More);
    assert_eq!(http_head_progress(&vec![b'a'; 8192]), HeadProgress::More);
    assert_eq!(http_head_progress(&vec![b'a'; 8193]), HeadProgress::TooLarge);
}

#[test]
fn socks5_greeting_offers_auth_only_with_credentials() {
    assert_eq!(socks5_greeting(false), vec![5, 1, 0]);
    assert_eq!(socks5_greeting(true), vec![5, 2, 0, 2]);
}

#[test]
fn socks5_method_choices() {
    assert_eq!(socks5_method(5, 0).unwrap(), Socks5Method::NoAuth);
    assert_eq!(socks5_method(5, 2).unwrap(), Socks5Method::UserPass);
    assert_eq!(ssh_text(socks5_method(4, 0).unwrap_err()), "not a SOCKS5 proxy");
    assert_eq!(
        ssh_text(socks5_method(5, 255).unwrap_err()),
        "SOCKS5 proxy rejected our auth methods"
    );
    assert_eq!(ssh_text(socks5_method(5, 9).unwrap_err()), "unsupported SOCKS5 auth method 9");
}

#[test]
fn socks5_userpass_message_layout() {
    let msg = socks5_userpass_message(&Some(("ab".to_string(), "xyz".to_string()))).unwrap();
    assert_eq!(msg, vec![1, 2, b'a', b'b', 3, b'x', b'y', b'z']);
    assert_eq!(
        ssh_text(socks5_userpass_message(&None).unwrap_err()),
        "proxy requires credentials"
    );
    assert!(socks5_userpass_accepted(0).is_ok());
    assert_eq!(
        ssh_text(socks5_userpass_accepted(1).unwrap_err()),
        "SOCKS5 proxy authentication failed"
    );
}

#[test]
fn socks5_connect_request_layout() {
    assert_eq!(
        socks5_connect_request("ab", 0x1234).unwrap(),
        vec![5, 1, 0, 3, 2, b'a', b'b', 0x12, 0x34]
    );
    let long = "h".repeat(256);
    assert_eq!(
        ssh_text(socks5_connect_request(&long, 22).unwrap_err()),
        "SOCKS5 hostname too long"
    );
    assert!(socks5_connect_request(&"h".repeat(255), 22).is_ok());
}

#[test]
fn socks5_connect_reply_judgement() {
    assert!(matches!(socks5_connect_reply(0, 1).unwrap(), BoundAddress::Fixed(4)));
    assert!(matches!(socks5_connect_reply(0, 4).unwrap(), BoundAddress::Fixed(16)));
    assert!(matches!(socks5_connect_reply(0, 3).unwrap(), BoundAddress::LengthPrefixed));
    assert_eq!(
        ssh_text(socks5_connect_reply(5, 1).unwrap_err()),
        "SOCKS5 proxy CONNECT failed (code 5)"
    );
    assert_eq!(ssh_text(socks5_connect_reply(0, 2).unwrap_err()), "bad SOCKS5 reply atyp 2");
}

/// RFC 4648 decoding of a padded text, written out for the test.
fn rfc4648_decode(text: &str) -> Vec<u8> {
    const ALPHABET: &[u8] = b"ABCDEFGHIJKLMNOPQRSTUVWXYZabcdefghijklmnopqrstuvwxyz0123456789+/";
    let value = |c: u8| ALPHABET.iter().position(|&a| a == c).unwrap() as u32;
    let mut out = Vec::new();
    for q in text.as_bytes().chunks(4) {
        let v0 = value(q[0]);
        let v1 = value(q[1]);
        out.push((v0 << 2 | v1 >> 4) as u8);
        if q[2] != b'=' {
            let v2 = value(q[2]);
            out.push(((v1 & 15) << 4 | v2 >> 2) as u8);
            if q[3] != b'=' {
                out.push(((v2 & 3) << 6 | value(q[3])) as u8);
            }
        }
    }
    out
}

#[test]
fn base64_decodes_back_to_the_input() {
    let inputs: Vec<Vec<u8>> = vec![
        Vec::new(),
        b"f".to_vec(),
        b"fo".to_vec(),
        b"foo".to_vec(),
        b"user:p\xc3\xa4ss".to_vec(),
        (0u8..=255).collect(),
    ];
    for input in inputs {
        assert_eq!(rfc4648_decode(&encode(&input)), input);
    }
}
