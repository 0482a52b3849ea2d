use tunnelium::error::Error;
use tunnelium::tunnel::socks::{
    domain_text, greeting_methods, ipv4_text, no_auth_reply, port_from_be, reply_bytes,
    request_form, AddressForm, REP_CMD_NOT_SUPPORTED, REP_GENERAL_FAILURE, REP_SUCCESS,
};

fn ssh_text(e: Error) -> String {
    match e {
        Error::Ssh(s) => s,
        other => panic!("expected an SSH error, got {:?}", other),
    }
}

#[test]
fn greeting_is_judged_by_version() {
    assert_eq!(greeting_methods(5, 3).unwrap(), 3);
    assert_eq!(ssh_text(greeting_methods(4, 1).unwrap_err()), "not a SOCKS5 client");
    assert_eq!(no_auth_reply(), vec![5, 0]);
}

#[test]
fn request_heads() {
    assert!(matches!(request_form(5, 1, 1), Ok(AddressForm::Ipv4)));
    assert!(matches!(request_form(5, 1, 3), Ok(AddressForm::Domain)));
    assert!(matches!(request_form(5, 1, 4), Ok(AddressForm::Ipv6)));
    match request_form(4, 1, 1) {
        Err(r) => {
            assert_eq!(r.reply, None);
            assert_eq!(ssh_text(r.error), "bad SOCKS5 request");
        }
        Ok(_) => panic!("accepted a SOCKS4 request"),
    }
    match request_form(5, 2, 1) {
        Err(r) => {
            assert_eq!(r.reply, Some(REP_CMD_NOT_SUPPORTED));
            assert_eq!(ssh_text(r.error), "only SOCKS5 CONNECT is supported");
        }
        Ok(_) => panic!("accepted BIND"),
    }
    match request_form(5, 1, 9) {
        Err(r) => {
            assert_eq!(r.reply, None);
            assert_eq!(ssh_text(r.error), "unsupported SOCKS5 address type 9");
        }
        Ok(_) => panic!("accepted an unknown address type"),
    }
}

#[test]
fn addresses_and_ports() {
    assert_eq!(ipv4_text(&[127, 0, 0, 1]), "127.0.0.1");
    assert_eq!(ipv4_text(&[255, 10, 0, 200]), "255.10.0.200");
    assert_eq!(domain_text(b"example.com".to_vec()).unwrap(), "example.com");
    assert_eq!(ssh_text(domain_text(vec![0xff, 0xfe]).unwrap_err()), "invalid SOCKS5 domain");
    assert_eq!(port_from_be(0x1f, 0x90), 8080);
    assert_eq!(port_from_be(0, 22), 22);
}

#[test]
fn replies_carry_a_null_address() {
    assert_eq!(reply_bytes(REP_SUCCESS), vec![5, 0, 0, 1, 0, 0, 0, 0, 0, 0]);
    assert_eq!(reply_bytes(REP_GENERAL_FAILURE), vec![5, 1, 0, 1, 0, 0, 0, 0, 0, 0]);
}
