use tunnelium::store::known_hosts::{host_port, without_host};

#[test]
fn removes_matching_host_keeps_others() {
    let content = "example.com ssh-ed25519 AAAAkey1\n[db.internal]:2222 ssh-ed25519 AAAAkey2\nother.host ssh-ed25519 AAAAkey3\n";
    let once = without_host(content, "example.com", 22);
    let remaining = without_host(&once, "db.internal", 2222);
    assert!(!remaining.contains("example.com"));
    assert!(!remaining.contains("db.internal"));
    assert!(remaining.contains("other.host"));
    assert_eq!(remaining, "other.host ssh-ed25519 AAAAkey3\n");
}

#[test]
fn host_port_brackets_non_default_ports() {
    assert_eq!(host_port("example.com", 22), "example.com");
    assert_eq!(host_port("db.internal", 2222), "[db.internal]:2222");
}

#[test]
fn comma_separated_names_and_whitespace() {
    let content = "  a.example,b.example ssh-rsa K1\r\nc.example ssh-rsa K2";
    assert_eq!(without_host(content, "b.example", 22), "c.example ssh-rsa K2\n");
    assert_eq!(without_host(content, "c.example", 22), "  a.example,b.example ssh-rsa K1\n");
    // Only whole names match; with no match the text is left exactly as it was.
    assert_eq!(without_host(content, "example", 22), content);
}

#[test]
fn removing_everything_leaves_empty_text() {
    assert_eq!(without_host("h k1\nh k2\n", "h", 22), "");
    assert_eq!(without_host("", "h", 22), "");
}

#[test]
fn port_must_match_too() {
    let content = "[h]:2200 k1\nh k2\n";
    assert_eq!(without_host(content, "h", 2200), "h k2\n");
    assert_eq!(without_host(content, "h", 22), "[h]:2200 k1\n");
}

#[test]
fn no_match_leaves_the_text_untouched() {
    let content = "a k1\r\nb k2";
    assert_eq!(without_host(content, "c", 22), content);
    assert_eq!(without_host(content, "a", 2222), content);
}
