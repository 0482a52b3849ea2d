use tunnelium::error::Error;
use tunnelium::store::config_store::ready_to_save;
use tunnelium::model::auth_config::AuthConfig;
use tunnelium::model::app_config::AppConfig;
use tunnelium::model::host::is_valid_host;
use tunnelium::model::proxy_config::{JumpHost, ProxyConfig, ProxyKind};
use tunnelium::model::timestamp::Timestamp;
use tunnelium::model::tunnel_config::{
    ForwardKind, ForwardTarget, ListenSpec, ReconnectPolicy, SshEndpoint, TunnelConfig,
};
use tunnelium::model::validation::{
    climbs_out, validate_app_config, validate_tunnel, validate_tunnel_into, MachineFacts,
    ValidationError,
};

fn base_tunnel(kind: ForwardKind) -> TunnelConfig {
    let now = Timestamp { secs: 1_700_000_000, nanos: 0 };
    TunnelConfig {
        id: uuid::Uuid::new_v4().as_u128(),
        name: "test".into(),
        description: None,
        kind,
        enabled: true,
        auto_start: false,
        reconnect: ReconnectPolicy::default(),
        ssh: SshEndpoint {
            host: "example.com".into(),
            port: 22,
            username: "sam".into(),
        },
        auth: AuthConfig::Agent,
        listen: ListenSpec {
            bind_address: "127.0.0.1".into(),
            port: 5432,
        },
        target: Some(ForwardTarget {
            host: "db.internal".into(),
            port: 5432,
        }),
        proxy: None,
        jump_hosts: Vec::new(),
        keep_alive_seconds: None,
        connect_timeout_ms: None,
        compression: None,
        group: None,
        tags: Vec::new(),
        created_at: now,
        updated_at: now,
    }
}

fn no_facts() -> MachineFacts {
    MachineFacts { local_addresses: Vec::new(), readable_keys: Vec::new() }
}

fn fields(errs: &[ValidationError]) -> Vec<String> {
    errs.iter().map(|e| e.field.clone()).collect()
}

#[test]
fn accepts_a_valid_local_tunnel() {
    assert!(validate_tunnel(&base_tunnel(ForwardKind::Local), &no_facts()).is_ok());
}

#[test]
fn dynamic_tunnel_does_not_require_a_target() {
    let mut t = base_tunnel(ForwardKind::Dynamic);
    t.target = None;
    assert!(validate_tunnel(&t, &no_facts()).is_ok());
}

#[test]
fn local_tunnel_requires_a_target() {
    let mut t = base_tunnel(ForwardKind::Local);
    t.target = None;
    let errs = validate_tunnel(&t, &no_facts()).unwrap_err();
    assert!(errs.iter().any(|e| e.field == "target"));
}

#[test]
fn rejects_empty_name() {
    let mut t = base_tunnel(ForwardKind::Local);
    t.name = "   ".into();
    let errs = validate_tunnel(&t, &no_facts()).unwrap_err();
    assert!(errs.iter().any(|e| e.field == "name"));
}

#[test]
fn rejects_zero_ssh_port() {
    let mut t = base_tunnel(ForwardKind::Local);
    t.ssh.port = 0;
    let errs = validate_tunnel(&t, &no_facts()).unwrap_err();
    assert!(errs.iter().any(|e| e.field == "ssh.port"));
}

#[test]
fn remote_tunnel_rejects_auto_listen_port() {
    let mut t = base_tunnel(ForwardKind::Remote);
    t.listen.port = 0;
    let errs = validate_tunnel(&t, &no_facts()).unwrap_err();
    assert!(errs.iter().any(|e| e.field == "listen.port"));
}

#[test]
fn rejects_bad_bind_address() {
    let mut t = base_tunnel(ForwardKind::Local);
    t.listen.bind_address = "not a host!".into();
    let errs = validate_tunnel(&t, &no_facts()).unwrap_err();
    assert!(errs.iter().any(|e| e.field == "listen.bindAddress"));
}

#[test]
fn rejects_backoff_factor_below_one() {
    let mut t = base_tunnel(ForwardKind::Local);
    // A factor of 0.5, in thousandths.
    t.reconnect.factor_milli = 500;
    let errs = validate_tunnel(&t, &no_facts()).unwrap_err();
    assert!(errs.iter().any(|e| e.field == "reconnect.factor"));
}

#[test]
fn host_helper_accepts_ip_and_hostname() {
    assert!(is_valid_host("127.0.0.1"));
    assert!(is_valid_host("::1"));
    assert!(is_valid_host("localhost"));
    assert!(is_valid_host("db.internal.example.com"));
    assert!(!is_valid_host(""));
    assert!(!is_valid_host("-bad.example.com"));
    assert!(!is_valid_host("has space"));
}

#[test]
fn host_helper_edge_cases() {
    assert!(is_valid_host("fe80::1:2"));
    assert!(is_valid_host("::"));
    assert!(is_valid_host("2001:db8::ff00:42:8329"));
    assert!(is_valid_host("::ffff:192.168.0.1"));
    assert!(is_valid_host("255.255.255.255"));
    // Not an IPv4 address, but every label is a valid hostname label.
    assert!(is_valid_host("256.1.1.1"));
    assert!(!is_valid_host("1:2:3:4:5:6:7:8:9"));
    assert!(!is_valid_host("a..b"));
    assert!(!is_valid_host("bad-.example.com"));
    assert!(!is_valid_host("under_score.com"));
    assert!(!is_valid_host(&"a".repeat(64)));
    assert!(is_valid_host(&"a".repeat(63)));
    let long = vec!["a".repeat(50); 6].join(".");
    assert!(long.len() > 253);
    assert!(!is_valid_host(&long));
}

#[test]
fn every_problem_is_reported_in_order() {
    let mut t = base_tunnel(ForwardKind::Remote);
    t.name = "".into();
    t.ssh.host = "bad host".into();
    t.ssh.port = 0;
    t.ssh.username = " ".into();
    t.auth = AuthConfig::Password { secret_ref: "".into() };
    t.listen.port = 0;
    t.target = Some(ForwardTarget { host: "-x".into(), port: 0 });
    t.proxy = Some(ProxyConfig {
        kind: ProxyKind::Http,
        host: "".into(),
        port: 0,
        auth_ref: None,
    });
    t.jump_hosts.push(JumpHost {
        endpoint: SshEndpoint { host: "jump".into(), port: 0, username: "u".into() },
        auth: AuthConfig::PrivateKey { key_path: "".into(), passphrase_ref: None },
    });
    t.reconnect.initial_delay_ms = 70_000;
    let errs = validate_tunnel(&t, &no_facts()).unwrap_err();
    assert_eq!(
        fields(&errs),
        vec![
            "name",
            "ssh.host",
            "ssh.port",
            "ssh.username",
            "auth.secretRef",
            "listen.port",
            "target.host",
            "target.port",
            "proxy.host",
            "proxy.port",
            "jumpHosts[0].ssh.port",
            "jumpHosts[0].auth.keyPath",
            "reconnect.initialDelayMs",
        ]
    );
    assert_eq!(errs[0].message, "Name is required");
    assert_eq!(errs[5].message, "A remote forward requires an explicit port (1-65535)");
    assert_eq!(errs[12].message, "Initial delay cannot exceed max delay");
}

#[test]
fn config_prefixes_each_tunnel() {
    let mut config = AppConfig::default();
    config.tunnels.push(base_tunnel(ForwardKind::Local));
    let mut bad = base_tunnel(ForwardKind::Local);
    bad.ssh.port = 0;
    config.tunnels.push(bad.clone());
    assert!(validate_app_config(&config, &no_facts()).is_err());
    let errs = validate_app_config(&config, &no_facts()).unwrap_err();
    assert_eq!(fields(&errs), vec!["tunnels[1].ssh.port"]);
    // The same tunnel on its own reports the same problem without the prefix.
    let alone = validate_tunnel(&bad, &no_facts()).unwrap_err();
    assert_eq!(fields(&alone), vec!["ssh.port"]);
    assert_eq!(alone[0].message, errs[0].message);
}

#[test]
fn empty_config_is_valid() {
    assert!(validate_app_config(&AppConfig::default(), &no_facts()).is_ok());
}

#[test]
fn save_rejects_invalid_config() {
    let mut bad = base_tunnel(ForwardKind::Dynamic);
    bad.name = String::new();
    bad.target = None;
    let mut config = AppConfig::default();
    config.tunnels.push(bad);

    let err = ready_to_save(&config, &no_facts()).unwrap_err();
    assert!(matches!(err, Error::Validation(_)));
    assert!(ready_to_save(&AppConfig::default(), &no_facts()).is_ok());
}

#[test]
fn bind_address_must_be_an_ip_or_a_local_interface() {
    let mut t = base_tunnel(ForwardKind::Local);
    t.listen.bind_address = "db.internal".into();
    let errs = validate_tunnel(&t, &no_facts()).unwrap_err();
    assert_eq!(fields(&errs), vec!["listen.bindAddress"]);
    assert_eq!(errs[0].message, "Bind address must be an IP address or a local interface address");
    let facts = MachineFacts { local_addresses: vec!["db.internal".into()], readable_keys: Vec::new() };
    assert!(validate_tunnel(&t, &facts).is_ok());
    t.listen.bind_address = "::1".into();
    assert!(validate_tunnel(&t, &no_facts()).is_ok());
}

#[test]
fn key_file_must_be_readable() {
    let mut t = base_tunnel(ForwardKind::Local);
    t.auth = AuthConfig::PrivateKey { key_path: "/keys/id_ed25519".into(), passphrase_ref: None };
    let errs = validate_tunnel(&t, &no_facts()).unwrap_err();
    assert_eq!(fields(&errs), vec!["auth.keyPath"]);
    assert_eq!(errs[0].message, "Private key file cannot be read");
    let facts = MachineFacts {
        local_addresses: Vec::new(),
        readable_keys: vec!["/keys/id_ed25519".into()],
    };
    assert!(validate_tunnel(&t, &facts).is_ok());
    t.auth = AuthConfig::PrivateKey { key_path: " ".into(), passphrase_ref: None };
    let errs = validate_tunnel(&t, &facts).unwrap_err();
    assert_eq!(errs.len(), 1);
    assert_eq!(errs[0].message, "Private key path is required");
}

#[test]
fn key_path_may_not_climb_to_a_parent() {
    let mut t = base_tunnel(ForwardKind::Local);
    for path in ["../id", "keys/../../etc/shadow", "..", "C:\\keys\\..\\id", "/keys/.."] {
        t.auth = AuthConfig::PrivateKey { key_path: path.into(), passphrase_ref: None };
        let facts = MachineFacts { local_addresses: Vec::new(), readable_keys: vec![path.into()] };
        let errs = validate_tunnel(&t, &facts).unwrap_err();
        assert_eq!(fields(&errs), vec!["auth.keyPath"]);
        assert_eq!(errs[0].message, "Private key path must not contain a '..' component");
    }
}

#[test]
fn dots_inside_a_name_are_not_traversal() {
    assert!(!climbs_out("/keys/id..old"));
    assert!(!climbs_out("/keys/..id"));
    assert!(!climbs_out("/keys/./id"));
    assert!(!climbs_out("..."));
    assert!(climbs_out("a/../b"));
    let mut t = base_tunnel(ForwardKind::Local);
    t.auth = AuthConfig::PrivateKey { key_path: "/keys/id..old".into(), passphrase_ref: None };
    let facts = MachineFacts {
        local_addresses: Vec::new(),
        readable_keys: vec!["/keys/id..old".into()],
    };
    assert!(validate_tunnel(&t, &facts).is_ok());
}

#[test]
fn appending_under_a_prefix_keeps_what_was_there() {
    let earlier = ValidationError { field: "tunnels[0].name".into(), message: "Name is required".into() };
    let mut errs = vec![earlier.clone()];
    let mut t = base_tunnel(ForwardKind::Local);
    t.ssh.port = 0;
    t.jump_hosts.push(JumpHost {
        endpoint: SshEndpoint { host: "jump".into(), port: 22, username: "u".into() },
        auth: AuthConfig::Password { secret_ref: " ".into() },
    });
    validate_tunnel_into(&t, "tunnels[3].", &mut errs, &no_facts());
    assert_eq!(errs[0], earlier);
    assert_eq!(
        fields(&errs),
        vec!["tunnels[0].name", "tunnels[3].ssh.port", "tunnels[3].jumpHosts[0].auth.secretRef"]
    );
    assert!(errs[1..].iter().all(|e| e.field.starts_with("tunnels[3].")));
}
