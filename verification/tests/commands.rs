use tunnelium::commands::system_cmd::{select_interfaces, InterfaceAddress, NetworkInterface};
use tunnelium::commands::tunnel_cmd::{find_tunnel, proxy_credentials, resolve_secrets, tunnels_to_start};
use tunnelium::error::Error;
use tunnelium::model::auth_config::AuthConfig;
use tunnelium::model::proxy_config::JumpHost;
use tunnelium::model::timestamp::Timestamp;
use tunnelium::model::tunnel_config::{
    ForwardKind, ListenSpec, ReconnectPolicy, SshEndpoint, TunnelConfig,
};

fn iface(name: &str, address: &str, ipv4: bool) -> InterfaceAddress {
    InterfaceAddress { name: name.into(), address: address.into(), ipv4 }
}

fn tunnel(id: u128, name: &str, enabled: bool) -> TunnelConfig {
    let now = Timestamp { secs: 1_700_000_000, nanos: 0 };
    TunnelConfig {
        id,
        name: name.into(),
        description: None,
        kind: ForwardKind::Dynamic,
        enabled,
        auto_start: false,
        reconnect: ReconnectPolicy::default(),
        ssh: SshEndpoint { host: "h".into(), port: 22, username: "u".into() },
        auth: AuthConfig::Agent,
        listen: ListenSpec { bind_address: "127.0.0.1".into(), port: 1080 },
        target: None,
        proxy: None,
        jump_hosts: Vec::new(),
        keep_alive_seconds: None,
        connect_timeout_ms: None,
        compression: None,
        group: None,
        tags: Vec::new(),
        created_at: now,
        updated_at: now,
    }
}

#[test]
fn interfaces_are_ipv4_sorted_and_unique() {
    let found = vec![
        iface("lo", "127.0.0.1", true),
        iface("eth0", "192.168.1.20", true),
        iface("eth0", "fe80::1", false),
        iface("wlan0", "10.0.0.5", true),
        iface("docker0", "192.168.1.20", true),
    ];
    let picked = select_interfaces(&found);
    assert_eq!(
        picked,
        vec![
            NetworkInterface { name: "wlan0".into(), address: "10.0.0.5".into() },
            NetworkInterface { name: "lo".into(), address: "127.0.0.1".into() },
            NetworkInterface { name: "eth0".into(), address: "192.168.1.20".into() },
        ]
    );
    assert!(select_interfaces(&Vec::new()).is_empty());
}

#[test]
fn interface_addresses_sort_as_text() {
    let found = vec![iface("a", "9.0.0.1", true), iface("b", "10.0.0.1", true)];
    let picked = select_interfaces(&found);
    assert_eq!(picked[0].address, "10.0.0.1");
    assert_eq!(picked[1].address, "9.0.0.1");
}

#[test]
fn proxy_credentials_split_at_the_first_line_break() {
    assert_eq!(proxy_credentials("user\npass"), ("user".to_string(), "pass".to_string()));
    assert_eq!(proxy_credentials("user"), ("user".to_string(), String::new()));
    assert_eq!(proxy_credentials("u\np\nq"), ("u".to_string(), "p\nq".to_string()));
    assert_eq!(proxy_credentials("\n"), (String::new(), String::new()));
}

#[test]
fn find_tunnel_takes_the_first_match() {
    let tunnels = vec![tunnel(1, "one", true), tunnel(2, "two", true), tunnel(2, "dup", true)];
    assert_eq!(find_tunnel(tunnels.clone(), 2).unwrap().name, "two");
    match find_tunnel(tunnels, 3) {
        Err(Error::NotFound(m)) => {
            assert_eq!(m, "tunnel 00000000-0000-0000-0000-000000000003")
        }
        other => panic!("unexpected {:?}", other),
    }
}

#[test]
fn start_all_picks_enabled_tunnels_in_order() {
    let tunnels = vec![tunnel(1, "a", true), tunnel(2, "b", false), tunnel(3, "c", true)];
    let names: Vec<String> = tunnels_to_start(tunnels).into_iter().map(|t| t.name).collect();
    assert_eq!(names, vec!["a", "c"]);
}

#[test]
fn secrets_for_agent_logins_need_no_keychain() {
    let mut t = tunnel(1, "a", true);
    t.jump_hosts.push(JumpHost {
        endpoint: SshEndpoint { host: "j".into(), port: 22, username: "u".into() },
        auth: AuthConfig::Agent,
    });
    let s = resolve_secrets(&t).unwrap();
    assert_eq!(s.password, None);
    assert_eq!(s.passphrase, None);
    assert!(s.proxy_auth.is_none());
    assert_eq!(s.jumps.len(), 1);
    assert_eq!(s.jumps[0].password, None);
}
