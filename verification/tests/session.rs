use tunnelium::error::Error;
use tunnelium::model::auth_config::AuthConfig;
use tunnelium::model::proxy_config::JumpHost;
use tunnelium::model::status::LogLevel;
use tunnelium::model::timestamp::Timestamp;
use tunnelium::model::tunnel_config::{
    ForwardKind, ForwardTarget, ListenSpec, ReconnectPolicy, SshEndpoint, TunnelConfig,
};
use tunnelium::tunnel::forward::{endpoint, forward_route, remote_listen_port, Route};
use tunnelium::tunnel::handler::{host_key_verdict, record_failure_message, HostKeyCheck};
use tunnelium::tunnel::session::{
    agent_identities, succeeded, auth_plan, first_hop, keyboard_step, next_hop,
    session_timeouts, AuthPlan, ConnectSecrets, PromptReply, PromptStep,
};

fn endpoint_of(host: &str, port: u16) -> SshEndpoint {
    SshEndpoint { host: host.into(), port, username: "u".into() }
}

fn tunnel(jumps: Vec<JumpHost>) -> TunnelConfig {
    let now = Timestamp { secs: 1_700_000_000, nanos: 0 };
    TunnelConfig {
        id: 7,
        name: "t".into(),
        description: None,
        kind: ForwardKind::Local,
        enabled: true,
        auto_start: false,
        reconnect: ReconnectPolicy::default(),
        ssh: endpoint_of("server", 22),
        auth: AuthConfig::Agent,
        listen: ListenSpec { bind_address: "127.0.0.1".into(), port: 0 },
        target: Some(ForwardTarget { host: "db".into(), port: 5432 }),
        proxy: None,
        jump_hosts: jumps,
        keep_alive_seconds: None,
        connect_timeout_ms: None,
        compression: None,
        group: None,
        tags: Vec::new(),
        created_at: now,
        updated_at: now,
    }
}

#[test]
fn timeouts_follow_the_tunnel() {
    let mut t = tunnel(Vec::new());
    let none = session_timeouts(&t);
    assert_eq!(none.keepalive_secs, None);
    assert_eq!(none.inactivity_ms, None);
    t.keep_alive_seconds = Some(0);
    t.connect_timeout_ms = Some(2500);
    let s = session_timeouts(&t);
    assert_eq!(s.keepalive_secs, None);
    assert_eq!(s.inactivity_ms, Some(2500));
    t.keep_alive_seconds = Some(30);
    assert_eq!(session_timeouts(&t).keepalive_secs, Some(30));
}

#[test]
fn hops_lead_through_jump_hosts_to_the_server() {
    let direct = tunnel(Vec::new());
    assert_eq!(first_hop(&direct).host, "server");
    let jumps = vec![
        JumpHost { endpoint: endpoint_of("j1", 2201), auth: AuthConfig::Agent },
        JumpHost { endpoint: endpoint_of("j2", 2202), auth: AuthConfig::Agent },
    ];
    let t = tunnel(jumps);
    assert_eq!(first_hop(&t).host, "j1");
    assert_eq!(next_hop(&t, 0).host, "j2");
    assert_eq!(next_hop(&t, 1).host, "server");
    assert_eq!(next_hop(&t, 5).host, "server");
}

#[test]
fn auth_plans() {
    let secrets = ConnectSecrets {
        password: Some("pw".into()),
        passphrase: Some("pp".into()),
        proxy_auth: None,
        jumps: Vec::new(),
    };
    let none = ConnectSecrets::default();
    let key = AuthConfig::PrivateKey { key_path: "/k".into(), passphrase_ref: None };
    assert_eq!(
        auth_plan(&key, &secrets).unwrap(),
        AuthPlan::PublicKey { key_path: "/k".into(), passphrase: Some("pp".into()) }
    );
    let pw = AuthConfig::Password { secret_ref: "r".into() };
    assert_eq!(auth_plan(&pw, &secrets).unwrap(), AuthPlan::Password { password: "pw".into() });
    assert!(matches!(auth_plan(&pw, &none), Err(Error::AuthFailed)));
    assert_eq!(auth_plan(&AuthConfig::Agent, &none).unwrap(), AuthPlan::Agent);
    let kbd = AuthConfig::KeyboardInteractive { secret_ref: None };
    assert_eq!(
        auth_plan(&kbd, &none).unwrap(),
        AuthPlan::KeyboardInteractive { answer: String::new() }
    );
    let inline = AuthConfig::PrivateKeyInline { key_ref: "k".into(), passphrase_ref: None };
    match auth_plan(&inline, &secrets) {
        Err(Error::Unsupported(m)) => {
            assert_eq!(m, "Imported-key authentication is not yet supported")
        }
        other => panic!("unexpected {:?}", other),
    }
}

#[test]
fn login_outcomes() {
    assert!(succeeded(true).is_ok());
    assert!(matches!(succeeded(false), Err(Error::AuthFailed)));
    assert!(agent_identities(2).is_ok());
    match agent_identities(0) {
        Err(Error::Ssh(m)) => assert_eq!(m, "the SSH agent has no identities loaded"),
        other => panic!("unexpected {:?}", other),
    }
}

#[test]
fn keyboard_interactive_answers_every_prompt() {
    let secret = "otp".to_string();
    assert!(matches!(keyboard_step(PromptReply::Success, &secret), PromptStep::Finish(Ok(()))));
    assert!(matches!(
        keyboard_step(PromptReply::Failure, &secret),
        PromptStep::Finish(Err(Error::AuthFailed))
    ));
    match keyboard_step(PromptReply::InfoRequest { prompts: 3 }, &secret) {
        PromptStep::Respond(answers) => assert_eq!(answers, vec!["otp", "otp", "otp"]),
        _ => panic!("expected answers"),
    }
    match keyboard_step(PromptReply::InfoRequest { prompts: 0 }, &secret) {
        PromptStep::Respond(answers) => assert!(answers.is_empty()),
        _ => panic!("expected answers"),
    }
}

#[test]
fn jump_secrets_by_position() {
    let secrets = ConnectSecrets {
        password: None,
        passphrase: None,
        proxy_auth: None,
        jumps: vec![ConnectSecrets {
            password: Some("j".into()),
            passphrase: None,
            proxy_auth: None,
            jumps: Vec::new(),
        }],
    };
    assert_eq!(secrets.jump_secrets(0).password, Some("j".to_string()));
    assert_eq!(secrets.jump_secrets(1).password, None);
}

#[test]
fn host_key_verdicts() {
    let v = host_key_verdict(HostKeyCheck::Known, false, "SHA256:abc");
    assert!(v.accept && !v.learn);
    assert_eq!(v.level, LogLevel::Info);
    assert_eq!(v.message, "Host key verified (SHA256:abc)");

    let v = host_key_verdict(HostKeyCheck::Unknown, true, "SHA256:abc");
    assert!(v.accept && v.learn);
    assert_eq!(v.level, LogLevel::Warn);
    assert_eq!(v.message, "New host key trusted on first use (SHA256:abc)");

    let v = host_key_verdict(HostKeyCheck::Unknown, false, "SHA256:abc");
    assert!(!v.accept && !v.learn);
    assert_eq!(
        v.message,
        "New host key not trusted \u{2014} refusing to connect (SHA256:abc)"
    );

    let v = host_key_verdict(HostKeyCheck::Changed { line: 12 }, true, "SHA256:abc");
    assert!(!v.accept && !v.learn);
    assert_eq!(v.level, LogLevel::Error);
    assert_eq!(
        v.message,
        "HOST KEY CHANGED (known_hosts line 12) \u{2014} refusing to connect (SHA256:abc)"
    );

    let v = host_key_verdict(HostKeyCheck::Failed { reason: "bad file".into() }, true, "SHA256:abc");
    assert!(!v.accept);
    assert_eq!(v.message, "Host key check failed: bad file \u{2014} refusing");
    assert_eq!(record_failure_message("denied"), "Could not record host key: denied");
}

#[test]
fn forward_routes() {
    let target = ForwardTarget { host: "db".into(), port: 5432 };
    assert_eq!(
        forward_route(ForwardKind::Local, Some(target.clone())).unwrap(),
        Route::Local { target }
    );
    match forward_route(ForwardKind::Local, None) {
        Err(Error::Ssh(m)) => assert_eq!(m, "local tunnel has no target"),
        other => panic!("unexpected {:?}", other),
    }
    assert_eq!(forward_route(ForwardKind::Remote, None).unwrap(), Route::Remote);
    assert_eq!(forward_route(ForwardKind::Dynamic, None).unwrap(), Route::Dynamic);
    assert_eq!(remote_listen_port(8080, 40000), 8080);
    assert_eq!(remote_listen_port(0, 40000), 40000);
    assert_eq!(remote_listen_port(0, 65536 + 22), 22);
    assert_eq!(endpoint("0.0.0.0", 1080), "0.0.0.0:1080");
}
