use tunnelium::error::Error;
use tunnelium::model::validation::ValidationError;

#[test]
fn kinds_are_stable_names() {
    assert_eq!(Error::Keychain("x".into()).kind(), "keychain");
    assert_eq!(Error::Validation(Vec::new()).kind(), "validation");
    assert_eq!(Error::NotFound("x".into()).kind(), "notFound");
    assert_eq!(Error::NoConfigDir.kind(), "noConfigDir");
    assert_eq!(Error::Ssh("x".into()).kind(), "ssh");
    assert_eq!(Error::AuthFailed.kind(), "authFailed");
    assert_eq!(Error::HostKeyRejected("x".into()).kind(), "hostKeyRejected");
    assert_eq!(Error::Unsupported("x".into()).kind(), "unsupported");
    let io = Error::Io(std::io::Error::new(std::io::ErrorKind::Other, "disk"));
    assert_eq!(io.kind(), "io");
    assert_eq!(io.message(), "I/O error: disk");
}

#[test]
fn messages() {
    assert_eq!(Error::Keychain("locked".into()).message(), "keychain error: locked");
    let issue = ValidationError { field: "name".into(), message: "Name is required".into() };
    assert_eq!(
        Error::Validation(vec![issue.clone(), issue]).message(),
        "validation failed (2 issue(s))"
    );
    assert_eq!(Error::NotFound("tunnel x".into()).message(), "not found: tunnel x");
    assert_eq!(
        Error::NoConfigDir.message(),
        "could not determine the application config directory"
    );
    assert_eq!(Error::Ssh("boom".into()).message(), "SSH error: boom");
    assert_eq!(Error::AuthFailed.message(), "authentication failed");
    assert_eq!(Error::HostKeyRejected("k".into()).message(), "host key rejected: k");
    assert_eq!(Error::Unsupported("nope".into()).message(), "nope");
    let serde = serde_json::from_str::<u32>("x").unwrap_err();
    let text = serde.to_string();
    let e = Error::Serde(serde);
    assert_eq!(e.kind(), "serde");
    assert_eq!(e.message(), format!("serialization error: {}", text));
}
