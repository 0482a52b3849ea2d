//! Field-level validation of tunnels and of the whole configuration.
use vstd::prelude::*;

use crate::model::app_config::AppConfig;
use crate::model::auth_config::AuthConfig;
use crate::model::host::{is_ip_literal, is_ip_literal_text, is_valid_host, is_valid_host_text};
use crate::model::proxy_config::{JumpHost, ProxyConfig};
use crate::model::tunnel_config::{ForwardKind, ForwardTarget, SshEndpoint, TunnelConfig};
use crate::text::{chars_of, decimal, is_blank, is_blank_spec, owned, push_decimal, push_str};

verus! {

/// A single field-level validation problem, surfaced to the UI.
#[derive(Debug, Clone, PartialEq, Eq)]
pub struct ValidationError {
    pub field: String,
    pub message: String,
}

impl ValidationError {
    fn new(field: String, message: &str) -> (e: Self)
        ensures
            e.field@ == field@,
            e.message@ == message@,
    {
        ValidationError { field, message: owned(message) }
    }
}

/// What validation learns from the machine it runs on: the addresses of the
/// local network interfaces (a listener may bind to one of them), and the
/// private key files that exist and can be read.
#[derive(Debug, Clone, PartialEq, Eq)]
pub struct MachineFacts {
    pub local_addresses: Vec<String>,
    pub readable_keys: Vec<String>,
}

/// Whether the list `v` holds the text `s`.
pub open spec fn lists(v: Seq<String>, s: Seq<char>) -> bool {
    exists|i: int| 0 <= i < v.len() && #[trigger] v[i]@ == s
}

/// Whether `v` holds `s`.
pub fn listed(v: &Vec<String>, s: &str) -> (r: bool)
    ensures
        r == lists(v@, s@),
{
    let t = owned(s);
    let n = v.len();
    for i in 0..n
        invariant
            n == v@.len(),
            t@ == s@,
            forall|j: int| 0 <= j < i ==> #[trigger] v@[j]@ != s@,
    {
        if v[i] == t {
            assert(v@[i as int]@ == s@);
            return true;
        }
    }
    false
}

/// A path separator: `/`, or `\` on Windows.
pub open spec fn is_separator(c: char) -> bool {
    c == '/' || c == '\\'
}

/// A `..` component starts at `i`: two dots with a separator or an end of
/// the text on each side.
pub open spec fn parent_at(s: Seq<char>, i: int) -> bool {
    &&& 0 <= i
    &&& i + 1 < s.len()
    &&& s[i] == '.'
    &&& s[i + 1] == '.'
    &&& (i == 0 || is_separator(s[i - 1]))
    &&& (i + 2 == s.len() || is_separator(s[i + 2]))
}

/// The rule against path traversal: a key path may not hold a `..`
/// component (one that climbs to a parent directory).
pub open spec fn climbs(s: Seq<char>) -> bool {
    exists|i: int| #[trigger] parent_at(s, i)
}

/// Whether the path `path` holds a `..` component.
pub fn climbs_out(path: &str) -> (r: bool)
    ensures
        r == climbs(path@),
{
    let v = chars_of(path);
    let n = v.len();
    let mut i: usize = 0;
    while i < n && i + 1 < n
        invariant
            i <= n,
            n == v@.len(),
            v@ == path@,
            forall|j: int| 0 <= j < i ==> !#[trigger] parent_at(v@, j),
        decreases n - i,
    {
        let before_ok = i == 0 || v[i - 1] == '/' || v[i - 1] == '\\';
        let after_ok = i + 2 == n || v[i + 2] == '/' || v[i + 2] == '\\';
        if v[i] == '.' && v[i + 1] == '.' && before_ok && after_ok {
            assert(parent_at(v@, i as int));
            return true;
        }
        i = i + 1;
    }
    assert forall|j: int| !#[trigger] parent_at(v@, j) by {
        if parent_at(v@, j) {
            assert(j < i);
        }
    }
    false
}

/// A bind address is an IP literal or the address of a local interface.
pub open spec fn bind_address_ok(a: Seq<char>, facts: MachineFacts) -> bool {
    is_ip_literal_text(a) || lists(facts.local_addresses@, a)
}

/// A validation problem as text: the field and the message.
pub type Issue = (Seq<char>, Seq<char>);

/// The problems that a list of validation errors reports, in order.
pub open spec fn issues_of(errs: Seq<ValidationError>) -> Seq<Issue> {
    errs.map_values(|e: ValidationError| (e.field@, e.message@))
}

pub open spec fn issue_if(cond: bool, field: Seq<char>, message: Seq<char>) -> Seq<Issue> {
    if cond {
        seq![(field, message)]
    } else {
        seq![]
    }
}

pub open spec fn ssh_issues(ssh: SshEndpoint, prefix: Seq<char>) -> Seq<Issue> {
    issue_if(
        !is_valid_host_text(ssh.host@),
        prefix + "ssh.host"@,
        "SSH host must be a valid IP or hostname"@,
    ) + issue_if(ssh.port == 0, prefix + "ssh.port"@, "SSH port must be between 1 and 65535"@)
        + issue_if(is_blank_spec(ssh.username@), prefix + "ssh.username"@, "SSH username is required"@)
}

pub open spec fn auth_issues(auth: AuthConfig, prefix: Seq<char>, facts: MachineFacts) -> Seq<Issue> {
    match auth {
        AuthConfig::Password { secret_ref } => issue_if(
            is_blank_spec(secret_ref@),
            prefix + ".secretRef"@,
            "Password reference is missing"@,
        ),
        AuthConfig::PrivateKey { key_path, .. } => issue_if(
            is_blank_spec(key_path@),
            prefix + ".keyPath"@,
            "Private key path is required"@,
        ) + issue_if(
            !is_blank_spec(key_path@) && climbs(key_path@),
            prefix + ".keyPath"@,
            "Private key path must not contain a '..' component"@,
        ) + issue_if(
            !is_blank_spec(key_path@) && !climbs(key_path@) && !lists(facts.readable_keys@, key_path@),
            prefix + ".keyPath"@,
            "Private key file cannot be read"@,
        ),
        AuthConfig::PrivateKeyInline { key_ref, .. } => issue_if(
            is_blank_spec(key_ref@),
            prefix + ".keyRef"@,
            "Imported key reference is missing"@,
        ),
        _ => seq![],
    }
}

pub open spec fn proxy_issues(proxy: ProxyConfig, prefix: Seq<char>) -> Seq<Issue> {
    issue_if(
        !is_valid_host_text(proxy.host@),
        prefix + ".host"@,
        "Proxy host must be a valid IP or hostname"@,
    ) + issue_if(proxy.port == 0, prefix + ".port"@, "Proxy port must be between 1 and 65535"@)
}

pub open spec fn target_issues(
    kind: ForwardKind,
    target: Option<ForwardTarget>,
    prefix: Seq<char>,
) -> Seq<Issue> {
    match kind {
        ForwardKind::Dynamic => seq![],
        _ => match target {
            None => seq![
                (prefix + "target"@, "A target host and port are required for this tunnel type"@),
            ],
            Some(t) => issue_if(
                !is_valid_host_text(t.host@),
                prefix + "target.host"@,
                "Target host must be a valid IP or hostname"@,
            ) + issue_if(
                t.port == 0,
                prefix + "target.port"@,
                "Target port must be between 1 and 65535"@,
            ),
        },
    }
}

/// The field prefix of the `i`-th jump host.
pub open spec fn jump_prefix(prefix: Seq<char>, i: nat) -> Seq<char> {
    prefix + "jumpHosts["@ + decimal(i) + "]."@
}

/// The problems of the first `k` jump hosts.
pub open spec fn jump_issues(jumps: Seq<JumpHost>, prefix: Seq<char>, k: nat, facts: MachineFacts) -> Seq<Issue>
    decreases k,
{
    if k == 0 {
        seq![]
    } else {
        let i = (k - 1) as nat;
        jump_issues(jumps, prefix, i, facts) + ssh_issues(jumps[i as int].endpoint, jump_prefix(prefix, i))
            + auth_issues(jumps[i as int].auth, jump_prefix(prefix, i) + "auth"@, facts)
    }
}

/// The problems of a tunnel's name, server, login and listener.
pub open spec fn endpoint_issues(t: TunnelConfig, prefix: Seq<char>, facts: MachineFacts) -> Seq<Issue> {
    issue_if(is_blank_spec(t.name@), prefix + "name"@, "Name is required"@)
        + ssh_issues(t.ssh, prefix)
        + auth_issues(t.auth, prefix + "auth"@, facts)
        + issue_if(
        !bind_address_ok(t.listen.bind_address@, facts),
        prefix + "listen.bindAddress"@,
        "Bind address must be an IP address or a local interface address"@,
    ) + issue_if(
        t.kind == ForwardKind::Remote && t.listen.port == 0,
        prefix + "listen.port"@,
        "A remote forward requires an explicit port (1-65535)"@,
    )
}

/// The problems of a tunnel's target, proxy, jump hosts and reconnect policy.
pub open spec fn route_issues(t: TunnelConfig, prefix: Seq<char>, facts: MachineFacts) -> Seq<Issue> {
    target_issues(t.kind, t.target, prefix) + match t.proxy {
        Some(p) => proxy_issues(p, prefix + "proxy"@),
        None => seq![],
    } + jump_issues(t.jump_hosts@, prefix, t.jump_hosts@.len(), facts) + issue_if(
        t.reconnect.factor_milli < 1000,
        prefix + "reconnect.factor"@,
        "Backoff factor must be at least 1.0"@,
    ) + issue_if(
        t.reconnect.initial_delay_ms > t.reconnect.max_delay_ms,
        prefix + "reconnect.initialDelayMs"@,
        "Initial delay cannot exceed max delay"@,
    )
}

/// Every problem of one tunnel, in the order they are reported.
pub open spec fn tunnel_issues(t: TunnelConfig, prefix: Seq<char>, facts: MachineFacts) -> Seq<Issue> {
    endpoint_issues(t, prefix, facts) + route_issues(t, prefix, facts)
}

/// The field prefix of the `i`-th tunnel of a configuration.
pub open spec fn tunnel_prefix(i: nat) -> Seq<char> {
    "tunnels["@ + decimal(i) + "]."@
}

/// The problems of the first `k` tunnels of a configuration.
pub open spec fn config_issues(tunnels: Seq<TunnelConfig>, k: nat, facts: MachineFacts) -> Seq<Issue>
    decreases k,
{
    if k == 0 {
        seq![]
    } else {
        let i = (k - 1) as nat;
        config_issues(tunnels, i, facts) + tunnel_issues(tunnels[i as int], tunnel_prefix(i), facts)
    }
}

/// What a validation returns for a given list of problems.
pub open spec fn outcome(r: Result<(), Vec<ValidationError>>, issues: Seq<Issue>) -> bool {
    match r {
        Ok(()) => issues.len() == 0,
        Err(errs) => issues.len() > 0 && issues_of(errs@) == issues,
    }
}

/// Validate the entire configuration (every tunnel).
pub fn validate_app_config(cfg: &AppConfig, facts: &MachineFacts) -> (r: Result<(), Vec<ValidationError>>)
    ensures
        outcome(r, config_issues(cfg.tunnels@, cfg.tunnels@.len(), *facts)),
{
    let mut errs: Vec<ValidationError> = Vec::new();
    let n = cfg.tunnels.len();
    assert(issues_of(errs@) =~= config_issues(cfg.tunnels@, 0, *facts));
    for i in 0..n
        invariant
            n == cfg.tunnels@.len(),
            issues_of(errs@) == config_issues(cfg.tunnels@, i as nat, *facts),
    {
        let mut prefix = owned("tunnels[");
        push_decimal(&mut prefix, i as u64);
        push_str(&mut prefix, "].");
        assert(prefix@ =~= tunnel_prefix(i as nat));
        validate_tunnel_into(&cfg.tunnels[i], prefix.as_str(), &mut errs, facts);
    }
    finish(errs)
}

/// Validate a single tunnel in isolation.
pub fn validate_tunnel(tunnel: &TunnelConfig, facts: &MachineFacts) -> (r: Result<(), Vec<ValidationError>>)
    ensures
        outcome(r, tunnel_issues(*tunnel, seq![], *facts)),
{
    let mut errs: Vec<ValidationError> = Vec::new();
    proof {
        reveal_strlit("");
        assert(""@ =~= Seq::<char>::empty());
        assert(issues_of(errs@) =~= Seq::<Issue>::empty());
    }
    validate_tunnel_into(tunnel, "", &mut errs, facts);
    assert(issues_of(errs@) =~= tunnel_issues(*tunnel, seq![], *facts));
    finish(errs)
}

fn finish(errs: Vec<ValidationError>) -> (r: Result<(), Vec<ValidationError>>)
    ensures
        outcome(r, issues_of(errs@)),
{
    if errs.len() == 0 {
        Ok(())
    } else {
        Err(errs)
    }
}

/// The string `prefix` followed by `name`.
fn field(prefix: &str, name: &str) -> (r: String)
    ensures
        r@ == prefix@ + name@,
{
    let mut s = owned(prefix);
    push_str(&mut s, name);
    s
}

fn report(errs: &mut Vec<ValidationError>, cond: bool, field: String, message: &str)
    ensures
        issues_of(final(errs)@) == issues_of(old(errs)@) + issue_if(cond, field@, message@),
{
    let ghost before = errs@;
    if cond {
        errs.push(ValidationError::new(field, message));
        assert(issues_of(errs@) =~= issues_of(before) + issue_if(cond, field@, message@));
    } else {
        assert(issues_of(errs@) =~= issues_of(before) + issue_if(cond, field@, message@));
    }
}

/// Append the problems of `t` to `errs`, each field name under `prefix`.
/// What `errs` held before stays as it was, in front.
pub fn validate_tunnel_into(t: &TunnelConfig, prefix: &str, errs: &mut Vec<ValidationError>, facts: &MachineFacts)
    ensures
        issues_of(final(errs)@) == issues_of(old(errs)@) + tunnel_issues(*t, prefix@, *facts),
        old(errs)@.len() <= final(errs)@.len(),
        forall|j: int|
            old(errs)@.len() <= j < final(errs)@.len() ==> prefix@.is_prefix_of(
                #[trigger] final(errs)@[j].field@,
            ),
{
    let ghost before = issues_of(errs@);
    let ghost n0 = errs@.len();
    validate_endpoint(t, prefix, errs, facts);
    validate_route(t, prefix, errs, facts);
    assert(issues_of(errs@) =~= before + tunnel_issues(*t, prefix@, *facts));
    proof {
        let all = tunnel_issues(*t, prefix@, *facts);
        law_tunnel_issue_fields_start_with_prefix(*t, prefix@, *facts);
        assert(issues_of(errs@).len() == errs@.len());
        assert forall|j: int| n0 <= j < errs@.len() implies prefix@.is_prefix_of(
            #[trigger] errs@[j].field@,
        ) by {
            assert(issues_of(errs@)[j] == (errs@[j].field@, errs@[j].message@));
            assert(before.len() == n0);
            assert(issues_of(errs@)[j] == (before + all)[j]);
            assert((before + all)[j] == all[j - n0]);
            assert(prefix@.is_prefix_of(tunnel_issues(*t, prefix@, *facts)[j - n0].0));
        }
    }
}

#[verifier::rlimit(40)]
fn validate_endpoint(t: &TunnelConfig, prefix: &str, errs: &mut Vec<ValidationError>, facts: &MachineFacts)
    ensures
        issues_of(final(errs)@) == issues_of(old(errs)@) + endpoint_issues(*t, prefix@, *facts),
{
    let ghost before = issues_of(errs@);
    report(errs, is_blank(t.name.as_str()), field(prefix, "name"), "Name is required");
    validate_ssh(&t.ssh, prefix, errs);
    let auth_prefix = field(prefix, "auth");
    validate_auth(&t.auth, auth_prefix.as_str(), errs, facts);
    let bind_ok = is_ip_literal(t.listen.bind_address.as_str()) || listed(
        &facts.local_addresses,
        t.listen.bind_address.as_str(),
    );
    report(
        errs,
        !bind_ok,
        field(prefix, "listen.bindAddress"),
        "Bind address must be an IP address or a local interface address",
    );
    let remote_auto = match t.kind {
        ForwardKind::Remote => t.listen.port == 0,
        _ => false,
    };
    report(
        errs,
        remote_auto,
        field(prefix, "listen.port"),
        "A remote forward requires an explicit port (1-65535)",
    );
    assert(issues_of(errs@) =~= before + endpoint_issues(*t, prefix@, *facts));
}

fn validate_route(t: &TunnelConfig, prefix: &str, errs: &mut Vec<ValidationError>, facts: &MachineFacts)
    ensures
        issues_of(final(errs)@) == issues_of(old(errs)@) + route_issues(*t, prefix@, *facts),
{
    let ghost before = issues_of(errs@);
    validate_target(t.kind, &t.target, prefix, errs);
    let ghost after_target = issues_of(errs@);
    match &t.proxy {
        Some(proxy) => {
            let proxy_prefix = field(prefix, "proxy");
            validate_proxy(proxy, proxy_prefix.as_str(), errs);
        },
        None => {},
    }
    let ghost after_proxy = issues_of(errs@);
    validate_jumps(&t.jump_hosts, prefix, errs, facts);
    report(
        errs,
        t.reconnect.factor_milli < 1000,
        field(prefix, "reconnect.factor"),
        "Backoff factor must be at least 1.0",
    );
    report(
        errs,
        t.reconnect.initial_delay_ms > t.reconnect.max_delay_ms,
        field(prefix, "reconnect.initialDelayMs"),
        "Initial delay cannot exceed max delay",
    );
    assert(issues_of(errs@) =~= before + route_issues(*t, prefix@, *facts));
}

fn validate_target(
    kind: ForwardKind,
    target: &Option<ForwardTarget>,
    prefix: &str,
    errs: &mut Vec<ValidationError>,
)
    ensures
        issues_of(final(errs)@) == issues_of(old(errs)@) + target_issues(kind, *target, prefix@),
{
    let ghost before = issues_of(errs@);
    match kind {
        ForwardKind::Dynamic => {},
        _ => match target {
            None => {
                report(
                    errs,
                    true,
                    field(prefix, "target"),
                    "A target host and port are required for this tunnel type",
                );
            },
            Some(target) => {
                report(
                    errs,
                    !is_valid_host(target.host.as_str()),
                    field(prefix, "target.host"),
                    "Target host must be a valid IP or hostname",
                );
                report(
                    errs,
                    target.port == 0,
                    field(prefix, "target.port"),
                    "Target port must be between 1 and 65535",
                );
            },
        },
    }
    assert(issues_of(errs@) =~= before + target_issues(kind, *target, prefix@));
}

fn validate_jumps(jumps: &Vec<JumpHost>, prefix: &str, errs: &mut Vec<ValidationError>, facts: &MachineFacts)
    ensures
        issues_of(final(errs)@) == issues_of(old(errs)@) + jump_issues(
            jumps@,
            prefix@,
            jumps@.len(),
            *facts,
        ),
{
    let ghost before = issues_of(errs@);
    let ghost p = prefix@;
    let n = jumps.len();
    assert(issues_of(errs@) =~= before + jump_issues(jumps@, p, 0, *facts));
    for i in 0..n
        invariant
            n == jumps@.len(),
            p == prefix@,
            issues_of(errs@) == before + jump_issues(jumps@, p, i as nat, *facts),
    {
        let jump = &jumps[i];
        let mut jp = owned(prefix);
        push_str(&mut jp, "jumpHosts[");
        push_decimal(&mut jp, i as u64);
        push_str(&mut jp, "].");
        assert(jp@ =~= jump_prefix(p, i as nat));
        validate_ssh(&jump.endpoint, jp.as_str(), errs);
        let jump_auth = field(jp.as_str(), "auth");
        validate_auth(&jump.auth, jump_auth.as_str(), errs, facts);
        assert(issues_of(errs@) =~= before + jump_issues(jumps@, p, (i + 1) as nat, *facts));
    }
}

fn validate_ssh(ssh: &SshEndpoint, prefix: &str, errs: &mut Vec<ValidationError>)
    ensures
        issues_of(final(errs)@) == issues_of(old(errs)@) + ssh_issues(*ssh, prefix@),
{
    let ghost before = issues_of(errs@);
    report(
        errs,
        !is_valid_host(ssh.host.as_str()),
        field(prefix, "ssh.host"),
        "SSH host must be a valid IP or hostname",
    );
    report(errs, ssh.port == 0, field(prefix, "ssh.port"), "SSH port must be between 1 and 65535");
    report(
        errs,
        is_blank(ssh.username.as_str()),
        field(prefix, "ssh.username"),
        "SSH username is required",
    );
    assert(issues_of(errs@) =~= before + ssh_issues(*ssh, prefix@));
}

fn validate_auth(auth: &AuthConfig, prefix: &str, errs: &mut Vec<ValidationError>, facts: &MachineFacts)
    ensures
        issues_of(final(errs)@) == issues_of(old(errs)@) + auth_issues(*auth, prefix@, *facts),
{
    let ghost before = issues_of(errs@);
    match auth {
        AuthConfig::Password { secret_ref } => {
            report(
                errs,
                is_blank(secret_ref.as_str()),
                field(prefix, ".secretRef"),
                "Password reference is missing",
            );
        },
        AuthConfig::PrivateKey { key_path, .. } => {
            let blank = is_blank(key_path.as_str());
            report(errs, blank, field(prefix, ".keyPath"), "Private key path is required");
            let up = climbs_out(key_path.as_str());
            report(
                errs,
                !blank && up,
                field(prefix, ".keyPath"),
                "Private key path must not contain a '..' component",
            );
            let unreadable = !blank && !up && !listed(&facts.readable_keys, key_path.as_str());
            report(errs, unreadable, field(prefix, ".keyPath"), "Private key file cannot be read");
        },
        AuthConfig::PrivateKeyInline { key_ref, .. } => {
            report(
                errs,
                is_blank(key_ref.as_str()),
                field(prefix, ".keyRef"),
                "Imported key reference is missing",
            );
        },
        _ => {},
    }
    assert(issues_of(errs@) =~= before + auth_issues(*auth, prefix@, *facts));
}

fn validate_proxy(proxy: &ProxyConfig, prefix: &str, errs: &mut Vec<ValidationError>)
    ensures
        issues_of(final(errs)@) == issues_of(old(errs)@) + proxy_issues(*proxy, prefix@),
{
    let ghost before = issues_of(errs@);
    report(
        errs,
        !is_valid_host(proxy.host.as_str()),
        field(prefix, ".host"),
        "Proxy host must be a valid IP or hostname",
    );
    report(
        errs,
        proxy.port == 0,
        field(prefix, ".port"),
        "Proxy port must be between 1 and 65535",
    );
    assert(issues_of(errs@) =~= before + proxy_issues(*proxy, prefix@));
}

// ---------------------------------------------------------------------------
// A tunnel inside a configuration is judged as it is on its own.
// ---------------------------------------------------------------------------

/// The problems `issues` with `p` put before each field name.
pub open spec fn prefixed(p: Seq<char>, issues: Seq<Issue>) -> Seq<Issue> {
    issues.map_values(|x: Issue| (p + x.0, x.1))
}

proof fn lemma_prefixed_add(p: Seq<char>, a: Seq<Issue>, b: Seq<Issue>)
    ensures
        prefixed(p, a + b) == prefixed(p, a) + prefixed(p, b),
{
    assert(prefixed(p, a + b) =~= prefixed(p, a) + prefixed(p, b));
}

proof fn lemma_issue_if_prefixed(p: Seq<char>, q: Seq<char>, cond: bool, name: Seq<char>, m: Seq<char>)
    ensures
        issue_if(cond, (p + q) + name, m) == prefixed(p, issue_if(cond, q + name, m)),
{
    assert((p + q) + name =~= p + (q + name));
    assert(issue_if(cond, (p + q) + name, m) =~= prefixed(p, issue_if(cond, q + name, m)));
}

proof fn lemma_ssh_prefixed(ssh: SshEndpoint, p: Seq<char>, q: Seq<char>)
    ensures
        ssh_issues(ssh, p + q) == prefixed(p, ssh_issues(ssh, q)),
{
    let a = issue_if(!is_valid_host_text(ssh.host@), q + "ssh.host"@, "SSH host must be a valid IP or hostname"@);
    let b = issue_if(ssh.port == 0, q + "ssh.port"@, "SSH port must be between 1 and 65535"@);
    let c = issue_if(is_blank_spec(ssh.username@), q + "ssh.username"@, "SSH username is required"@);
    lemma_issue_if_prefixed(p, q, !is_valid_host_text(ssh.host@), "ssh.host"@, "SSH host must be a valid IP or hostname"@);
    lemma_issue_if_prefixed(p, q, ssh.port == 0, "ssh.port"@, "SSH port must be between 1 and 65535"@);
    lemma_issue_if_prefixed(p, q, is_blank_spec(ssh.username@), "ssh.username"@, "SSH username is required"@);
    lemma_prefixed_add(p, a, b);
    lemma_prefixed_add(p, a + b, c);
}

proof fn lemma_auth_prefixed(auth: AuthConfig, p: Seq<char>, q: Seq<char>, facts: MachineFacts)
    ensures
        auth_issues(auth, p + q, facts) == prefixed(p, auth_issues(auth, q, facts)),
{
    match auth {
        AuthConfig::Password { secret_ref } => {
            lemma_issue_if_prefixed(p, q, is_blank_spec(secret_ref@), ".secretRef"@, "Password reference is missing"@);
        },
        AuthConfig::PrivateKey { key_path, .. } => {
            let b = is_blank_spec(key_path@);
            let u = !b && climbs(key_path@);
            let c = !b && !climbs(key_path@) && !lists(facts.readable_keys@, key_path@);
            let m = "Private key path must not contain a '..' component"@;
            lemma_issue_if_prefixed(p, q, b, ".keyPath"@, "Private key path is required"@);
            lemma_issue_if_prefixed(p, q, u, ".keyPath"@, m);
            lemma_issue_if_prefixed(p, q, c, ".keyPath"@, "Private key file cannot be read"@);
            let x = issue_if(b, q + ".keyPath"@, "Private key path is required"@);
            let y = issue_if(u, q + ".keyPath"@, m);
            let z = issue_if(c, q + ".keyPath"@, "Private key file cannot be read"@);
            lemma_prefixed_add(p, x, y);
            lemma_prefixed_add(p, x + y, z);
        },
        AuthConfig::PrivateKeyInline { key_ref, .. } => {
            lemma_issue_if_prefixed(p, q, is_blank_spec(key_ref@), ".keyRef"@, "Imported key reference is missing"@);
        },
        _ => {
            assert(prefixed(p, seq![]) =~= seq![]);
        },
    }
}

proof fn lemma_proxy_prefixed(proxy: ProxyConfig, p: Seq<char>, q: Seq<char>)
    ensures
        proxy_issues(proxy, p + q) == prefixed(p, proxy_issues(proxy, q)),
{
    let a = issue_if(!is_valid_host_text(proxy.host@), q + ".host"@, "Proxy host must be a valid IP or hostname"@);
    let b = issue_if(proxy.port == 0, q + ".port"@, "Proxy port must be between 1 and 65535"@);
    lemma_issue_if_prefixed(p, q, !is_valid_host_text(proxy.host@), ".host"@, "Proxy host must be a valid IP or hostname"@);
    lemma_issue_if_prefixed(p, q, proxy.port == 0, ".port"@, "Proxy port must be between 1 and 65535"@);
    lemma_prefixed_add(p, a, b);
}

proof fn lemma_target_prefixed(kind: ForwardKind, target: Option<ForwardTarget>, p: Seq<char>, q: Seq<char>)
    ensures
        target_issues(kind, target, p + q) == prefixed(p, target_issues(kind, target, q)),
{
    match kind {
        ForwardKind::Dynamic => {
            assert(prefixed(p, seq![]) =~= seq![]);
        },
        _ => match target {
            None => {
                assert((p + q) + "target"@ =~= p + (q + "target"@));
                assert(target_issues(kind, target, p + q) =~= prefixed(p, target_issues(kind, target, q)));
            },
            Some(t) => {
                let a = issue_if(!is_valid_host_text(t.host@), q + "target.host"@, "Target host must be a valid IP or hostname"@);
                let b = issue_if(t.port == 0, q + "target.port"@, "Target port must be between 1 and 65535"@);
                lemma_issue_if_prefixed(p, q, !is_valid_host_text(t.host@), "target.host"@, "Target host must be a valid IP or hostname"@);
                lemma_issue_if_prefixed(p, q, t.port == 0, "target.port"@, "Target port must be between 1 and 65535"@);
                lemma_prefixed_add(p, a, b);
            },
        },
    }
}

proof fn lemma_jumps_prefixed(jumps: Seq<JumpHost>, p: Seq<char>, q: Seq<char>, k: nat, facts: MachineFacts)
    ensures
        jump_issues(jumps, p + q, k, facts) == prefixed(p, jump_issues(jumps, q, k, facts)),
    decreases k,
{
    if k == 0 {
        assert(prefixed(p, seq![]) =~= seq![]);
    } else {
        let i = (k - 1) as nat;
        lemma_jumps_prefixed(jumps, p, q, i, facts);
        assert(jump_prefix(p + q, i) =~= p + jump_prefix(q, i));
        assert(jump_prefix(p + q, i) + "auth"@ =~= p + (jump_prefix(q, i) + "auth"@));
        lemma_ssh_prefixed(jumps[i as int].endpoint, p, jump_prefix(q, i));
        lemma_auth_prefixed(jumps[i as int].auth, p, jump_prefix(q, i) + "auth"@, facts);
        let a = jump_issues(jumps, q, i, facts);
        let b = ssh_issues(jumps[i as int].endpoint, jump_prefix(q, i));
        let c = auth_issues(jumps[i as int].auth, jump_prefix(q, i) + "auth"@, facts);
        lemma_prefixed_add(p, a, b);
        lemma_prefixed_add(p, a + b, c);
    }
}

proof fn lemma_tunnel_prefixed(t: TunnelConfig, p: Seq<char>, q: Seq<char>, facts: MachineFacts)
    ensures
        tunnel_issues(t, p + q, facts) == prefixed(p, tunnel_issues(t, q, facts)),
{
    // The name, server, login and listener.
    let a1 = issue_if(is_blank_spec(t.name@), q + "name"@, "Name is required"@);
    let a2 = ssh_issues(t.ssh, q);
    let a3 = auth_issues(t.auth, q + "auth"@, facts);
    let a4 = issue_if(!bind_address_ok(t.listen.bind_address@, facts), q + "listen.bindAddress"@, "Bind address must be an IP address or a local interface address"@);
    let a5 = issue_if(t.kind == ForwardKind::Remote && t.listen.port == 0, q + "listen.port"@, "A remote forward requires an explicit port (1-65535)"@);
    lemma_issue_if_prefixed(p, q, is_blank_spec(t.name@), "name"@, "Name is required"@);
    lemma_ssh_prefixed(t.ssh, p, q);
    assert((p + q) + "auth"@ =~= p + (q + "auth"@));
    lemma_auth_prefixed(t.auth, p, q + "auth"@, facts);
    lemma_issue_if_prefixed(p, q, !bind_address_ok(t.listen.bind_address@, facts), "listen.bindAddress"@, "Bind address must be an IP address or a local interface address"@);
    lemma_issue_if_prefixed(p, q, t.kind == ForwardKind::Remote && t.listen.port == 0, "listen.port"@, "A remote forward requires an explicit port (1-65535)"@);
    lemma_prefixed_add(p, a1, a2);
    lemma_prefixed_add(p, a1 + a2, a3);
    lemma_prefixed_add(p, a1 + a2 + a3, a4);
    lemma_prefixed_add(p, a1 + a2 + a3 + a4, a5);
    // The target, proxy, jump hosts and reconnect policy.
    let b1 = target_issues(t.kind, t.target, q);
    let b2 = match t.proxy {
        Some(x) => proxy_issues(x, q + "proxy"@),
        None => seq![],
    };
    let b3 = jump_issues(t.jump_hosts@, q, t.jump_hosts@.len(), facts);
    let b4 = issue_if(t.reconnect.factor_milli < 1000, q + "reconnect.factor"@, "Backoff factor must be at least 1.0"@);
    let b5 = issue_if(t.reconnect.initial_delay_ms > t.reconnect.max_delay_ms, q + "reconnect.initialDelayMs"@, "Initial delay cannot exceed max delay"@);
    lemma_target_prefixed(t.kind, t.target, p, q);
    match t.proxy {
        Some(x) => {
            assert((p + q) + "proxy"@ =~= p + (q + "proxy"@));
            lemma_proxy_prefixed(x, p, q + "proxy"@);
        },
        None => {
            assert(prefixed(p, seq![]) =~= seq![]);
        },
    }
    lemma_jumps_prefixed(t.jump_hosts@, p, q, t.jump_hosts@.len(), facts);
    lemma_issue_if_prefixed(p, q, t.reconnect.factor_milli < 1000, "reconnect.factor"@, "Backoff factor must be at least 1.0"@);
    lemma_issue_if_prefixed(p, q, t.reconnect.initial_delay_ms > t.reconnect.max_delay_ms, "reconnect.initialDelayMs"@, "Initial delay cannot exceed max delay"@);
    lemma_prefixed_add(p, b1, b2);
    lemma_prefixed_add(p, b1 + b2, b3);
    lemma_prefixed_add(p, b1 + b2 + b3, b4);
    lemma_prefixed_add(p, b1 + b2 + b3 + b4, b5);
    lemma_prefixed_add(p, endpoint_issues(t, q, facts), route_issues(t, q, facts));
}

/// Validating a tunnel under a field prefix reports exactly the problems of
/// validating it alone, each with the prefix before its field name.
pub proof fn law_tunnel_issues_under_prefix(t: TunnelConfig, p: Seq<char>, facts: MachineFacts)
    ensures
        tunnel_issues(t, p, facts) == prefixed(p, tunnel_issues(t, seq![], facts)),
{
    lemma_tunnel_prefixed(t, p, seq![], facts);
    assert(p + seq![] =~= p);
}

/// Every problem of a tunnel validated under a field prefix names a field
/// that starts with that prefix.
pub proof fn law_tunnel_issue_fields_start_with_prefix(t: TunnelConfig, p: Seq<char>, facts: MachineFacts)
    ensures
        forall|i: int|
            0 <= i < tunnel_issues(t, p, facts).len() ==> p.is_prefix_of(
                #[trigger] tunnel_issues(t, p, facts)[i].0,
            ),
{
    law_tunnel_issues_under_prefix(t, p, facts);
    let alone = tunnel_issues(t, seq![], facts);
    assert forall|i: int| 0 <= i < tunnel_issues(t, p, facts).len() implies p.is_prefix_of(
        #[trigger] tunnel_issues(t, p, facts)[i].0,
    ) by {
        assert(tunnel_issues(t, p, facts)[i].0 == p + alone[i].0);
        assert((p + alone[i].0).subrange(0, p.len() as int) =~= p);
    }
}

/// The problems of jump host `k` are those of its server and login checked
/// on their own, reported under `jumpHosts[k].` after the tunnel's prefix.
pub proof fn law_jump_host_issues_under_its_prefix(
    jumps: Seq<JumpHost>,
    p: Seq<char>,
    k: nat,
    facts: MachineFacts,
)
    ensures
        jump_issues(jumps, p, k + 1, facts) == jump_issues(jumps, p, k, facts) + prefixed(
            jump_prefix(p, k),
            ssh_issues(jumps[k as int].endpoint, seq![]) + auth_issues(jumps[k as int].auth, "auth"@, facts),
        ),
{
    let jp = jump_prefix(p, k);
    assert(jp + seq![] =~= jp);
    lemma_ssh_prefixed(jumps[k as int].endpoint, jp, seq![]);
    lemma_auth_prefixed(jumps[k as int].auth, jp, "auth"@, facts);
    lemma_prefixed_add(
        jp,
        ssh_issues(jumps[k as int].endpoint, seq![]),
        auth_issues(jumps[k as int].auth, "auth"@, facts),
    );
    assert(jump_issues(jumps, p, k + 1, facts) =~= jump_issues(jumps, p, k, facts) + ssh_issues(
        jumps[k as int].endpoint,
        jp,
    ) + auth_issues(jumps[k as int].auth, jp + "auth"@, facts));
}

/// A configuration is valid exactly when each of its tunnels is valid on its own.
pub proof fn law_config_valid_iff_each_tunnel_valid(tunnels: Seq<TunnelConfig>, facts: MachineFacts)
    ensures
        config_issues(tunnels, tunnels.len(), facts).len() == 0 <==> forall|i: int|
            0 <= i < tunnels.len() ==> #[trigger] tunnel_issues(tunnels[i], seq![], facts).len() == 0,
{
    lemma_config_valid_prefix(tunnels, tunnels.len(), facts);
}

proof fn lemma_config_valid_prefix(tunnels: Seq<TunnelConfig>, k: nat, facts: MachineFacts)
    requires
        k <= tunnels.len(),
    ensures
        config_issues(tunnels, k, facts).len() == 0 <==> forall|i: int|
            0 <= i < k ==> #[trigger] tunnel_issues(tunnels[i], seq![], facts).len() == 0,
    decreases k,
{
    if k > 0 {
        let i = (k - 1) as nat;
        lemma_config_valid_prefix(tunnels, i, facts);
        law_tunnel_issues_under_prefix(tunnels[i as int], tunnel_prefix(i), facts);
        if config_issues(tunnels, k, facts).len() == 0 {
            assert forall|j: int| 0 <= j < k implies #[trigger] tunnel_issues(tunnels[j], seq![], facts).len() == 0 by {
                if j < i {
                    assert(config_issues(tunnels, i, facts).len() == 0);
                }
            }
        }
    }
}

} // verus!
