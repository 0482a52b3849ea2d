//! The logic behind starting tunnels: finding a tunnel by id, choosing which
//! tunnels start together, and gathering the secrets a tunnel needs from the
//! OS keychain.
use vstd::prelude::*;

use crate::error::Error;
use crate::model::auth_config::AuthConfig;
use crate::model::tunnel_config::TunnelConfig;
use crate::seqs::{index_of, lemma_index_of};
use crate::store::keychain_store::get_secret;
use crate::text::{owned, push_char, push_uuid, uuid_text};
use crate::tunnel::session::{no_secrets, ConnectSecrets};

verus! {

/// Where a secret read for an auth method is kept.
#[derive(Debug, Clone, Copy, PartialEq, Eq, Structural)]
pub enum SecretSlot {
    Password,
    Passphrase,
}

/// The keychain entry an auth method reads, and where its secret goes: a
/// password login reads its password, a key login its passphrase (when it
/// has one), a keyboard-interactive login its answer (when it has one).
pub open spec fn auth_secret(auth: AuthConfig) -> Option<(SecretSlot, Seq<char>)> {
    match auth {
        AuthConfig::Password { secret_ref } => Some((SecretSlot::Password, secret_ref@)),
        AuthConfig::PrivateKey { passphrase_ref: Some(r), .. } => Some((SecretSlot::Passphrase, r@)),
        AuthConfig::KeyboardInteractive { secret_ref: Some(r) } => Some((SecretSlot::Password, r@)),
        _ => None,
    }
}

/// `s` with the secret in `slot` replaced by `v`.
pub open spec fn with_secret(s: ConnectSecrets, slot: SecretSlot, v: Option<String>) -> ConnectSecrets {
    match slot {
        SecretSlot::Password => ConnectSecrets { password: v, ..s },
        SecretSlot::Passphrase => ConnectSecrets { passphrase: v, ..s },
    }
}

/// Keeps `value` (what the keychain gave for the entry) in `slot`.
pub fn store_secret(into: &mut ConnectSecrets, slot: SecretSlot, value: Option<String>)
    ensures
        *final(into) == with_secret(*old(into), slot, value),
{
    match slot {
        SecretSlot::Password => into.password = value,
        SecretSlot::Passphrase => into.passphrase = value,
    }
}

/// The keychain entry that `auth` reads, and where its secret goes.
pub fn auth_secret_ref(auth: &AuthConfig) -> (r: Option<(SecretSlot, &String)>)
    ensures
        match r {
            None => auth_secret(*auth) is None,
            Some((slot, reference)) => auth_secret(*auth) == Some((slot, reference@)),
        },
{
    match auth {
        AuthConfig::Password { secret_ref } => Some((SecretSlot::Password, secret_ref)),
        AuthConfig::PrivateKey { passphrase_ref: Some(r), .. } => Some((SecretSlot::Passphrase, r)),
        AuthConfig::KeyboardInteractive { secret_ref: Some(r) } => Some((SecretSlot::Password, r)),
        _ => None,
    }
}

/// Reads the secret of one auth method into `into`: the entry named by
/// `auth_secret_ref` is looked up in the keychain. What the keychain holds is
/// not known here: on success the slot holds whatever it gave.
pub fn resolve_auth(auth: &AuthConfig, into: &mut ConnectSecrets) -> (r: Result<(), Error>)
    ensures
        match auth_secret(*auth) {
            None => r is Ok && *final(into) == *old(into),
            Some((slot, _)) => {
                &&& r matches Err(e) ==> e is Keychain && *final(into) == *old(into)
                &&& r is Ok ==> exists|v: Option<String>| *final(into) == with_secret(*old(into), slot, v)
            },
        },
{
    let (slot, reference) = match auth_secret_ref(auth) {
        Some(found) => found,
        None => {
            return Ok(());
        },
    };
    let value = get_secret(reference.as_str())?;
    let ghost before = *into;
    store_secret(into, slot, value);
    assert(*into == with_secret(before, slot, value));
    Ok(())
}

/// Proxy credentials are kept in one keychain entry as `user\npassword`:
/// the user is what precedes the first line break, the password what
/// follows it (empty when there is no line break).
pub open spec fn proxy_credentials_spec(raw: Seq<char>) -> (Seq<char>, Seq<char>) {
    let k = index_of(raw, '\n');
    if k < raw.len() {
        (raw.take(k as int), raw.skip(k + 1int))
    } else {
        (raw, Seq::empty())
    }
}

pub fn proxy_credentials(raw: &str) -> (r: (String, String))
    ensures
        (r.0@, r.1@) == proxy_credentials_spec(raw@),
{
    let mut user = String::new();
    let mut pass = String::new();
    let mut seen = false;
    proof {
        lemma_index_of(raw@, '\n');
    }
    let ghost k = index_of(raw@, '\n');
    assert(user@ =~= Seq::<char>::empty());
    assert(pass@ =~= Seq::<char>::empty());
    for c in it: raw.chars()
        invariant
            it.seq() == raw@,
            k == index_of(raw@, '\n'),
            k <= raw@.len(),
            forall|j: int| 0 <= j < k ==> raw@[j] != '\n',
            k < raw@.len() ==> raw@[k as int] == '\n',
            seen <==> k < it.index(),
            !seen ==> user@ == raw@.take(it.index() as int) && pass@ == Seq::<char>::empty(),
            seen ==> user@ == raw@.take(k as int) && pass@ == raw@.subrange(k + 1int, it.index() as int),
    {
        let ghost i = it.index();
        if seen {
            push_char(&mut pass, c);
            assert(pass@ =~= raw@.subrange(k + 1int, i + 1));
        } else if c == '\n' {
            seen = true;
            assert(raw@.subrange(k + 1int, i + 1) =~= Seq::<char>::empty());
        } else {
            push_char(&mut user, c);
            assert(user@ =~= raw@.take(i + 1));
        }
    }
    assert(raw@.take(raw@.len() as int) =~= raw@);
    assert(raw@.subrange(k + 1int, raw@.len() as int) =~= raw@.skip(k + 1int));
    (user, pass)
}

/// What a secret set has for a hop authenticated with `auth`: nothing but
/// the slot that `auth` reads, which may hold anything the keychain gave.
pub open spec fn hop_secrets(auth: AuthConfig, s: ConnectSecrets) -> bool {
    &&& s.proxy_auth is None
    &&& s.jumps@.len() == 0
    &&& match auth_secret(auth) {
        None => s.password is None && s.passphrase is None,
        Some((SecretSlot::Password, _)) => s.passphrase is None,
        Some((SecretSlot::Passphrase, _)) => s.password is None,
    }
}

/// The keychain entry holding the proxy credentials of `t`, if any.
pub open spec fn proxy_secret(t: TunnelConfig) -> Option<Seq<char>> {
    match t.proxy {
        Some(p) => match p.auth_ref {
            Some(r) => Some(r@),
            None => None,
        },
        None => None,
    }
}

/// The keychain entry holding the proxy credentials of `t`, if any.
pub fn proxy_secret_ref(t: &TunnelConfig) -> (r: Option<&String>)
    ensures
        match r {
            None => proxy_secret(*t) is None,
            Some(reference) => proxy_secret(*t) == Some(reference@),
        },
{
    match &t.proxy {
        Some(p) => match &p.auth_ref {
            Some(r) => Some(r),
            None => None,
        },
        None => None,
    }
}

/// No keychain entry needs to be read for `t`.
pub open spec fn needs_no_keychain(t: TunnelConfig) -> bool {
    &&& auth_secret(t.auth) is None
    &&& proxy_secret(t) is None
    &&& forall|i: int| 0 <= i < t.jump_hosts@.len() ==> #[trigger] auth_secret(t.jump_hosts@[i].auth) is None
}

/// Gathers every secret a tunnel needs from the OS keychain: the server
/// login, the proxy credentials, and each jump host's login, in order.
pub fn resolve_secrets(tunnel: &TunnelConfig) -> (r: Result<ConnectSecrets, Error>)
    ensures
        r matches Err(e) ==> e is Keychain,
        needs_no_keychain(*tunnel) ==> r is Ok,
        r matches Ok(s) ==> {
            &&& (match auth_secret(tunnel.auth) {
                None => s.password is None && s.passphrase is None,
                Some((SecretSlot::Password, _)) => s.passphrase is None,
                Some((SecretSlot::Passphrase, _)) => s.password is None,
            })
            &&& proxy_secret(*tunnel) is None ==> s.proxy_auth is None
            &&& (s.proxy_auth matches Some(c) ==> exists|raw: Seq<char>|
                (c.0@, c.1@) == proxy_credentials_spec(raw))
            &&& s.jumps@.len() == tunnel.jump_hosts@.len()
            &&& forall|i: int|
                0 <= i < s.jumps@.len() ==> hop_secrets(tunnel.jump_hosts@[i].auth, #[trigger] s.jumps@[i])
        },
{
    let mut secrets = ConnectSecrets::default();
    resolve_auth(&tunnel.auth, &mut secrets)?;
    if let Some(reference) = proxy_secret_ref(tunnel) {
        if let Some(raw) = get_secret(reference.as_str())? {
            let creds = proxy_credentials(raw.as_str());
            secrets.proxy_auth = Some(creds);
        }
    }
    let n = tunnel.jump_hosts.len();
    for k in 0..n
        invariant
            n == tunnel.jump_hosts@.len(),
            secrets.jumps@.len() == k,
            forall|i: int|
                0 <= i < k ==> hop_secrets(tunnel.jump_hosts@[i].auth, #[trigger] secrets.jumps@[i]),
            (match auth_secret(tunnel.auth) {
                None => secrets.password is None && secrets.passphrase is None,
                Some((SecretSlot::Password, _)) => secrets.passphrase is None,
                Some((SecretSlot::Passphrase, _)) => secrets.password is None,
            }),
            proxy_secret(*tunnel) is None ==> secrets.proxy_auth is None,
            secrets.proxy_auth matches Some(c) ==> exists|raw: Seq<char>|
                (c.0@, c.1@) == proxy_credentials_spec(raw),
    {
        let mut hop = ConnectSecrets::default();
        resolve_auth(&tunnel.jump_hosts[k].auth, &mut hop)?;
        secrets.jumps.push(hop);
    }
    Ok(secrets)
}

/// The first tunnel with id `id`.
pub open spec fn first_with_id(tunnels: Seq<TunnelConfig>, id: u128, i: int) -> bool {
    &&& 0 <= i < tunnels.len()
    &&& tunnels[i].id == id
    &&& forall|j: int| 0 <= j < i ==> #[trigger] tunnels[j].id != id
}

/// Takes the first tunnel with the given id out of `tunnels`; `NotFound`
/// ("tunnel <id>") when there is none.
pub fn find_tunnel(tunnels: Vec<TunnelConfig>, id: u128) -> (r: Result<TunnelConfig, Error>)
    ensures
        (exists|i: int| 0 <= i < tunnels@.len() && #[trigger] tunnels@[i].id == id) <==> r is Ok,
        r matches Ok(t) ==> exists|i: int| first_with_id(tunnels@, id, i) && t == tunnels@[i],
        r matches Err(e) ==> e matches Error::NotFound(m) && m@ == "tunnel "@ + uuid_text(id),
{
    let mut list = tunnels;
    let ghost all = list@;
    let mut i: usize = 0;
    while i < list.len()
        invariant
            list@ == all,
            all == tunnels@,
            i <= all.len(),
            forall|j: int| 0 <= j < i ==> #[trigger] all[j].id != id,
        decreases all.len() - i,
    {
        if list[i].id == id {
            let t = list.remove(i);
            assert(first_with_id(all, id, i as int));
            return Ok(t);
        }
        i = i + 1;
    }
    let mut m = owned("tunnel ");
    push_uuid(&mut m, id);
    Err(Error::NotFound(m))
}

/// The enabled tunnels, in order: those "start all" starts.
pub fn tunnels_to_start(tunnels: Vec<TunnelConfig>) -> (r: Vec<TunnelConfig>)
    ensures
        r@ == tunnels@.filter(|t: TunnelConfig| t.enabled),
{
    let ghost all = tunnels@;
    let ghost enabled = |t: TunnelConfig| t.enabled;
    let mut r: Vec<TunnelConfig> = Vec::new();
    broadcast use vstd::seq_lib::group_seq_properties;
    assert(all.take(0).filter(enabled) =~= Seq::<TunnelConfig>::empty()) by {
        reveal(Seq::filter);
    }
    for t in it: tunnels.into_iter()
        invariant
            it.seq() == all,
            enabled == (|t: TunnelConfig| t.enabled),
            r@ == all.take(it.index() as int).filter(enabled),
    {
        let ghost i = it.index();
        proof {
            assert(t == all[i as int]);
            assert(all.take(i + 1) =~= all.take(i as int).push(t));
            all.take(i as int).lemma_filter_push(t, enabled);
        }
        if t.enabled {
            r.push(t);
        }
    }
    assert(all.take(all.len() as int) =~= all);
    r
}

} // verus!
