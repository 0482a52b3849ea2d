# Tunnelium engine

Tunnelium manages SSH tunnels — local (`-L`), remote (`-R`) and dynamic
(SOCKS5, `-D`) forwards — with reconnect, proxies, jump hosts, host-key
pinning and secrets kept in the OS keychain.

## Layout

- `src/` — the engine's logic, verified with Verus: the configuration model
  and its validation, the reconnect policy and the per-tunnel supervisor,
  HTTP/SOCKS5 proxy messages, the local SOCKS5 server's parsing, SSH session
  and login decisions, host-key trust, the known-hosts file, keychain access,
  and the registry of running tunnels. Each public function states its result
  in its contract; laws relating several functions are public proof functions
  named `law_*`.
- `tests/` — tests of the library on concrete values.
- `app/` — the desktop side: JSON shapes (serde), files, sockets, the async
  engine on tokio and russh, and the commands the UI calls.

## Representation

- A tunnel id is the 128-bit value of its UUID.
- Times are whole seconds since the Unix epoch plus nanoseconds.
- The reconnect backoff factor is kept in thousandths (`2000` is a factor of 2);
  a delay is `initial · (factor_milli / 1000)^(attempt − 1)`, capped, jittered
  when the policy asks for it, and only then rounded down once to whole
  milliseconds.
