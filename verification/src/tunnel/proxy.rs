//! Reaching the SSH server through an HTTP or SOCKS5 proxy: the bytes that
//! are sent and how the proxy's replies are judged.
use vstd::prelude::*;
use vstd::string::*;
use vstd::utf8::*;

use crate::error::{ssh_error, Error};
use crate::text::{chars_of, decimal, owned, push_char, push_decimal, push_str, trim_spec, trimmed};

verus! {

// ---------------------------------------------------------------------------
// Base64 (standard alphabet, padded).
// ---------------------------------------------------------------------------

/// The base64 character for a 6-bit value.
pub open spec fn b64_char(v: nat) -> char {
    if v < 26 {
        ((65 + v) as u8) as char
    } else if v < 52 {
        ((97 + (v - 26)) as u8) as char
    } else if v < 62 {
        ((48 + (v - 52)) as u8) as char
    } else if v == 62 {
        '+'
    } else {
        '/'
    }
}

/// Base64 of one group of one to three bytes.
pub open spec fn b64_group(g: Seq<u8>) -> Seq<char> {
    let b0 = g[0] as nat;
    let b1: nat = if g.len() > 1 { g[1] as nat } else { 0 };
    let b2: nat = if g.len() > 2 { g[2] as nat } else { 0 };
    seq![
        b64_char(b0 / 4),
        b64_char((b0 % 4) * 16 + b1 / 16),
        if g.len() > 1 { b64_char((b1 % 16) * 4 + b2 / 64) } else { '=' },
        if g.len() > 2 { b64_char(b2 % 64) } else { '=' },
    ]
}

/// Base64 of a byte sequence: each group of three bytes becomes four characters.
pub open spec fn base64(s: Seq<u8>) -> Seq<char>
    decreases s.len(),
{
    if s.len() == 0 {
        seq![]
    } else if s.len() <= 3 {
        b64_group(s)
    } else {
        b64_group(s.take(3)) + base64(s.skip(3))
    }
}

fn b64_value_char(v: u8) -> (c: char)
    requires
        v < 64,
    ensures
        c == b64_char(v as nat),
{
    if v < 26 {
        (65 + v) as char
    } else if v < 52 {
        (97 + (v - 26)) as char
    } else if v < 62 {
        (48 + (v - 52)) as char
    } else if v == 62 {
        '+'
    } else {
        '/'
    }
}

/// Minimal, dependency-free base64 (standard alphabet, padded).
pub fn encode(input: &[u8]) -> (out: String)
    ensures
        out@ == base64(input@),
{
    let mut out = String::new();
    let n = input.len();
    let mut i: usize = 0;
    assert(input@.skip(0) =~= input@);
    assert(out@ + base64(input@) =~= base64(input@));
    while i < n
        invariant
            i <= n,
            n == input@.len(),
            base64(input@) == out@ + base64(input@.skip(i as int)),
        decreases n - i,
    {
        let rest = n - i;
        let ghost r = input@.skip(i as int);
        let b0 = input[i];
        let b1 = if rest > 1 {
            input[i + 1]
        } else {
            0
        };
        let b2 = if rest > 2 {
            input[i + 2]
        } else {
            0
        };
        let ghost g = if rest <= 3 {
            r
        } else {
            r.take(3)
        };
        assert(g[0] == b0);
        assert(g.len() > 1 ==> g[1] == b1);
        assert(g.len() > 2 ==> g[2] == b2);
        let ghost before = out@;
        push_char(&mut out, b64_value_char(b0 / 4));
        push_char(&mut out, b64_value_char((b0 % 4) * 16 + b1 / 16));
        if rest > 1 {
            push_char(&mut out, b64_value_char((b1 % 16) * 4 + b2 / 64));
        } else {
            push_char(&mut out, '=');
        }
        if rest > 2 {
            push_char(&mut out, b64_value_char(b2 % 64));
        } else {
            push_char(&mut out, '=');
        }
        assert(out@ =~= before + b64_group(g));
        if rest <= 3 {
            assert(input@.skip(n as int) =~= Seq::<u8>::empty());
            i = n;
        } else {
            assert(r.skip(3) =~= input@.skip(i + 3));
            i = i + 3;
        }
    }
    out
}

/// Base64 output is four characters per started group of three bytes.
pub proof fn law_base64_length(s: Seq<u8>)
    ensures
        base64(s).len() == 4 * ((s.len() + 2) / 3),
    decreases s.len(),
{
    if s.len() > 3 {
        law_base64_length(s.skip(3));
    }
}

/// Base64 output uses only the 64-letter alphabet, with `=` padding at the end only.
pub proof fn law_base64_alphabet(s: Seq<u8>)
    ensures
        forall|i: int|
            0 <= i < base64(s).len() ==> (#[trigger] base64(s)[i] == '=' || exists|v: nat|
                v < 64 && base64(s)[i] == b64_char(v)),
        forall|i: int|
            0 <= i < base64(s).len() && base64(s)[i] == '=' ==> i >= base64(s).len() - 2,
    decreases s.len(),
{
    law_base64_length(s);
    if s.len() > 3 {
        law_base64_alphabet(s.skip(3));
        let g = b64_group(s.take(3));
        let rest = base64(s.skip(3));
        law_base64_length(s.skip(3));
        assert forall|i: int| 0 <= i < base64(s).len() implies (#[trigger] base64(s)[i] == '=' || exists|v: nat|
            v < 64 && base64(s)[i] == b64_char(v)) by {
            if i < 4 {
                assert(base64(s)[i] == g[i]);
                let b0 = s[0] as nat;
                let b1 = s[1] as nat;
                let b2 = s[2] as nat;
                assert(b64_char(b0 / 4) == g[0]);
                assert(b64_char((b0 % 4) * 16 + b1 / 16) == g[1]);
                assert(b64_char((b1 % 16) * 4 + b2 / 64) == g[2]);
                assert(b64_char(b2 % 64) == g[3]);
            } else {
                assert(base64(s)[i] == rest[i - 4]);
            }
        }
        assert forall|i: int| 0 <= i < base64(s).len() && base64(s)[i] == '=' implies i >= base64(s).len() - 2 by {
            if i < 4 {
                assert(base64(s)[i] == g[i]);
                let b0 = s[0] as nat;
                let b1 = s[1] as nat;
                let b2 = s[2] as nat;
                assert(g[i] == b64_char(b0 / 4) || g[i] == b64_char((b0 % 4) * 16 + b1 / 16) || g[i]
                    == b64_char((b1 % 16) * 4 + b2 / 64) || g[i] == b64_char(b2 % 64));
            } else {
                assert(base64(s)[i] == rest[i - 4]);
            }
        }
    } else if s.len() > 0 {
        let b0 = s[0] as nat;
        let b1: nat = if s.len() > 1 { s[1] as nat } else { 0 };
        let b2: nat = if s.len() > 2 { s[2] as nat } else { 0 };
        assert(base64(s)[0] == b64_char(b0 / 4));
        assert(base64(s)[1] == b64_char((b0 % 4) * 16 + b1 / 16));
    }
}

/// Whole groups of three bytes encode on their own: `base64(a + b)` is
/// `base64(a) + base64(b)` when the length of `a` is a multiple of three, so
/// padding only ever comes from the final partial group.
pub proof fn law_base64_whole_groups(a: Seq<u8>, b: Seq<u8>)
    requires
        a.len() % 3 == 0,
    ensures
        base64(a + b) == base64(a) + base64(b),
    decreases a.len(),
{
    if a.len() == 0 {
        assert(a + b =~= b);
        assert(base64(a) =~= Seq::<char>::empty());
        assert(base64(a) + base64(b) =~= base64(b));
    } else {
        let ab = a + b;
        law_base64_whole_groups(a.skip(3), b);
        assert(ab.take(3) =~= a.take(3));
        assert(ab.skip(3) =~= a.skip(3) + b);
        if a.len() == 3 {
            assert(a.take(3) =~= a);
            assert(a.skip(3) =~= Seq::<u8>::empty());
            if b.len() == 0 {
                assert(ab =~= a);
                assert(base64(b) =~= Seq::<char>::empty());
                assert(base64(a) + base64(b) =~= base64(a));
            } else {
                assert(a.skip(3) + b =~= b);
                assert(base64(a.skip(3)) =~= Seq::<char>::empty());
            }
        } else {
            assert(base64(a) == b64_group(a.take(3)) + base64(a.skip(3)));
        }
        assert(base64(ab) == b64_group(ab.take(3)) + base64(ab.skip(3)));
        assert(base64(ab) =~= base64(a) + base64(b));
    }
}

proof fn lemma_b64_char_injective(v: nat, w: nat)
    requires
        v < 64,
        w < 64,
    ensures
        b64_char(v) != '=',
        b64_char(v) == b64_char(w) ==> v == w,
{
}

proof fn lemma_digits_unique(h1: nat, l1: nat, h2: nat, l2: nat, m: nat)
    requires
        l1 < m,
        l2 < m,
        h1 * m + l1 == h2 * m + l2,
    ensures
        h1 == h2,
        l1 == l2,
{
    assert(h1 == h2) by (nonlinear_arith)
        requires
            l1 < m,
            l2 < m,
            h1 * m + l1 == h2 * m + l2,
    ;
}

proof fn lemma_byte_parts(b: nat, m: nat)
    by (nonlinear_arith)
    requires
        m > 0,
    ensures
        b == (b / m) * m + b % m,
        b % m < m,
{
}

/// One group of one to three bytes is told by its four characters.
proof fn lemma_group_injective(g: Seq<u8>, h: Seq<u8>)
    requires
        1 <= g.len() <= 3,
        1 <= h.len() <= 3,
        b64_group(g) == b64_group(h),
    ensures
        g == h,
{
    let x0 = g[0] as nat;
    let x1: nat = if g.len() > 1 { g[1] as nat } else { 0 };
    let x2: nat = if g.len() > 2 { g[2] as nat } else { 0 };
    let y0 = h[0] as nat;
    let y1: nat = if h.len() > 1 { h[1] as nat } else { 0 };
    let y2: nat = if h.len() > 2 { h[2] as nat } else { 0 };
    assert(b64_group(g)[0] == b64_group(h)[0]);
    assert(b64_group(g)[1] == b64_group(h)[1]);
    assert(b64_group(g)[2] == b64_group(h)[2]);
    assert(b64_group(g)[3] == b64_group(h)[3]);
    lemma_b64_char_injective((x1 % 16) * 4 + x2 / 64, (y1 % 16) * 4 + y2 / 64);
    lemma_b64_char_injective(x2 % 64, y2 % 64);
    lemma_b64_char_injective(x0 / 4, y0 / 4);
    lemma_b64_char_injective((x0 % 4) * 16 + x1 / 16, (y0 % 4) * 16 + y1 / 16);
    assert(g.len() == h.len());
    lemma_byte_parts(x0, 4);
    lemma_byte_parts(y0, 4);
    lemma_byte_parts(x1, 16);
    lemma_byte_parts(y1, 16);
    lemma_byte_parts(x2, 64);
    lemma_byte_parts(y2, 64);
    lemma_digits_unique(x0 % 4, x1 / 16, y0 % 4, y1 / 16, 16);
    assert(x0 == y0);
    if g.len() > 1 {
        lemma_digits_unique(x1 % 16, x2 / 64, y1 % 16, y2 / 64, 4);
        assert(x1 == y1);
        if g.len() > 2 {
            assert(x2 == y2);
        }
    }
    assert(g =~= h);
}

/// Different byte strings have different base64 texts, so the text can be
/// decoded back to exactly the bytes it came from.
pub proof fn law_base64_injective(x: Seq<u8>, y: Seq<u8>)
    requires
        base64(x) == base64(y),
    ensures
        x == y,
    decreases x.len(),
{
    law_base64_length(x);
    law_base64_length(y);
    assert((x.len() + 2) / 3 == (y.len() + 2) / 3);
    if x.len() == 0 {
        assert(y.len() == 0);
        assert(x =~= y);
    } else if x.len() <= 3 {
        assert(1 <= y.len() <= 3);
        lemma_group_injective(x, y);
    } else {
        assert(y.len() > 3);
        let gx = b64_group(x.take(3));
        let gy = b64_group(y.take(3));
        law_base64_length(x.skip(3));
        law_base64_length(y.skip(3));
        assert(base64(x) == gx + base64(x.skip(3)));
        assert(base64(y) == gy + base64(y.skip(3)));
        assert(gx =~= base64(x).take(4));
        assert(gy =~= base64(y).take(4));
        assert(base64(x.skip(3)) =~= base64(x).skip(4));
        assert(base64(y.skip(3)) =~= base64(y).skip(4));
        lemma_group_injective(x.take(3), y.take(3));
        law_base64_injective(x.skip(3), y.skip(3));
        assert(x =~= x.take(3) + x.skip(3));
        assert(y =~= y.take(3) + y.skip(3));
    }
}

/// The 6-bit value of a character of the standard base64 alphabet
/// (RFC 4648, table 1).
pub open spec fn b64_value(c: char) -> nat {
    let n = c as nat;
    if 65 <= n <= 90 {
        (n - 65) as nat
    } else if 97 <= n <= 122 {
        (n - 71) as nat
    } else if 48 <= n <= 57 {
        (n + 4) as nat
    } else if c == '+' {
        62
    } else {
        63
    }
}

/// RFC 4648 decoding of one group of four characters: three bytes, or fewer
/// where `=` pads the group.
pub open spec fn unb64_group(q: Seq<char>) -> Seq<u8> {
    let v0 = b64_value(q[0]);
    let v1 = b64_value(q[1]);
    let v2 = b64_value(q[2]);
    let v3 = b64_value(q[3]);
    let b0 = (v0 * 4 + v1 / 16) as u8;
    let b1 = ((v1 % 16) * 16 + v2 / 4) as u8;
    let b2 = ((v2 % 4) * 64 + v3) as u8;
    if q[2] == '=' {
        seq![b0]
    } else if q[3] == '=' {
        seq![b0, b1]
    } else {
        seq![b0, b1, b2]
    }
}

/// RFC 4648 decoding of a padded base64 text, four characters at a time.
pub open spec fn unbase64(t: Seq<char>) -> Seq<u8>
    decreases t.len(),
{
    if t.len() < 4 {
        seq![]
    } else {
        unb64_group(t.take(4)) + unbase64(t.skip(4))
    }
}

proof fn lemma_b64_value_of_char(v: nat)
    requires
        v < 64,
    ensures
        b64_value(b64_char(v)) == v,
{
    if v < 26 {
        assert(((65 + v) as u8) as char as nat == 65 + v);
    } else if v < 52 {
        assert(((97 + (v - 26)) as u8) as char as nat == 97 + (v - 26));
    } else if v < 62 {
        assert(((48 + (v - 52)) as u8) as char as nat == 48 + (v - 52));
    }
}

/// Decoding the four characters of a group gives back its bytes.
proof fn lemma_group_round_trip(g: Seq<u8>)
    requires
        1 <= g.len() <= 3,
    ensures
        unb64_group(b64_group(g)) == g,
{
    let x0 = g[0] as nat;
    let x1: nat = if g.len() > 1 { g[1] as nat } else { 0 };
    let x2: nat = if g.len() > 2 { g[2] as nat } else { 0 };
    let q = b64_group(g);
    let v0 = x0 / 4;
    let v1 = (x0 % 4) * 16 + x1 / 16;
    let v2 = (x1 % 16) * 4 + x2 / 64;
    let v3 = x2 % 64;
    lemma_byte_parts(x0, 4);
    lemma_byte_parts(x1, 16);
    lemma_byte_parts(x2, 64);
    assert(v0 < 64 && v1 < 64 && v2 < 64 && v3 < 64) by (nonlinear_arith)
        requires
            x0 < 256,
            x1 < 256,
            x2 < 256,
            v0 == x0 / 4,
            v1 == (x0 % 4) * 16 + x1 / 16,
            v2 == (x1 % 16) * 4 + x2 / 64,
            v3 == x2 % 64,
    ;
    lemma_b64_value_of_char(v0);
    lemma_b64_value_of_char(v1);
    lemma_b64_value_of_char(v2);
    lemma_b64_value_of_char(v3);
    lemma_b64_char_injective(v2, 0);
    lemma_b64_char_injective(v3, 0);
    assert(b64_value(q[0]) == v0);
    assert(b64_value(q[1]) == v1);
    assert(v0 * 4 + v1 / 16 == x0 && (v1 % 16) * 16 + v2 / 4 == x1 && (v2 % 4) * 64 + v3 == x2)
        by (nonlinear_arith)
        requires
            x0 < 256,
            x1 < 256,
            x2 < 256,
            x0 == (x0 / 4) * 4 + x0 % 4,
            x0 % 4 < 4,
            x1 == (x1 / 16) * 16 + x1 % 16,
            x1 % 16 < 16,
            x2 == (x2 / 64) * 64 + x2 % 64,
            x2 % 64 < 64,
            v0 == x0 / 4,
            v1 == (x0 % 4) * 16 + x1 / 16,
            v2 == (x1 % 16) * 4 + x2 / 64,
            v3 == x2 % 64,
    ;
    if g.len() > 1 {
        assert(b64_value(q[2]) == v2);
        if g.len() > 2 {
            assert(b64_value(q[3]) == v3);
        }
    }
    assert(unb64_group(q) =~= g);
}

/// Decoding `base64(s)` by RFC 4648 gives back exactly `s`.
pub proof fn law_base64_round_trip(s: Seq<u8>)
    ensures
        unbase64(base64(s)) == s,
    decreases s.len(),
{
    law_base64_length(s);
    if s.len() == 0 {
        assert(unbase64(base64(s)) =~= s);
    } else if s.len() <= 3 {
        let t = base64(s);
        assert(t.take(4) =~= t);
        assert(t.skip(4).len() == 0);
        assert(unbase64(t.skip(4)) =~= Seq::<u8>::empty());
        lemma_group_round_trip(s);
        assert(unbase64(t) =~= s);
    } else {
        let t = base64(s);
        let g = b64_group(s.take(3));
        law_base64_round_trip(s.skip(3));
        assert(t == g + base64(s.skip(3)));
        assert(t.take(4) =~= g);
        assert(t.skip(4) =~= base64(s.skip(3)));
        lemma_group_round_trip(s.take(3));
        assert(unbase64(t) == s.take(3) + s.skip(3));
        assert(s =~= s.take(3) + s.skip(3));
    }
}

// ---------------------------------------------------------------------------
// HTTP CONNECT.
// ---------------------------------------------------------------------------

/// The CONNECT request for `host:port`, with basic proxy credentials when given.
pub open spec fn http_connect_request(
    host: Seq<char>,
    port: u16,
    auth: Option<(Seq<char>, Seq<char>)>,
) -> Seq<char> {
    let target = host + ":"@ + decimal(port as nat);
    "CONNECT "@ + target + " HTTP/1.1\r\nHost: "@ + target + "\r\n"@ + match auth {
        Some((user, pass)) => "Proxy-Authorization: Basic "@ + base64(
            encode_utf8(user + ":"@ + pass),
        ) + "\r\n"@,
        None => seq![],
    } + "\r\n"@
}

pub open spec fn creds_view(auth: &Option<(String, String)>) -> Option<(Seq<char>, Seq<char>)> {
    match auth {
        Some((u, p)) => Some((u@, p@)),
        None => None,
    }
}

/// The request an HTTP proxy is sent to open a tunnel to `host:port`.
pub fn http_connect_request_text(host: &str, port: u16, auth: &Option<(String, String)>) -> (r:
    String)
    ensures
        r@ == http_connect_request(host@, port, creds_view(auth)),
{
    let mut request = owned("CONNECT ");
    push_str(&mut request, host);
    push_str(&mut request, ":");
    push_decimal(&mut request, port as u64);
    push_str(&mut request, " HTTP/1.1\r\nHost: ");
    push_str(&mut request, host);
    push_str(&mut request, ":");
    push_decimal(&mut request, port as u64);
    push_str(&mut request, "\r\n");
    let ghost head = request@;
    match auth {
        Some((user, pass)) => {
            let mut creds = owned(user.as_str());
            push_str(&mut creds, ":");
            push_str(&mut creds, pass.as_str());
            let token = encode(creds.as_str().as_bytes());
            push_str(&mut request, "Proxy-Authorization: Basic ");
            push_str(&mut request, token.as_str());
            push_str(&mut request, "\r\n");
        },
        None => {},
    }
    push_str(&mut request, "\r\n");
    assert(request@ =~= http_connect_request(host@, port, creds_view(auth)));
    request
}

/// Whether `s` holds `pat` as a contiguous run.
pub open spec fn contains_run(s: Seq<u8>, pat: Seq<u8>) -> bool {
    exists|i: int| 0 <= i && i + pat.len() <= s.len() && #[trigger] s.subrange(i, i + pat.len()) == pat
}

/// The bytes ` 200`.
pub open spec fn status_200() -> Seq<u8> {
    seq![32u8, 50u8, 48u8, 48u8]
}

/// A proxy reply head accepts the CONNECT when its first line holds ` 200`.
pub open spec fn http_status_ok(head: Seq<u8>) -> bool {
    contains_run(head.take(crate::seqs::index_of(head, 10) as int), status_200())
}

/// Judges the reply head of an HTTP proxy: its first line must hold ` 200`.
pub fn http_connect_accepted(head: &[u8]) -> (ok: bool)
    ensures
        ok == http_status_ok(head@),
{
    let n = head.len();
    let mut end: usize = 0;
    while end < n && head[end] != 10
        invariant
            end <= n,
            n == head@.len(),
            forall|j: int| 0 <= j < end ==> head@[j] != 10,
        decreases n - end,
    {
        end = end + 1;
    }
    proof {
        crate::seqs::lemma_index_of_is(head@, 10, end as nat);
    }
    let ghost line = head@.take(end as int);
    let mut i: usize = 0;
    while i < end && end - i >= 4
        invariant
            i <= end,
            end <= n,
            n == head@.len(),
            line == head@.take(end as int),
            crate::seqs::index_of(head@, 10) == end,
            forall|j: int| 0 <= j < i && j + 4 <= end ==> #[trigger] line.subrange(j, j + 4) != status_200(),
        decreases end - i,
    {
        if head[i] == 32 && head[i + 1] == 50 && head[i + 2] == 48 && head[i + 3] == 48 {
            assert(line.subrange(i as int, i + 4) =~= status_200());
            assert(line.subrange(i as int, i + status_200().len()) == status_200());
            return true;
        }
        assert(line.subrange(i as int, i + 4) != status_200()) by {
            if line.subrange(i as int, i + 4) == status_200() {
                assert(line.subrange(i as int, i + 4)[0] == head@[i as int]);
                assert(line.subrange(i as int, i + 4)[1] == head@[i + 1]);
                assert(line.subrange(i as int, i + 4)[2] == head@[i + 2]);
                assert(line.subrange(i as int, i + 4)[3] == head@[i + 3]);
            }
        }
        i = i + 1;
    }
    assert(!contains_run(line, status_200())) by {
        if contains_run(line, status_200()) {
            let k = choose|k: int|
                0 <= k && k + status_200().len() <= line.len() && #[trigger] line.subrange(
                    k,
                    k + status_200().len(),
                ) == status_200();
            assert(line.subrange(k, k + 4) == status_200());
        }
    }
    false
}

/// The text `String::from_utf8_lossy` makes of `bytes`: each invalid
/// sequence replaced by U+FFFD. It depends on the bytes alone.
pub uninterp spec fn lossy_decode(bytes: Seq<u8>) -> Seq<char>;

/// `String::from_utf8_lossy`, owned: the text is `lossy_decode` of the bytes,
/// and for valid UTF-8 it is the bytes decoded (as the documentation says).
#[verifier::external_body]
fn lossy_text(bytes: &[u8]) -> (s: String)
    ensures
        s@ == lossy_decode(bytes@),
        valid_utf8(bytes@) ==> s@ == decode_utf8(bytes@),
{
    String::from_utf8_lossy(bytes).into_owned()
}

/// The first line of a text (everything before the first line break).
pub open spec fn first_line(s: Seq<char>) -> Seq<char> {
    s.take(crate::seqs::index_of(s, '\n') as int)
}

pub open spec fn refusal_text(text: Seq<char>) -> Seq<char> {
    "HTTP proxy CONNECT failed: "@ + trim_spec(first_line(text))
}

/// The error for an HTTP proxy whose reply head reads `text`: its first
/// line, trimmed.
pub fn refusal_from_text(text: &str) -> (e: Error)
    ensures
        e matches Error::Ssh(m) && m@ == refusal_text(text@),
{
    let v = chars_of(text);
    let n = v.len();
    let mut end: usize = 0;
    while end < n && v[end] != '\n'
        invariant
            end <= n,
            n == v@.len(),
            forall|j: int| 0 <= j < end ==> v@[j] != '\n',
        decreases n - end,
    {
        end = end + 1;
    }
    proof {
        crate::seqs::lemma_index_of_is(v@, '\n', end as nat);
        assert(v@.subrange(0, end as int) =~= first_line(v@));
    }
    let line = trimmed(&v, 0, end);
    let mut m = owned("HTTP proxy CONNECT failed: ");
    push_str(&mut m, line.as_str());
    Error::Ssh(m)
}

/// The error for an HTTP proxy that refused the CONNECT: the first line of
/// its reply head (read as UTF-8, invalid sequences replaced), trimmed.
pub fn http_refusal(head: &[u8]) -> (e: Error)
    ensures
        e matches Error::Ssh(m) && m@ == refusal_text(lossy_decode(head@)),
        valid_utf8(head@) ==> lossy_decode(head@) == decode_utf8(head@),
{
    let text = lossy_text(head);
    refusal_from_text(text.as_str())
}

/// How far reading a proxy reply head has got.
#[derive(Debug, Clone, Copy, PartialEq, Eq, Structural)]
pub enum HeadProgress {
    /// The head ends with a blank line.
    Complete,
    /// More than 8192 bytes without a blank line.
    TooLarge,
    /// Keep reading.
    More,
}

pub open spec fn ends_with_blank_line(buf: Seq<u8>) -> bool {
    buf.len() >= 4 && buf.subrange(buf.len() - 4, buf.len() as int) == seq![13u8, 10u8, 13u8, 10u8]
}

/// Where reading stands once `buf` has been received.
pub fn http_head_progress(buf: &[u8]) -> (p: HeadProgress)
    ensures
        p == (if ends_with_blank_line(buf@) {
            HeadProgress::Complete
        } else if buf@.len() > 8192 {
            HeadProgress::TooLarge
        } else {
            HeadProgress::More
        }),
{
    let n = buf.len();
    if n >= 4 && buf[n - 4] == 13 && buf[n - 3] == 10 && buf[n - 2] == 13 && buf[n - 1] == 10 {
        assert(buf@.subrange(n - 4, n as int) =~= seq![13u8, 10u8, 13u8, 10u8]);
        return HeadProgress::Complete;
    }
    assert(!ends_with_blank_line(buf@)) by {
        if ends_with_blank_line(buf@) {
            let t = buf@.subrange(n - 4, n as int);
            assert(t[0] == buf@[n - 4] && t[1] == buf@[n - 3] && t[2] == buf@[n - 2] && t[3]
                == buf@[n - 1]);
        }
    }
    if n > 8192 {
        HeadProgress::TooLarge
    } else {
        HeadProgress::More
    }
}


// ---------------------------------------------------------------------------
// SOCKS5 (client side, RFC 1928 / RFC 1929).
// ---------------------------------------------------------------------------

fn ssh_err(m: &str) -> (e: Error)
    ensures
        ssh_error(e, m@),
{
    Error::Ssh(owned(m))
}

/// The greeting: offer no authentication and, when credentials are
/// configured, username/password.
pub fn socks5_greeting(with_auth: bool) -> (g: Vec<u8>)
    ensures
        g@ == (if with_auth {
            seq![5u8, 2u8, 0u8, 2u8]
        } else {
            seq![5u8, 1u8, 0u8]
        }),
{
    if with_auth {
        let g = vec![5u8, 2u8, 0u8, 2u8];
        assert(g@ =~= seq![5u8, 2u8, 0u8, 2u8]);
        g
    } else {
        let g = vec![5u8, 1u8, 0u8];
        assert(g@ =~= seq![5u8, 1u8, 0u8]);
        g
    }
}

/// The authentication method a SOCKS5 proxy chose.
#[derive(Debug, Clone, Copy, PartialEq, Eq, Structural)]
pub enum Socks5Method {
    NoAuth,
    UserPass,
}

/// Judges the proxy's method choice `[version, method]`.
pub fn socks5_method(version: u8, method: u8) -> (r: Result<Socks5Method, Error>)
    ensures
        version != 5 ==> ssh_error(r->Err_0, "not a SOCKS5 proxy"@) && r is Err,
        version == 5 && method == 0 ==> r == Ok::<Socks5Method, Error>(Socks5Method::NoAuth),
        version == 5 && method == 2 ==> r == Ok::<Socks5Method, Error>(Socks5Method::UserPass),
        version == 5 && method == 255 ==> r is Err && ssh_error(
            r->Err_0,
            "SOCKS5 proxy rejected our auth methods"@,
        ),
        version == 5 && method != 0 && method != 2 && method != 255 ==> r is Err && ssh_error(
            r->Err_0,
            "unsupported SOCKS5 auth method "@ + decimal(method as nat),
        ),
{
    if version != 5 {
        return Err(ssh_err("not a SOCKS5 proxy"));
    }
    if method == 0 {
        Ok(Socks5Method::NoAuth)
    } else if method == 2 {
        Ok(Socks5Method::UserPass)
    } else if method == 255 {
        Err(ssh_err("SOCKS5 proxy rejected our auth methods"))
    } else {
        let mut m = owned("unsupported SOCKS5 auth method ");
        push_decimal(&mut m, method as u64);
        Err(Error::Ssh(m))
    }
}

/// A length as it goes into a one-byte field (only the low eight bits are kept).
pub open spec fn len_byte(n: nat) -> u8 {
    (n % 256) as u8
}

fn push_bytes(v: &mut Vec<u8>, s: &str)
    ensures
        final(v)@ == old(v)@ + s.spec_bytes(),
{
    let b = s.as_bytes();
    let n = b.len();
    let ghost before = v@;
    for i in 0..n
        invariant
            n == b@.len(),
            b@ == s.spec_bytes(),
            v@ == before + b@.take(i as int),
    {
        v.push(b[i]);
        assert(b@.take(i + 1) =~= b@.take(i as int).push(b@[i as int]));
    }
    assert(b@.take(n as int) =~= b@);
}

/// The username/password sub-negotiation message (RFC 1929).
pub fn socks5_userpass_message(auth: &Option<(String, String)>) -> (r: Result<Vec<u8>, Error>)
    ensures
        match auth {
            None => r is Err && ssh_error(r->Err_0, "proxy requires credentials"@),
            Some((u, p)) => {
                let ub = encode_utf8(u@);
                let pb = encode_utf8(p@);
                r is Ok && r->Ok_0@ == seq![1u8, len_byte(ub.len())] + ub + seq![
                    len_byte(pb.len()),
                ] + pb
            },
        },
{
    match auth {
        None => Err(ssh_err("proxy requires credentials")),
        Some((user, pass)) => {
            let u = user.as_str();
            let p = pass.as_str();
            let mut msg: Vec<u8> = Vec::new();
            msg.push(1u8);
            msg.push((u.as_bytes().len() % 256) as u8);
            push_bytes(&mut msg, u);
            msg.push((p.as_bytes().len() % 256) as u8);
            push_bytes(&mut msg, p);
            let ghost ub = encode_utf8(user@);
            let ghost pb = encode_utf8(pass@);
            assert(u.spec_bytes() == ub);
            assert(p.spec_bytes() == pb);
            assert(msg@ =~= seq![1u8, len_byte(ub.len())] + ub + seq![len_byte(pb.len())] + pb);
            Ok(msg)
        },
    }
}

/// Judges the sub-negotiation reply status byte.
pub fn socks5_userpass_accepted(status: u8) -> (r: Result<(), Error>)
    ensures
        status == 0 <==> r is Ok,
        status != 0 ==> ssh_error(r->Err_0, "SOCKS5 proxy authentication failed"@),
{
    if status != 0 {
        Err(ssh_err("SOCKS5 proxy authentication failed"))
    } else {
        Ok(())
    }
}

/// The CONNECT request with a domain-name target (the proxy resolves it).
pub fn socks5_connect_request(host: &str, port: u16) -> (r: Result<Vec<u8>, Error>)
    ensures
        host.spec_bytes().len() > 255 ==> r is Err && ssh_error(
            r->Err_0,
            "SOCKS5 hostname too long"@,
        ),
        host.spec_bytes().len() <= 255 ==> r is Ok && r->Ok_0@ == seq![
            5u8,
            1u8,
            0u8,
            3u8,
            host.spec_bytes().len() as u8,
        ] + host.spec_bytes() + seq![(port / 256) as u8, (port % 256) as u8],
{
    let n = host.as_bytes().len();
    if n > 255 {
        return Err(ssh_err("SOCKS5 hostname too long"));
    }
    let mut request: Vec<u8> = Vec::new();
    request.push(5u8);
    request.push(1u8);
    request.push(0u8);
    request.push(3u8);
    request.push(n as u8);
    push_bytes(&mut request, host);
    request.push((port / 256) as u8);
    request.push((port % 256) as u8);
    assert(request@ =~= seq![5u8, 1u8, 0u8, 3u8, n as u8] + host.spec_bytes() + seq![
        (port / 256) as u8,
        (port % 256) as u8,
    ]);
    Ok(request)
}

/// How the bound address of a CONNECT reply is laid out.
#[derive(Debug, Clone, Copy, PartialEq, Eq, Structural)]
pub enum BoundAddress {
    /// This many address bytes follow.
    Fixed(usize),
    /// A length byte follows, then that many bytes.
    LengthPrefixed,
}

/// Judges the head `[version, reply, reserved, address type]` of a CONNECT reply.
pub fn socks5_connect_reply(reply: u8, atyp: u8) -> (r: Result<BoundAddress, Error>)
    ensures
        reply != 0 ==> r is Err && ssh_error(
            r->Err_0,
            "SOCKS5 proxy CONNECT failed (code "@ + decimal(reply as nat) + ")"@,
        ),
        reply == 0 && atyp == 1 ==> r == Ok::<BoundAddress, Error>(BoundAddress::Fixed(4)),
        reply == 0 && atyp == 4 ==> r == Ok::<BoundAddress, Error>(BoundAddress::Fixed(16)),
        reply == 0 && atyp == 3 ==> r == Ok::<BoundAddress, Error>(BoundAddress::LengthPrefixed),
        reply == 0 && atyp != 1 && atyp != 3 && atyp != 4 ==> r is Err && ssh_error(
            r->Err_0,
            "bad SOCKS5 reply atyp "@ + decimal(atyp as nat),
        ),
{
    if reply != 0 {
        let mut m = owned("SOCKS5 proxy CONNECT failed (code ");
        push_decimal(&mut m, reply as u64);
        push_str(&mut m, ")");
        return Err(Error::Ssh(m));
    }
    if atyp == 1 {
        Ok(BoundAddress::Fixed(4))
    } else if atyp == 4 {
        Ok(BoundAddress::Fixed(16))
    } else if atyp == 3 {
        Ok(BoundAddress::LengthPrefixed)
    } else {
        let mut m = owned("bad SOCKS5 reply atyp ");
        push_decimal(&mut m, atyp as u64);
        Err(Error::Ssh(m))
    }
}

} // verus!
