//! Host-name and IP-literal syntax, decided over the UTF-8 bytes of a string.
use vstd::prelude::*;
use vstd::string::*;
use vstd::utf8::*;

use crate::seqs::{index_of, lemma_index_of, lemma_index_of_is, lemma_split_last, lemma_split_nonempty, lemma_split_step, split};

verus! {

// ---------------------------------------------------------------------------
// Character classes and the pieces that make up host names and IP literals.
// ---------------------------------------------------------------------------

pub open spec fn is_digit(b: u8) -> bool {
    48 <= b <= 57
}

pub open spec fn is_hex_digit(b: u8) -> bool {
    is_digit(b) || (97 <= b <= 102) || (65 <= b <= 70)
}

pub open spec fn is_alnum(b: u8) -> bool {
    is_digit(b) || (97 <= b <= 122) || (65 <= b <= 90)
}

/// Decimal value of a run of ASCII digits.
pub open spec fn dec_value(s: Seq<u8>) -> nat
    decreases s.len(),
{
    if s.len() == 0 {
        0
    } else {
        dec_value(s.drop_last()) * 10 + (s.last() - 48) as nat
    }
}

pub proof fn lemma_dec_value_bound(t: Seq<u8>)
    requires
        forall|i: int| 0 <= i < t.len() ==> is_digit(#[trigger] t[i]),
    ensures
        t.len() <= 1 ==> dec_value(t) <= 9,
        t.len() <= 2 ==> dec_value(t) <= 99,
        t.len() <= 3 ==> dec_value(t) <= 999,
    decreases t.len(),
{
    if t.len() > 0 {
        let u = t.drop_last();
        assert forall|i: int| 0 <= i < u.len() implies is_digit(#[trigger] u[i]) by {
            assert(u[i] == t[i]);
        }
        lemma_dec_value_bound(u);
        assert(is_digit(t[t.len() - 1]));
    }
}

/// A DNS label: 1 to 63 letters, digits or hyphens, not starting or ending with a hyphen.
pub open spec fn is_label(f: Seq<u8>) -> bool {
    &&& 1 <= f.len() <= 63
    &&& forall|i: int| 0 <= i < f.len() ==> is_alnum(#[trigger] f[i]) || f[i] == 45
    &&& f[0] != 45
    &&& f[f.len() - 1] != 45
}

/// One IPv4 octet: 1 to 3 decimal digits, no leading zero, value at most 255.
pub open spec fn is_octet(f: Seq<u8>) -> bool {
    &&& 1 <= f.len() <= 3
    &&& forall|i: int| 0 <= i < f.len() ==> is_digit(#[trigger] f[i])
    &&& (f.len() == 1 || f[0] != 48)
    &&& dec_value(f) <= 255
}

/// One IPv6 group: 1 to 4 hexadecimal digits.
pub open spec fn is_h16(f: Seq<u8>) -> bool {
    &&& 1 <= f.len() <= 4
    &&& forall|i: int| 0 <= i < f.len() ==> is_hex_digit(#[trigger] f[i])
}

/// The piece shapes that the scanner below can check.
#[derive(Clone, Copy, PartialEq, Eq, Debug)]
pub enum Piece {
    Label,
    Octet,
    Group,
}

pub open spec fn piece_ok(kind: Piece, f: Seq<u8>) -> bool {
    match kind {
        Piece::Label => is_label(f),
        Piece::Octet => is_octet(f),
        Piece::Group => is_h16(f),
    }
}

/// Every piece of `s` between dots is a DNS label.
pub open spec fn is_hostname(s: Seq<u8>) -> bool {
    forall|i: int| 0 <= i < split(s, 46).len() ==> is_label(#[trigger] split(s, 46)[i])
}

/// A dotted-quad IPv4 literal (`std::net::Ipv4Addr` text form).
pub open spec fn is_ipv4(s: Seq<u8>) -> bool {
    &&& split(s, 46).len() == 4
    &&& forall|i: int| 0 <= i < 4 ==> is_octet(#[trigger] split(s, 46)[i])
}

/// Number of 16-bit groups that a colon-separated list stands for, where every
/// piece is a hex group except that the last may be an IPv4 literal (two groups).
pub open spec fn group_count(s: Seq<u8>) -> Option<nat> {
    let f = split(s, 58);
    if forall|i: int| 0 <= i < f.len() - 1 ==> is_h16(#[trigger] f[i]) {
        if is_h16(f.last()) {
            Some(f.len())
        } else if is_ipv4(f.last()) {
            Some(f.len() + 1)
        } else {
            None
        }
    } else {
        None
    }
}

/// Number of groups in a colon-separated list of hex groups only.
pub open spec fn hex_count(s: Seq<u8>) -> Option<nat> {
    let f = split(s, 58);
    if forall|i: int| 0 <= i < f.len() ==> is_h16(#[trigger] f[i]) {
        Some(f.len())
    } else {
        None
    }
}

/// Index of the first `::` in `s`, or `s.len()` when there is none.
pub open spec fn double_colon_at(s: Seq<u8>) -> nat
    decreases s.len(),
{
    if s.len() < 2 {
        s.len()
    } else if s[0] == 58 && s[1] == 58 {
        0
    } else {
        1 + double_colon_at(s.drop_first())
    }
}

/// An IPv6 literal (`std::net::Ipv6Addr` text form): eight groups, or fewer
/// around a single `::` that stands for at least one zero group; the last
/// 32 bits may be written as an IPv4 literal.
pub open spec fn is_ipv6(s: Seq<u8>) -> bool {
    let k = double_colon_at(s);
    if k >= s.len() {
        group_count(s) == Some(8nat)
    } else {
        let head = s.take(k as int);
        let tail = s.skip(k + 2int);
        let a: Option<nat> = if head.len() == 0 { Some(0nat) } else { hex_count(head) };
        let b: Option<nat> = if tail.len() == 0 { Some(0nat) } else { group_count(tail) };
        a is Some && b is Some && a->0 + b->0 <= 7
    }
}

/// Accepted as a host: non-empty, at most 253 bytes, and an IP literal or a
/// syntactically valid host name.
pub open spec fn is_valid_host_bytes(s: Seq<u8>) -> bool {
    &&& 0 < s.len() <= 253
    &&& (is_ipv4(s) || is_ipv6(s) || is_hostname(s))
}

/// An IPv4 or IPv6 literal (what `std::net::IpAddr` parses), over the
/// UTF-8 encoding of a string; such a literal is never longer than 253 bytes.
pub open spec fn is_ip_literal_text(host: Seq<char>) -> bool {
    let s = encode_utf8(host);
    s.len() <= 253 && (is_ipv4(s) || is_ipv6(s))
}

/// `is_valid_host_bytes` of the UTF-8 encoding of a string.
pub open spec fn is_valid_host_text(host: Seq<char>) -> bool {
    is_valid_host_bytes(encode_utf8(host))
}


// ---------------------------------------------------------------------------
// What is accepted as a host name.
// ---------------------------------------------------------------------------

/// Every ASCII letter, upper or lower case, and every ASCII digit may stand in
/// a DNS label.
pub proof fn law_letters_and_digits_are_label_characters(b: u8)
    requires
        (65 <= b <= 90) || (97 <= b <= 122) || (48 <= b <= 57),
    ensures
        is_alnum(b),
{
}

/// A name made of dot-separated labels, each of 1 to 63 ASCII letters (of
/// either case), digits and hyphens, none starting or ending with a hyphen,
/// at most 253 bytes in all, is accepted as a host.
pub proof fn law_dns_names_are_valid_hosts(s: Seq<u8>)
    requires
        0 < s.len() <= 253,
        forall|i: int|
            0 <= i < split(s, 46).len() ==> {
                let f = #[trigger] split(s, 46)[i];
                &&& 1 <= f.len() <= 63
                &&& f[0] != 45
                &&& f[f.len() - 1] != 45
                &&& forall|j: int|
                    0 <= j < f.len() ==> {
                        let b = #[trigger] f[j];
                        (65 <= b <= 90) || (97 <= b <= 122) || (48 <= b <= 57) || b == 45
                    }
            },
    ensures
        is_valid_host_bytes(s),
{
    assert forall|i: int| 0 <= i < split(s, 46).len() implies is_label(#[trigger] split(s, 46)[i]) by {
        let f = split(s, 46)[i];
        assert forall|j: int| 0 <= j < f.len() implies is_alnum(#[trigger] f[j]) || f[j] == 45 by {
            let b = f[j];
            assert((65 <= b <= 90) || (97 <= b <= 122) || (48 <= b <= 57) || b == 45);
        }
    }
    assert(is_hostname(s));
}

/// A single DNS label written as text — 1 to 63 ASCII letters (of either
/// case), digits and hyphens, not starting or ending with a hyphen — is a
/// valid host.
pub proof fn law_single_label_text_is_valid_host(host: Seq<char>)
    requires
        1 <= host.len() <= 63,
        host[0] != '-',
        host[host.len() - 1] != '-',
        forall|j: int|
            0 <= j < host.len() ==> {
                let c = #[trigger] host[j];
                ('A' <= c <= 'Z') || ('a' <= c <= 'z') || ('0' <= c <= '9') || c == '-'
            },
    ensures
        is_valid_host_text(host),
{
    assert(is_ascii_chars(host));
    is_ascii_chars_encode_utf8(host);
    let s = encode_utf8(host);
    assert forall|j: int| 0 <= j < s.len() implies s[j] != 46 && ((65 <= s[j] <= 90) || (97 <= s[j]
        <= 122) || (48 <= s[j] <= 57) || s[j] == 45) by {
        assert(host[j] as u8 == s[j]);
        let c = host[j];
        assert(('A' <= c <= 'Z') || ('a' <= c <= 'z') || ('0' <= c <= '9') || c == '-');
    }
    lemma_index_of(s, 46);
    if index_of(s, 46) < s.len() {
        assert(s[index_of(s, 46) as int] == 46);
    }
    assert(split(s, 46) =~= seq![s]);
    assert(host[0] as u8 == s[0]);
    assert(host[host.len() - 1] as u8 == s[s.len() - 1]);
    law_dns_names_are_valid_hosts(s);
}

// ---------------------------------------------------------------------------
// Executable checks.
// ---------------------------------------------------------------------------

fn digit(b: u8) -> (r: bool)
    ensures
        r == is_digit(b),
{
    48 <= b && b <= 57
}

fn hex_digit(b: u8) -> (r: bool)
    ensures
        r == is_hex_digit(b),
{
    digit(b) || (97 <= b && b <= 102) || (65 <= b && b <= 70)
}

fn alnum(b: u8) -> (r: bool)
    ensures
        r == is_alnum(b),
{
    digit(b) || (97 <= b && b <= 122) || (65 <= b && b <= 90)
}

/// Checks one piece `s[lo..hi]`.
fn check_piece(kind: Piece, s: &[u8], lo: usize, hi: usize) -> (r: bool)
    requires
        lo <= hi <= s@.len(),
    ensures
        r == piece_ok(kind, s@.subrange(lo as int, hi as int)),
{
    let ghost f = s@.subrange(lo as int, hi as int);
    let n = hi - lo;
    match kind {
        Piece::Label => {
            if n < 1 || n > 63 {
                return false;
            }
            let mut i = lo;
            while i < hi
                invariant
                    lo <= i <= hi <= s@.len(),
                    f == s@.subrange(lo as int, hi as int),
                    forall|j: int| 0 <= j < i - lo ==> is_alnum(#[trigger] f[j]) || f[j] == 45,
                    kind == Piece::Label,
                decreases hi - i,
            {
                assert(f[i - lo] == s@[i as int]);
                if !(alnum(s[i]) || s[i] == 45) {
                    assert(!(is_alnum(f[i - lo]) || f[i - lo] == 45));
                    return false;
                }
                i = i + 1;
            }
            s[lo] != 45 && s[hi - 1] != 45
        },
        Piece::Octet => {
            if n < 1 || n > 3 {
                return false;
            }
            let mut i = lo;
            let mut value: u32 = 0;
            while i < hi
                invariant
                    lo <= i <= hi <= s@.len(),
                    hi - lo <= 3,
                    kind == Piece::Octet,
                    f == s@.subrange(lo as int, hi as int),
                    forall|j: int| 0 <= j < i - lo ==> is_digit(#[trigger] f[j]),
                    value == dec_value(f.take(i - lo)),
                    value < 1000,
                decreases hi - i,
            {
                assert(f[i - lo] == s@[i as int]);
                if !digit(s[i]) {
                    assert(!is_digit(f[i - lo]));
                    assert(!is_octet(f));
                    return false;
                }
                assert(f.take(i - lo + 1).drop_last() =~= f.take(i - lo));
                value = value * 10 + (s[i] - 48) as u32;
                assert(value < 1000) by {
                    let t = f.take(i - lo + 1);
                    assert forall|j: int| 0 <= j < t.len() implies is_digit(#[trigger] t[j]) by {
                        assert(t[j] == f[j]);
                    }
                    lemma_dec_value_bound(t);
                }
                i = i + 1;
            }
            assert(f.take(n as int) =~= f);
            (n == 1 || s[lo] != 48) && value <= 255
        },
        Piece::Group => {
            if n < 1 || n > 4 {
                return false;
            }
            let mut i = lo;
            while i < hi
                invariant
                    lo <= i <= hi <= s@.len(),
                    f == s@.subrange(lo as int, hi as int),
                    forall|j: int| 0 <= j < i - lo ==> is_hex_digit(#[trigger] f[j]),
                    kind == Piece::Group,
                decreases hi - i,
            {
                assert(f[i - lo] == s@[i as int]);
                if !hex_digit(s[i]) {
                    assert(!is_hex_digit(f[i - lo]));
                    assert(!is_h16(f));
                    return false;
                }
                i = i + 1;
            }
            true
        },
    }
}

/// Walks the pieces of `s[lo..hi]` separated by `sep`. Returns whether every
/// piece but the last has shape `kind`, the number of pieces, and where the
/// last piece starts.
fn scan_pieces(kind: Piece, s: &[u8], lo: usize, hi: usize, sep: u8) -> (r: (bool, usize, usize))
    requires
        lo <= hi <= s@.len(),
        hi < 1000,
    ensures
        ({
            let f = split(s@.subrange(lo as int, hi as int), sep);
            &&& r.1 == f.len()
            &&& r.1 <= hi - lo + 1
            &&& lo <= r.2 <= hi
            &&& f.last() == s@.subrange(r.2 as int, hi as int)
            &&& r.0 == (forall|i: int| 0 <= i < f.len() - 1 ==> piece_ok(kind, #[trigger] f[i]))
        }),
{
    let mut ok = true;
    let mut count: usize = 0;
    let mut start = lo;
    let mut i = lo;
    let ghost mut done: Seq<Seq<u8>> = seq![];
    while i < hi
        invariant
            lo <= start <= i <= hi <= s@.len(),
            forall|j: int| start <= j < i ==> s@[j] != sep,
            split(s@.subrange(lo as int, hi as int), sep) == done + split(
                s@.subrange(start as int, hi as int),
                sep,
            ),
            count == done.len(),
            count <= i - lo,
            hi < 1000,
            ok == (forall|j: int| 0 <= j < done.len() ==> piece_ok(kind, #[trigger] done[j])),
        decreases hi - i,
    {
        if s[i] == sep {
            proof {
                lemma_split_step(s@, sep, start as int, i as int, hi as int);
                assert(done + split(s@.subrange(start as int, hi as int), sep) =~= done.push(
                    s@.subrange(start as int, i as int),
                ) + split(s@.subrange(i + 1, hi as int), sep));
            }
            let piece = check_piece(kind, s, start, i);
            let ghost old_done = done;
            proof {
                done = done.push(s@.subrange(start as int, i as int));
            }
            ok = ok && piece;
            proof {
                assert forall|j: int| 0 <= j < old_done.len() implies done[j] == old_done[j] by {}
                assert(done[old_done.len() as int] == s@.subrange(start as int, i as int));
            }
            count = count + 1;
            start = i + 1;
        }
        i = i + 1;
    }
    proof {
        lemma_split_last(s@, sep, start as int, hi as int);
        let f = split(s@.subrange(lo as int, hi as int), sep);
        assert(f =~= done.push(s@.subrange(start as int, hi as int)));
        assert forall|j: int| 0 <= j < f.len() - 1 implies f[j] == done[j] by {}
    }
    (ok, count + 1, start)
}

fn ipv4_in(s: &[u8], lo: usize, hi: usize) -> (r: bool)
    requires
        lo <= hi <= s@.len(),
        hi < 1000,
    ensures
        r == is_ipv4(s@.subrange(lo as int, hi as int)),
{
    let (ok, count, last) = scan_pieces(Piece::Octet, s, lo, hi, 46);
    let ghost f = split(s@.subrange(lo as int, hi as int), 46);
    if count != 4 || !ok {
        return false;
    }
    let last_ok = check_piece(Piece::Octet, s, last, hi);
    proof {
        if last_ok {
            assert forall|i: int| 0 <= i < 4 implies is_octet(#[trigger] f[i]) by {
                if i < 3 {
                    assert(piece_ok(Piece::Octet, f[i]));
                }
            }
        }
    }
    last_ok
}

/// The `group_count` of `s[lo..hi]`.
fn groups_in(s: &[u8], lo: usize, hi: usize) -> (r: Option<usize>)
    requires
        lo <= hi <= s@.len(),
        hi < 1000,
    ensures
        match group_count(s@.subrange(lo as int, hi as int)) {
            Some(n) => r is Some && r->0 == n,
            None => r is None,
        },
{
    let (ok, count, last) = scan_pieces(Piece::Group, s, lo, hi, 58);
    let ghost f = split(s@.subrange(lo as int, hi as int), 58);
    proof {
        assert(ok == (forall|i: int| 0 <= i < f.len() - 1 ==> is_h16(#[trigger] f[i]))) by {
            if ok {
                assert forall|i: int| 0 <= i < f.len() - 1 implies is_h16(#[trigger] f[i]) by {
                    assert(piece_ok(Piece::Group, f[i]));
                }
            } else {
                let i = choose|i: int| 0 <= i < f.len() - 1 && !piece_ok(Piece::Group, #[trigger] f[i]);
                assert(!is_h16(f[i]));
            }
        }
    }
    if !ok {
        return None;
    }
    if check_piece(Piece::Group, s, last, hi) {
        Some(count)
    } else if ipv4_in(s, last, hi) {
        Some(count + 1)
    } else {
        None
    }
}


/// The `hex_count` of `s[lo..hi]`.
fn hex_groups_in(s: &[u8], lo: usize, hi: usize) -> (r: Option<usize>)
    requires
        lo <= hi <= s@.len(),
        hi < 1000,
    ensures
        match hex_count(s@.subrange(lo as int, hi as int)) {
            Some(n) => r is Some && r->0 == n,
            None => r is None,
        },
{
    let (ok, count, last) = scan_pieces(Piece::Group, s, lo, hi, 58);
    let ghost f = split(s@.subrange(lo as int, hi as int), 58);
    let last_ok = check_piece(Piece::Group, s, last, hi);
    proof {
        lemma_split_nonempty(s@.subrange(lo as int, hi as int), 58);
        if ok && last_ok {
            assert forall|i: int| 0 <= i < f.len() implies is_h16(#[trigger] f[i]) by {
                if i < f.len() - 1 {
                    assert(piece_ok(Piece::Group, f[i]));
                }
            }
        } else if !ok {
            let i = choose|i: int| 0 <= i < f.len() - 1 && !piece_ok(Piece::Group, #[trigger] f[i]);
            assert(!is_h16(f[i]));
        } else {
            assert(!is_h16(f[f.len() - 1]));
        }
    }
    if ok && last_ok {
        Some(count)
    } else {
        None
    }
}

pub proof fn lemma_double_colon(t: Seq<u8>)
    ensures
        double_colon_at(t) <= t.len(),
        double_colon_at(t) < t.len() ==> double_colon_at(t) + 1 < t.len() && t[double_colon_at(
            t,
        ) as int] == 58 && t[double_colon_at(t) + 1int] == 58,
        forall|j: int|
            0 <= j < double_colon_at(t) && j + 1 < t.len() ==> !(#[trigger] t[j] == 58 && t[j + 1] == 58),
    decreases t.len(),
{
    if t.len() >= 2 && !(t[0] == 58 && t[1] == 58) {
        let u = t.drop_first();
        lemma_double_colon(u);
        assert forall|j: int|
            0 <= j < double_colon_at(t) && j + 1 < t.len() implies !(#[trigger] t[j] == 58 && t[j + 1]
            == 58) by {
            if j > 0 {
                assert(t[j] == u[j - 1] && t[j + 1] == u[j]);
            }
        }
    }
}

pub proof fn lemma_double_colon_is(t: Seq<u8>, k: nat)
    requires
        k <= t.len(),
        k < t.len() ==> k + 1 < t.len() && t[k as int] == 58 && t[k + 1int] == 58,
        forall|j: int| 0 <= j < k && j + 1 < t.len() ==> !(#[trigger] t[j] == 58 && t[j + 1] == 58),
    ensures
        double_colon_at(t) == k,
    decreases t.len(),
{
    if t.len() >= 2 && !(t[0] == 58 && t[1] == 58) {
        let u = t.drop_first();
        assert forall|j: int| 0 <= j < k - 1 && j + 1 < u.len() implies !(#[trigger] u[j] == 58 && u[j + 1]
            == 58) by {
            assert(u[j] == t[j + 1] && u[j + 1] == t[j + 2]);
        }
        lemma_double_colon_is(u, (k - 1) as nat);
    }
}

/// Position of the first `::` in `s[lo..hi]`, relative to `lo`.
fn double_colon_in(s: &[u8], lo: usize, hi: usize) -> (r: usize)
    requires
        lo <= hi <= s@.len(),
        hi < 1000,
    ensures
        r == double_colon_at(s@.subrange(lo as int, hi as int)),
{
    let ghost t = s@.subrange(lo as int, hi as int);
    let mut i = lo;
    while i + 1 < hi
        invariant
            lo <= i <= hi <= s@.len(),
            hi < 1000,
            t == s@.subrange(lo as int, hi as int),
            forall|j: int| 0 <= j < i - lo && j + 1 < t.len() ==> !(#[trigger] t[j] == 58 && t[j + 1] == 58),
        decreases hi - i,
    {
        assert(t[i - lo] == s@[i as int] && t[i - lo + 1] == s@[i + 1]);
        if s[i] == 58 && s[i + 1] == 58 {
            proof {
                lemma_double_colon_is(t, (i - lo) as nat);
            }
            return i - lo;
        }
        i = i + 1;
    }
    proof {
        lemma_double_colon_is(t, t.len());
    }
    hi - lo
}

fn ipv6_in(s: &[u8], lo: usize, hi: usize) -> (r: bool)
    requires
        lo <= hi <= s@.len(),
        hi < 1000,
    ensures
        r == is_ipv6(s@.subrange(lo as int, hi as int)),
{
    let ghost t = s@.subrange(lo as int, hi as int);
    let k = double_colon_in(s, lo, hi);
    proof {
        lemma_double_colon(t);
    }
    if k >= hi - lo {
        return match groups_in(s, lo, hi) {
            Some(n) => n == 8,
            None => false,
        };
    }
    let mid = lo + k;
    proof {
        assert(t.take(k as int) =~= s@.subrange(lo as int, mid as int));
        assert(t.skip(k + 2int) =~= s@.subrange(mid + 2, hi as int));
    }
    let a = if k == 0 {
        Some(0)
    } else {
        hex_groups_in(s, lo, mid)
    };
    let b = if mid + 2 == hi {
        Some(0)
    } else {
        groups_in(s, mid + 2, hi)
    };
    match (a, b) {
        (Some(x), Some(y)) => x <= 7 && y <= 7 - x,
        _ => false,
    }
}

fn hostname_in(s: &[u8], lo: usize, hi: usize) -> (r: bool)
    requires
        lo <= hi <= s@.len(),
        hi < 1000,
    ensures
        r == is_hostname(s@.subrange(lo as int, hi as int)),
{
    let (ok, _count, last) = scan_pieces(Piece::Label, s, lo, hi, 46);
    let ghost f = split(s@.subrange(lo as int, hi as int), 46);
    let last_ok = check_piece(Piece::Label, s, last, hi);
    proof {
        lemma_split_nonempty(s@.subrange(lo as int, hi as int), 46);
        if ok && last_ok {
            assert forall|i: int| 0 <= i < f.len() implies is_label(#[trigger] f[i]) by {
                if i < f.len() - 1 {
                    assert(piece_ok(Piece::Label, f[i]));
                }
            }
        } else if !ok {
            let i = choose|i: int| 0 <= i < f.len() - 1 && !piece_ok(Piece::Label, #[trigger] f[i]);
            assert(!is_label(f[i]));
        } else {
            assert(!is_label(f[f.len() - 1]));
        }
    }
    ok && last_ok
}

/// Accepts an IP literal, `localhost`, or a syntactically valid hostname.
pub fn is_valid_host(host: &str) -> (r: bool)
    ensures
        r == is_valid_host_text(host@),
{
    let b = host.as_bytes();
    let n = b.len();
    if n == 0 || n > 253 {
        return false;
    }
    proof {
        assert(b@.subrange(0, n as int) =~= b@);
    }
    ipv4_in(b, 0, n) || ipv6_in(b, 0, n) || hostname_in(b, 0, n)
}

/// Whether `host` is an IP literal (IPv4 dotted quad or IPv6).
pub fn is_ip_literal(host: &str) -> (r: bool)
    ensures
        r == is_ip_literal_text(host@),
{
    let b = host.as_bytes();
    let n = b.len();
    if n > 253 {
        return false;
    }
    proof {
        assert(b@.subrange(0, n as int) =~= b@);
    }
    ipv4_in(b, 0, n) || ipv6_in(b, 0, n)
}

} // verus!
