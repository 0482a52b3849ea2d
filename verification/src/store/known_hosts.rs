//! Forgetting a pinned host key: which lines of a known_hosts file are kept.
use vstd::prelude::*;

use crate::seqs::{lemma_split_last, lemma_split_nonempty, lemma_split_step, split};
use crate::text::{
    chars_of, decimal, is_space, is_space_char, owned, push_char, push_decimal, push_str,
};

verus! {

/// How a host is written in known_hosts: bare for port 22, else `[host]:port`.
pub open spec fn host_port_text(host: Seq<char>, port: u16) -> Seq<char> {
    if port == 22 {
        host
    } else {
        "["@ + host + "]:"@ + decimal(port as nat)
    }
}

pub fn host_port(host: &str, port: u16) -> (s: String)
    ensures
        s@ == host_port_text(host@, port),
{
    if port == 22 {
        owned(host)
    } else {
        let mut s = owned("[");
        push_str(&mut s, host);
        push_str(&mut s, "]:");
        push_decimal(&mut s, port as u64);
        s
    }
}

/// A line without one trailing carriage return.
pub open spec fn strip_cr(l: Seq<char>) -> Seq<char> {
    if l.len() > 0 && l.last() == '\r' {
        l.drop_last()
    } else {
        l
    }
}

/// The lines of a text as `str::lines` yields them: split at `\n`, a `\r`
/// before a `\n` dropped, and no empty line after a final `\n`.
pub open spec fn lines_of(c: Seq<char>) -> Seq<Seq<char>> {
    let raw = split(c, '\n');
    let body = Seq::new((raw.len() - 1) as nat, |i: int| strip_cr(raw[i]));
    if raw.last().len() > 0 {
        body.push(raw.last())
    } else {
        body
    }
}

/// First index at or after `i` that is not whitespace (or the length).
pub open spec fn skip_spaces(s: Seq<char>, i: int) -> int
    decreases s.len() - i,
{
    if i >= s.len() {
        s.len() as int
    } else if is_space(s[i]) {
        skip_spaces(s, i + 1)
    } else {
        i
    }
}

/// First index at or after `i` that is whitespace (or the length).
pub open spec fn token_end(s: Seq<char>, i: int) -> int
    decreases s.len() - i,
{
    if i >= s.len() {
        s.len() as int
    } else if is_space(s[i]) {
        i
    } else {
        token_end(s, i + 1)
    }
}

/// The first whitespace-separated field of a line (empty if there is none).
pub open spec fn first_field(l: Seq<char>) -> Seq<char> {
    let a = skip_spaces(l, 0);
    l.subrange(a, token_end(l, a))
}

/// A line pins `hp` when its first field lists it among comma-separated names.
pub open spec fn pins(l: Seq<char>, hp: Seq<char>) -> bool {
    exists|j: int| 0 <= j < split(first_field(l), ',').len() && #[trigger] split(first_field(l), ',')[j] == hp
}

/// The first `k` lines, without those that pin `hp`.
pub open spec fn kept_lines(ls: Seq<Seq<char>>, hp: Seq<char>, k: nat) -> Seq<Seq<char>>
    decreases k,
{
    if k == 0 {
        seq![]
    } else {
        let rest = kept_lines(ls, hp, (k - 1) as nat);
        if pins(ls[k - 1], hp) {
            rest
        } else {
            rest.push(ls[k - 1])
        }
    }
}

/// Lines joined with `\n` between them.
pub open spec fn join_lines(ls: Seq<Seq<char>>) -> Seq<char>
    decreases ls.len(),
{
    if ls.len() == 0 {
        seq![]
    } else if ls.len() == 1 {
        ls[0]
    } else {
        join_lines(ls.drop_last()) + seq!['\n'] + ls.last()
    }
}

/// Whether some line of `c` pins `hp`.
pub open spec fn any_pinned(c: Seq<char>, hp: Seq<char>) -> bool {
    exists|i: int| 0 <= i < lines_of(c).len() && pins(#[trigger] lines_of(c)[i], hp)
}

/// What forgetting `hp` leaves of the text `c`: the text itself, untouched,
/// when no line pins `hp`; else the rebuilt text without those lines.
pub open spec fn forget_text(c: Seq<char>, hp: Seq<char>) -> Seq<char> {
    if any_pinned(c, hp) {
        without_host_text(c, hp)
    } else {
        c
    }
}

/// The known_hosts text once every line pinning `hp` is removed: the kept
/// lines joined by newlines, with a final newline unless nothing is left.
pub open spec fn without_host_text(c: Seq<char>, hp: Seq<char>) -> Seq<char> {
    let ls = lines_of(c);
    let j = join_lines(kept_lines(ls, hp, ls.len()));
    if j.len() > 0 {
        j.push('\n')
    } else {
        j
    }
}

proof fn lemma_skip_spaces(s: Seq<char>, i: int)
    requires
        0 <= i <= s.len(),
    ensures
        i <= skip_spaces(s, i) <= s.len(),
        forall|j: int| i <= j < skip_spaces(s, i) ==> is_space(#[trigger] s[j]),
        skip_spaces(s, i) < s.len() ==> !is_space(s[skip_spaces(s, i)]),
    decreases s.len() - i,
{
    if i < s.len() && is_space(s[i]) {
        lemma_skip_spaces(s, i + 1);
    }
}

proof fn lemma_token_end(s: Seq<char>, i: int)
    requires
        0 <= i <= s.len(),
    ensures
        i <= token_end(s, i) <= s.len(),
        forall|j: int| i <= j < token_end(s, i) ==> !is_space(#[trigger] s[j]),
        token_end(s, i) < s.len() ==> is_space(s[token_end(s, i)]),
    decreases s.len() - i,
{
    if i < s.len() && !is_space(s[i]) {
        lemma_token_end(s, i + 1);
    }
}

proof fn lemma_skip_spaces_is(s: Seq<char>, i: int, k: int)
    requires
        0 <= i <= k <= s.len(),
        forall|j: int| i <= j < k ==> is_space(#[trigger] s[j]),
        k < s.len() ==> !is_space(s[k]),
    ensures
        skip_spaces(s, i) == k,
    decreases k - i,
{
    if i < k {
        lemma_skip_spaces_is(s, i + 1, k);
    }
}

proof fn lemma_token_end_is(s: Seq<char>, i: int, k: int)
    requires
        0 <= i <= k <= s.len(),
        forall|j: int| i <= j < k ==> !is_space(#[trigger] s[j]),
        k < s.len() ==> is_space(s[k]),
    ensures
        token_end(s, i) == k,
    decreases k - i,
{
    if i < k {
        lemma_token_end_is(s, i + 1, k);
    }
}

/// The first `k` lines keep all `k` exactly when none of them pins `hp`.
proof fn lemma_kept_len(ls: Seq<Seq<char>>, hp: Seq<char>, k: nat)
    requires
        k <= ls.len(),
    ensures
        kept_lines(ls, hp, k).len() <= k,
        kept_lines(ls, hp, k).len() == k <==> forall|j: int| 0 <= j < k ==> !pins(#[trigger] ls[j], hp),
    decreases k,
{
    if k > 0 {
        lemma_kept_len(ls, hp, (k - 1) as nat);
        if kept_lines(ls, hp, k).len() == k {
            assert forall|j: int| 0 <= j < k implies !pins(#[trigger] ls[j], hp) by {
                if j < k - 1 {
                    assert(kept_lines(ls, hp, (k - 1) as nat).len() == k - 1);
                }
            }
        }
    }
}

/// Whether `v[lo..hi]` equals `w`.
fn run_equals(v: &Vec<char>, lo: usize, hi: usize, w: &Vec<char>) -> (r: bool)
    requires
        lo <= hi <= v@.len(),
    ensures
        r == (v@.subrange(lo as int, hi as int) == w@),
{
    if hi - lo != w.len() {
        return false;
    }
    let mut i: usize = 0;
    while i < w.len()
        invariant
            hi - lo == w@.len(),
            lo <= hi <= v@.len(),
            i <= w@.len(),
            forall|j: int| 0 <= j < i ==> v@[lo + j] == w@[j],
        decreases w@.len() - i,
    {
        if v[lo + i] != w[i] {
            assert(v@.subrange(lo as int, hi as int)[i as int] != w@[i as int]);
            return false;
        }
        i = i + 1;
    }
    assert(v@.subrange(lo as int, hi as int) =~= w@);
    true
}

/// Whether the line `v[lo..hi]` pins `hp`.
fn line_pins(v: &Vec<char>, lo: usize, hi: usize, hp: &Vec<char>) -> (r: bool)
    requires
        lo <= hi <= v@.len(),
    ensures
        r == pins(v@.subrange(lo as int, hi as int), hp@),
{
    let ghost l = v@.subrange(lo as int, hi as int);
    let mut a = lo;
    while a < hi && is_space_char(v[a])
        invariant
            lo <= a <= hi <= v@.len(),
            l == v@.subrange(lo as int, hi as int),
            forall|j: int| 0 <= j < a - lo ==> is_space(#[trigger] l[j]),
        decreases hi - a,
    {
        assert(l[a - lo] == v@[a as int]);
        a = a + 1;
    }
    proof {
        if a < hi {
            assert(l[a - lo] == v@[a as int]);
        }
        lemma_skip_spaces_is(l, 0, a - lo);
    }
    let mut b = a;
    while b < hi && !is_space_char(v[b])
        invariant
            lo <= a <= b <= hi <= v@.len(),
            l == v@.subrange(lo as int, hi as int),
            forall|j: int| a - lo <= j < b - lo ==> !is_space(#[trigger] l[j]),
        decreases hi - b,
    {
        assert(l[b - lo] == v@[b as int]);
        b = b + 1;
    }
    proof {
        if b < hi {
            assert(l[b - lo] == v@[b as int]);
        }
        lemma_token_end_is(l, a - lo, b - lo);
        assert(first_field(l) =~= v@.subrange(a as int, b as int));
    }
    // Walk the comma-separated names of the first field.
    let ghost f = v@.subrange(a as int, b as int);
    let mut found = false;
    let mut start = a;
    let mut i = a;
    let ghost mut done: Seq<Seq<char>> = seq![];
    while i < b
        invariant
            a <= start <= i <= b <= v@.len(),
            f == v@.subrange(a as int, b as int),
            forall|j: int| start <= j < i ==> v@[j] != ',',
            split(f, ',') == done + split(v@.subrange(start as int, b as int), ','),
            found == (exists|j: int| 0 <= j < done.len() && #[trigger] done[j] == hp@),
        decreases b - i,
    {
        if v[i] == ',' {
            proof {
                lemma_split_step(v@, ',', start as int, i as int, b as int);
                assert(done + split(v@.subrange(start as int, b as int), ',') =~= done.push(
                    v@.subrange(start as int, i as int),
                ) + split(v@.subrange(i + 1, b as int), ','));
            }
            let eq = run_equals(v, start, i, hp);
            let ghost old_done = done;
            proof {
                done = done.push(v@.subrange(start as int, i as int));
                if found {
                    let j = choose|j: int| 0 <= j < old_done.len() && #[trigger] old_done[j] == hp@;
                    assert(done[j] == hp@);
                }
                if eq {
                    assert(done[old_done.len() as int] == hp@);
                }
                if !found && !eq {
                    assert forall|j: int| 0 <= j < done.len() implies #[trigger] done[j] != hp@ by {
                        if j < old_done.len() {
                            assert(done[j] == old_done[j]);
                        }
                    }
                }
            }
            found = found || eq;
            start = i + 1;
        }
        i = i + 1;
    }
    let last = run_equals(v, start, b, hp);
    proof {
        lemma_split_last(v@, ',', start as int, b as int);
        let pieces = split(f, ',');
        assert(pieces =~= done.push(v@.subrange(start as int, b as int)));
        if found {
            let j = choose|j: int| 0 <= j < done.len() && #[trigger] done[j] == hp@;
            assert(pieces[j] == hp@);
        }
        if last {
            assert(pieces[done.len() as int] == hp@);
        }
        if !found && !last {
            assert forall|j: int| 0 <= j < pieces.len() implies #[trigger] pieces[j] != hp@ by {
                if j < done.len() {
                    assert(pieces[j] == done[j]);
                }
            }
        }
    }
    found || last
}

/// Appends the line `v[lo..hi]` to `out`, after a newline unless it is the first kept line.
fn emit_line(out: &mut String, first: bool, v: &Vec<char>, lo: usize, hi: usize)
    requires
        lo <= hi <= v@.len(),
    ensures
        final(out)@ == (if first {
            old(out)@
        } else {
            old(out)@.push('\n')
        }) + v@.subrange(lo as int, hi as int),
{
    if !first {
        push_char(out, '\n');
    }
    let ghost before = out@;
    let mut i = lo;
    while i < hi
        invariant
            lo <= i <= hi <= v@.len(),
            out@ == before + v@.subrange(lo as int, i as int),
        decreases hi - i,
    {
        push_char(out, v[i]);
        assert(v@.subrange(lo as int, i + 1) =~= v@.subrange(lo as int, i as int).push(v@[i as int]));
        i = i + 1;
    }
}

/// The known_hosts text without every line that pins `host:port`: the
/// computation behind forgetting a host key. When no line pins it, the text
/// comes back exactly as it was.
pub fn without_host(content: &str, host: &str, port: u16) -> (r: String)
    ensures
        r@ == forget_text(content@, host_port_text(host@, port)),
{
    let hp_text = host_port(host, port);
    let hp = chars_of(hp_text.as_str());
    let v = chars_of(content);
    let ghost c = v@;
    let ghost hpv = hp@;
    let ghost raw = split(c, '\n');
    let ghost ls = lines_of(c);
    proof {
        lemma_split_nonempty(c, '\n');
        assert(c.subrange(0, c.len() as int) =~= c);
    }
    let n = v.len();
    let mut out = String::new();
    let mut any = false;
    let mut removed = false;
    let mut start: usize = 0;
    let mut i: usize = 0;
    let ghost mut done: Seq<Seq<char>> = seq![];
    while i < n
        invariant
            n == c.len(),
            v@ == c,
            hp@ == hpv,
            raw == split(c, '\n'),
            ls == lines_of(c),
            start <= i <= n,
            forall|j: int| start <= j < i ==> c[j] != '\n',
            raw == done + split(c.subrange(start as int, n as int), '\n'),
            out@ == join_lines(kept_lines(ls, hpv, done.len())),
            any == (kept_lines(ls, hpv, done.len()).len() > 0),
            kept_lines(ls, hpv, done.len()).len() <= done.len(),
            removed == (kept_lines(ls, hpv, done.len()).len() < done.len()),
            forall|j: int| 0 <= j < done.len() ==> #[trigger] ls[j] == strip_cr(done[j]),
            done.len() < raw.len(),
        decreases n - i,
    {
        if v[i] == '\n' {
            proof {
                lemma_split_step(c, '\n', start as int, i as int, n as int);
                lemma_split_nonempty(c.subrange(i + 1, n as int), '\n');
                assert(done + split(c.subrange(start as int, n as int), '\n') =~= done.push(
                    c.subrange(start as int, i as int),
                ) + split(c.subrange(i + 1, n as int), '\n'));
            }
            let mut end = i;
            if end > start && v[end - 1] == '\r' {
                end = end - 1;
            }
            let ghost piece = c.subrange(start as int, i as int);
            assert(strip_cr(piece) =~= c.subrange(start as int, end as int));
            let ghost k = done.len();
            assert(ls[k as int] == strip_cr(piece)) by {
                let newdone = done.push(piece);
                assert(raw[k as int] == piece);
            }
            let pinned = line_pins(&v, start, end, &hp);
            if !pinned {
                emit_line(&mut out, !any, &v, start, end);
                any = true;
            } else {
                removed = true;
            }
            proof {
                let kept = kept_lines(ls, hpv, k);
                assert(kept_lines(ls, hpv, (k + 1) as nat) == if pins(ls[k as int], hpv) {
                    kept
                } else {
                    kept.push(ls[k as int])
                });
                if !pinned {
                    let kp = kept.push(ls[k as int]);
                    assert(kp.drop_last() =~= kept);
                }
                let old_done = done;
                done = done.push(piece);
                assert forall|j: int| 0 <= j < done.len() implies #[trigger] ls[j] == strip_cr(
                    done[j],
                ) by {
                    if j < old_done.len() {
                        assert(done[j] == old_done[j]);
                    }
                }
            }
            start = i + 1;
        }
        i = i + 1;
    }
    proof {
        lemma_split_last(c, '\n', start as int, n as int);
        assert(raw =~= done.push(c.subrange(start as int, n as int)));
    }
    if start < n {
        // The last line has no newline after it.
        let ghost k = done.len();
        proof {
            assert(raw.last() == c.subrange(start as int, n as int));
            assert(ls.len() == k + 1);
            assert(ls[k as int] == c.subrange(start as int, n as int));
        }
        let pinned = line_pins(&v, start, n, &hp);
        if !pinned {
            emit_line(&mut out, !any, &v, start, n);
            proof {
                let kept = kept_lines(ls, hpv, k);
                let kp = kept.push(ls[k as int]);
                assert(kp.drop_last() =~= kept);
            }
        } else {
            removed = true;
        }
    } else {
        proof {
            assert(raw.last().len() == 0);
            assert(ls.len() == done.len());
        }
    }
    let ghost kept_all = kept_lines(ls, hpv, ls.len());
    assert(out@ == join_lines(kept_all));
    proof {
        lemma_kept_len(ls, hpv, ls.len());
        if removed {
            let j = choose|j: int| 0 <= j < ls.len() && pins(#[trigger] ls[j], hpv);
            assert(pins(lines_of(c)[j], hpv));
        }
    }
    if !removed {
        return owned(content);
    }
    if !out.as_str().is_empty() {
        push_char(&mut out, '\n');
    }
    out
}

/// Forgetting a host keeps exactly the lines that do not pin it, in their
/// order: no kept line pins the host, and every line that does not is kept.
pub proof fn law_forget_keeps_exactly_unpinned(ls: Seq<Seq<char>>, hp: Seq<char>)
    ensures
        kept_lines(ls, hp, ls.len()) == ls.filter(|l: Seq<char>| !pins(l, hp)),
        forall|i: int|
            0 <= i < kept_lines(ls, hp, ls.len()).len() ==> !pins(
                #[trigger] kept_lines(ls, hp, ls.len())[i],
                hp,
            ),
        forall|l: Seq<char>| #[trigger] ls.contains(l) && !pins(l, hp) ==> kept_lines(ls, hp, ls.len()).contains(l),
{
    let keep = |l: Seq<char>| !pins(l, hp);
    lemma_kept_is_filter(ls, hp, ls.len());
    assert(ls.take(ls.len() as int) =~= ls);
    let kept = kept_lines(ls, hp, ls.len());
    assert forall|i: int| 0 <= i < kept.len() implies !pins(#[trigger] kept[i], hp) by {
        ls.lemma_filter_pred(keep, i);
    }
    assert forall|l: Seq<char>| #[trigger] ls.contains(l) && !pins(l, hp) implies kept.contains(l) by {
        let i = choose|i: int| 0 <= i < ls.len() && ls[i] == l;
        ls.lemma_filter_contains(keep, i);
    }
}

proof fn lemma_kept_is_filter(ls: Seq<Seq<char>>, hp: Seq<char>, k: nat)
    requires
        k <= ls.len(),
    ensures
        kept_lines(ls, hp, k) == ls.take(k as int).filter(|l: Seq<char>| !pins(l, hp)),
    decreases k,
{
    let keep = |l: Seq<char>| !pins(l, hp);
    if k == 0 {
        assert(ls.take(0).filter(keep) =~= Seq::<Seq<char>>::empty()) by {
            reveal(Seq::filter);
        }
    } else {
        lemma_kept_is_filter(ls, hp, (k - 1) as nat);
        assert(ls.take(k as int) =~= ls.take(k - 1).push(ls[k - 1]));
        ls.take(k - 1).lemma_filter_push(ls[k - 1], keep);
    }
}

} // verus!
