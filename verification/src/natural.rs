//! Natural numbers of any size, as vectors of base-2^32 digits (least
//! significant first): just what an exact rational delay needs, namely
//! multiplying by a machine word and comparing.
use vstd::prelude::*;

verus! {

pub open spec fn base() -> nat {
    0x1_0000_0000
}

/// `base()` to the power `n`.
pub open spec fn place(n: nat) -> nat
    decreases n,
{
    if n == 0 {
        1
    } else {
        place((n - 1) as nat) * base()
    }
}

/// The number that the digits `v` stand for.
pub open spec fn value(v: Seq<u32>) -> nat
    decreases v.len(),
{
    if v.len() == 0 {
        0
    } else {
        value(v.drop_last()) + v.last() as nat * place((v.len() - 1) as nat)
    }
}

proof fn lemma_place_positive(n: nat)
    ensures
        place(n) > 0,
    decreases n,
{
    if n > 0 {
        lemma_place_positive((n - 1) as nat);
        assert(place((n - 1) as nat) * base() > 0) by (nonlinear_arith)
            requires
                place((n - 1) as nat) > 0,
        ;
    }
}

proof fn lemma_value_push(v: Seq<u32>, d: u32)
    ensures
        value(v.push(d)) == value(v) + d as nat * place(v.len()),
{
    assert(v.push(d).drop_last() =~= v);
}

proof fn lemma_value_take(v: Seq<u32>, j: int)
    requires
        0 < j <= v.len(),
    ensures
        value(v.take(j)) == value(v.take(j - 1)) + v[j - 1] as nat * place((j - 1) as nat),
{
    assert(v.take(j).drop_last() =~= v.take(j - 1));
}

/// A number of `n` digits is below `place(n)`.
proof fn lemma_value_bound(v: Seq<u32>)
    ensures
        value(v) < place(v.len()),
    decreases v.len(),
{
    if v.len() > 0 {
        let n = (v.len() - 1) as nat;
        lemma_value_bound(v.drop_last());
        let p = place(n);
        let d = v.last() as nat;
        assert(value(v.drop_last()) + d * p < p * base()) by (nonlinear_arith)
            requires
                value(v.drop_last()) < p,
                d < base(),
        ;
    }
}

/// The number `n` as digits.
pub fn from_u64(n: u64) -> (r: Vec<u32>)
    ensures
        value(r@) == n,
{
    let lo = (n % 0x1_0000_0000) as u32;
    let hi = (n / 0x1_0000_0000) as u32;
    let r = vec![lo, hi];
    proof {
        assert(place(1) == place(0) * base());
        assert(n == lo as nat + hi as nat * base());
        lemma_value_push(seq![lo], hi);
        lemma_value_push(Seq::<u32>::empty(), lo);
        assert(seq![lo] =~= Seq::<u32>::empty().push(lo));
        assert(r@ =~= seq![lo].push(hi));
    }
    r
}

/// The product of `x` and `m`.
pub fn times(x: &Vec<u32>, m: u64) -> (r: Vec<u32>)
    ensures
        value(r@) == value(x@) * m,
{
    let n = x.len();
    let mut r: Vec<u32> = Vec::new();
    let mut carry: u64 = 0;
    let mut i: usize = 0;
    assert(x@.take(0) =~= Seq::<u32>::empty());
    while i < n
        invariant
            i <= n,
            n == x@.len(),
            r@.len() == i,
            value(r@) + carry as nat * place(i as nat) == value(x@.take(i as int)) * m,
        decreases n - i,
    {
        let a = x[i] as u128;
        let b = m as u128;
        assert(a * b <= 0xffff_ffff * 0xffff_ffff_ffff_ffff) by (nonlinear_arith)
            requires
                a <= 0xffff_ffff,
                b <= 0xffff_ffff_ffff_ffff,
        ;
        let t: u128 = a * b + (carry as u128);
        let lo = (t % 0x1_0000_0000) as u32;
        let hi = (t / 0x1_0000_0000) as u64;
        proof {
            let p = place(i as nat);
            lemma_value_push(r@, lo);
            lemma_value_take(x@, i + 1);
            assert(t == lo as int + hi as int * 0x1_0000_0000);
            assert(value(r@) + lo as nat * p + hi as nat * (p * base()) == value(x@.take(i + 1)) * m)
                by (nonlinear_arith)
                requires
                    value(r@) + carry as nat * p == value(x@.take(i as int)) * m,
                    value(x@.take(i + 1)) == value(x@.take(i as int)) + x@[i as int] as nat * p,
                    t == x@[i as int] as int * m as int + carry as int,
                    t == lo as int + hi as int * base(),
            ;
        }
        r.push(lo);
        carry = hi;
        i = i + 1;
    }
    assert(x@.take(n as int) =~= x@);
    let c0 = (carry % 0x1_0000_0000) as u32;
    let c1 = (carry / 0x1_0000_0000) as u32;
    proof {
        let p = place(n as nat);
        lemma_value_push(r@, c0);
        lemma_value_push(r@.push(c0), c1);
        assert(c0 as nat * p + c1 as nat * (p * base()) == carry as nat * p) by (nonlinear_arith)
            requires
                carry as int == c0 as int + c1 as int * base(),
        ;
    }
    r.push(c0);
    r.push(c1);
    r
}

/// `v` with zero digits added on top, up to `len` digits.
fn widened(v: &Vec<u32>, len: usize) -> (r: Vec<u32>)
    requires
        v@.len() <= len,
    ensures
        r@.len() == len,
        value(r@) == value(v@),
{
    let mut r = v.clone();
    assert(r@ =~= v@);
    while r.len() < len
        invariant
            r@.len() <= len,
            value(r@) == value(v@),
        decreases len - r@.len(),
    {
        proof {
            lemma_value_push(r@, 0);
        }
        r.push(0);
    }
    r
}

/// Whether `a` is at most `b`.
pub fn at_most(a: &Vec<u32>, b: &Vec<u32>) -> (r: bool)
    ensures
        r == (value(a@) <= value(b@)),
{
    let len = if a.len() < b.len() {
        b.len()
    } else {
        a.len()
    };
    let x = widened(a, len);
    let y = widened(b, len);
    assert(x@.take(len as int) =~= x@);
    assert(y@.take(len as int) =~= y@);
    let mut j = len;
    while j > 0
        invariant
            j <= len,
            x@.len() == len,
            y@.len() == len,
            value(x@) == value(a@),
            value(y@) == value(b@),
            value(x@) - value(y@) == value(x@.take(j as int)) - value(y@.take(j as int)),
        decreases j,
    {
        let k = j - 1;
        proof {
            lemma_value_take(x@, j as int);
            lemma_value_take(y@, j as int);
        }
        if x[k] != y[k] {
            proof {
                let p = place(k as nat);
                lemma_value_bound(x@.take(k as int));
                lemma_value_bound(y@.take(k as int));
                let vx = value(x@.take(k as int));
                let vy = value(y@.take(k as int));
                let dx = x@[k as int] as int;
                let dy = y@[k as int] as int;
                if dx < dy {
                    assert(vx + dx * p < vy + dy * p) by (nonlinear_arith)
                        requires
                            vx < p,
                            dx + 1 <= dy,
                            vy >= 0,
                    ;
                } else {
                    assert(vy + dy * p < vx + dx * p) by (nonlinear_arith)
                        requires
                            vy < p,
                            dy + 1 <= dx,
                            vx >= 0,
                    ;
                }
            }
            let less = x[k] < y[k];
            assert(less ==> value(x@) < value(y@));
            assert(!less ==> value(y@) < value(x@));
            return less;
        }
        j = k;
    }
    assert(x@.take(0) =~= Seq::<u32>::empty());
    assert(y@.take(0) =~= Seq::<u32>::empty());
    true
}

} // verus!
