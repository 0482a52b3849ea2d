//! Splitting sequences on a separator, as `str::split` does.
use vstd::prelude::*;

verus! {

// ---------------------------------------------------------------------------
// Splitting a byte sequence on a separator, as `str::split` does.
// ---------------------------------------------------------------------------

/// Index of the first occurrence of `c` in `s`, or `s.len()` when there is none.
pub open spec fn index_of<A>(s: Seq<A>, c: A) -> nat
    decreases s.len(),
{
    if s.len() == 0 {
        0
    } else if s[0] == c {
        0
    } else {
        1 + index_of(s.drop_first(), c)
    }
}

/// The pieces of `s` between occurrences of `sep` (always at least one piece).
pub open spec fn split<A>(s: Seq<A>, sep: A) -> Seq<Seq<A>>
    decreases s.len(),
{
    let k = index_of(s, sep);
    if k >= s.len() {
        seq![s]
    } else {
        seq![s.take(k as int)] + split(s.skip(k + 1int), sep)
    }
}

pub proof fn lemma_index_of<A>(s: Seq<A>, c: A)
    ensures
        index_of(s, c) <= s.len(),
        forall|j: int| 0 <= j < index_of(s, c) ==> s[j] != c,
        index_of(s, c) < s.len() ==> s[index_of(s, c) as int] == c,
    decreases s.len(),
{
    if s.len() > 0 && s[0] != c {
        lemma_index_of(s.drop_first(), c);
        assert forall|j: int| 0 <= j < index_of(s, c) implies s[j] != c by {
            if j > 0 {
                assert(s[j] == s.drop_first()[j - 1]);
            }
        }
    }
}

pub proof fn lemma_index_of_is<A>(s: Seq<A>, c: A, k: nat)
    requires
        k <= s.len(),
        forall|j: int| 0 <= j < k ==> s[j] != c,
        k < s.len() ==> s[k as int] == c,
    ensures
        index_of(s, c) == k,
    decreases s.len(),
{
    if s.len() > 0 && s[0] != c {
        lemma_index_of_is(s.drop_first(), c, (k - 1) as nat);
    }
}

/// Splitting `s[start..end]` when the first separator in it sits at `i`.
pub proof fn lemma_split_step<A>(s: Seq<A>, sep: A, start: int, i: int, end: int)
    requires
        0 <= start <= i < end <= s.len(),
        s[i] == sep,
        forall|j: int| start <= j < i ==> s[j] != sep,
    ensures
        split(s.subrange(start, end), sep) == seq![s.subrange(start, i)] + split(
            s.subrange(i + 1, end),
            sep,
        ),
{
    let t = s.subrange(start, end);
    lemma_index_of_is(t, sep, (i - start) as nat);
    assert(t.take(i - start) =~= s.subrange(start, i));
    assert(t.skip(i - start + 1) =~= s.subrange(i + 1, end));
}

/// Splitting `s[start..end]` when it holds no separator.
pub proof fn lemma_split_last<A>(s: Seq<A>, sep: A, start: int, end: int)
    requires
        0 <= start <= end <= s.len(),
        forall|j: int| start <= j < end ==> s[j] != sep,
    ensures
        split(s.subrange(start, end), sep) == seq![s.subrange(start, end)],
{
    let t = s.subrange(start, end);
    lemma_index_of_is(t, sep, t.len());
}

pub proof fn lemma_split_nonempty<A>(s: Seq<A>, sep: A)
    ensures
        split(s, sep).len() >= 1,
    decreases s.len(),
{
    lemma_index_of(s, sep);
    if index_of(s, sep) < s.len() {
        lemma_split_nonempty(s.skip(index_of(s, sep) + 1int), sep);
    }
}

} // verus!
