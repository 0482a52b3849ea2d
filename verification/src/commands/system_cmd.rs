//! Choosing the addresses offered in the bind-address picker.
use vstd::prelude::*;

use crate::text::chars_of;

verus! {

/// A local network interface the user can bind a listener to.
#[derive(Debug, Clone, PartialEq, Eq)]
pub struct NetworkInterface {
    pub name: String,
    pub address: String,
}

/// One address of one interface, as the system lists it.
#[derive(Debug, Clone, PartialEq, Eq)]
pub struct InterfaceAddress {
    pub name: String,
    /// The address in text form.
    pub address: String,
    /// Whether the address is IPv4.
    pub ipv4: bool,
}

/// Text order: by character code, a proper prefix first (the order of `String`).
pub open spec fn text_lt(a: Seq<char>, b: Seq<char>) -> bool
    decreases a.len(),
{
    if a.len() == 0 {
        b.len() > 0
    } else if b.len() == 0 {
        false
    } else if a[0] != b[0] {
        (a[0] as int) < (b[0] as int)
    } else {
        text_lt(a.drop_first(), b.drop_first())
    }
}

pub proof fn lemma_text_lt_trichotomy(a: Seq<char>, b: Seq<char>)
    ensures
        a == b || text_lt(a, b) || text_lt(b, a),
        !(text_lt(a, b) && text_lt(b, a)),
        !(text_lt(a, b) && a == b),
    decreases a.len(),
{
    if a.len() > 0 && b.len() > 0 && a[0] == b[0] {
        lemma_text_lt_trichotomy(a.drop_first(), b.drop_first());
        if a.drop_first() == b.drop_first() {
            assert(a =~= seq![a[0]] + a.drop_first());
            assert(b =~= seq![b[0]] + b.drop_first());
        }
    }
    if a.len() == 0 && b.len() == 0 {
        assert(a =~= b);
    }
}

pub proof fn lemma_text_lt_transitive(a: Seq<char>, b: Seq<char>, c: Seq<char>)
    requires
        text_lt(a, b),
        text_lt(b, c),
    ensures
        text_lt(a, c),
    decreases a.len(),
{
    if a.len() > 0 && b.len() > 0 && c.len() > 0 && a[0] == b[0] && b[0] == c[0] {
        lemma_text_lt_transitive(a.drop_first(), b.drop_first(), c.drop_first());
    }
}

fn text_less(a: &Vec<char>, b: &Vec<char>) -> (r: bool)
    ensures
        r == text_lt(a@, b@),
{
    let mut i: usize = 0;
    assert(a@.skip(0) =~= a@ && b@.skip(0) =~= b@);
    while i < a.len() && i < b.len() && a[i] == b[i]
        invariant
            i <= a@.len(),
            i <= b@.len(),
            forall|j: int| 0 <= j < i ==> a@[j] == b@[j],
            text_lt(a@, b@) == text_lt(a@.skip(i as int), b@.skip(i as int)),
        decreases a@.len() - i,
    {
        proof {
            let sa = a@.skip(i as int);
            let sb = b@.skip(i as int);
            assert(sa.drop_first() =~= a@.skip(i + 1));
            assert(sb.drop_first() =~= b@.skip(i + 1));
        }
        i = i + 1;
    }
    let ghost sa = a@.skip(i as int);
    let ghost sb = b@.skip(i as int);
    if i == a.len() {
        i < b.len()
    } else if i == b.len() {
        false
    } else {
        assert(sa[0] == a@[i as int] && sb[0] == b@[i as int]);
        a[i] < b[i]
    }
}

/// The chosen addresses are sorted and each appears once.
pub open spec fn sorted_unique(r: Seq<NetworkInterface>) -> bool {
    forall|i: int, j: int| 0 <= i < j < r.len() ==> text_lt(#[trigger] r[i].address@, #[trigger] r[j].address@)
}

/// `found[j]` is the first IPv4 entry with its address.
pub open spec fn first_ipv4_with_address(found: Seq<InterfaceAddress>, j: int) -> bool {
    &&& 0 <= j < found.len()
    &&& found[j].ipv4
    &&& forall|k: int| 0 <= k < j ==> !(#[trigger] found[k].ipv4 && found[k].address@ == found[j].address@)
}

/// `e` carries the name and address of the first IPv4 entry of `found` with that address.
pub open spec fn from_first_entry(found: Seq<InterfaceAddress>, e: NetworkInterface) -> bool {
    exists|j: int|
        #![trigger found[j]]
        first_ipv4_with_address(found, j) && found[j].name@ == e.name@ && found[j].address@
            == e.address@
}

/// The picker's list for the entries `found`: their IPv4 addresses sorted,
/// each once, named after the first interface that has it.
pub open spec fn picker_list(found: Seq<InterfaceAddress>, r: Seq<NetworkInterface>) -> bool {
    &&& sorted_unique(r)
    &&& forall|i: int| 0 <= i < r.len() ==> from_first_entry(found, #[trigger] r[i])
    &&& forall|j: int|
        0 <= j < found.len() && #[trigger] found[j].ipv4 ==> exists|i: int|
            0 <= i < r.len() && #[trigger] r[i].address@ == found[j].address@
}

/// Some listed entry has address `a`.
pub open spec fn covered(r: Seq<NetworkInterface>, a: Seq<char>) -> bool {
    exists|i: int| 0 <= i < r.len() && #[trigger] r[i].address@ == a
}

/// `e` is named and addressed as the first IPv4 entry with its address among `found[..k]`.
pub open spec fn origin(found: Seq<InterfaceAddress>, k: int, e: NetworkInterface) -> bool {
    exists|j: int|
        #![trigger found[j]]
        j < k && first_ipv4_with_address(found, j) && found[j].name@ == e.name@ && found[j].address@
            == e.address@
}

/// Puts `item`'s address into the sorted list unless it is listed already.
fn place(r: &mut Vec<NetworkInterface>, keys: &mut Vec<Vec<char>>, item: &InterfaceAddress) -> (inserted: bool)
    requires
        old(keys)@.len() == old(r)@.len(),
        forall|i: int| 0 <= i < old(r)@.len() ==> #[trigger] old(keys)@[i]@ == old(r)@[i].address@,
        sorted_unique(old(r)@),
    ensures
        final(keys)@.len() == final(r)@.len(),
        forall|i: int| 0 <= i < final(r)@.len() ==> #[trigger] final(keys)@[i]@ == final(r)@[i].address@,
        sorted_unique(final(r)@),
        covered(final(r)@, item.address@),
        forall|a: Seq<char>| covered(old(r)@, a) ==> #[trigger] covered(final(r)@, a),
        inserted <==> !covered(old(r)@, item.address@),
        !inserted ==> final(r)@ == old(r)@,
        forall|x: NetworkInterface| #[trigger] final(r)@.contains(x) ==> old(r)@.contains(x) || (
        inserted && x.name@ == item.name@ && x.address@ == item.address@),
{
    let key = chars_of(item.address.as_str());
    // Find the first listed address not below this one.
    let mut p: usize = 0;
    while p < keys.len() && text_less(&keys[p], &key)
        invariant
            p <= keys@.len(),
            keys@.len() == r@.len(),
            forall|i: int| 0 <= i < r@.len() ==> #[trigger] keys@[i]@ == r@[i].address@,
            forall|i: int| 0 <= i < p ==> text_lt(#[trigger] r@[i].address@, key@),
        decreases keys@.len() - p,
    {
        p = p + 1;
    }
    let ghost old_r = r@;
    if p < keys.len() && !text_less(&key, &keys[p]) {
        proof {
            lemma_text_lt_trichotomy(r@[p as int].address@, key@);
            assert(r@[p as int].address@ == item.address@);
        }
        return false;
    }
    proof {
        if p < keys@.len() {
            lemma_text_lt_trichotomy(r@[p as int].address@, key@);
        }
        assert(!covered(old_r, item.address@)) by {
            if covered(old_r, item.address@) {
                let i = choose|i: int| 0 <= i < old_r.len() && #[trigger] old_r[i].address@ == item.address@;
                if i < p {
                    lemma_text_lt_trichotomy(old_r[i].address@, key@);
                } else if i > p {
                    lemma_text_lt_transitive(key@, old_r[p as int].address@, old_r[i].address@);
                    lemma_text_lt_trichotomy(key@, old_r[i].address@);
                } else {
                    lemma_text_lt_trichotomy(key@, old_r[i].address@);
                }
            }
        }
    }
    let entry = NetworkInterface { name: item.name.clone(), address: item.address.clone() };
    r.insert(p, entry);
    keys.insert(p, key);
    proof {
        let pp = p as int;
        assert forall|i: int| 0 <= i < r@.len() implies #[trigger] keys@[i]@ == r@[i].address@ by {
            if i > pp {
                assert(r@[i] == old_r[i - 1]);
            }
        }
        assert forall|a: int, b: int| 0 <= a < b < r@.len() implies text_lt(
            #[trigger] r@[a].address@,
            #[trigger] r@[b].address@,
        ) by {
            if a < pp && b > pp {
                assert(r@[b] == old_r[b - 1]);
            } else if a == pp && b > pp {
                assert(r@[b] == old_r[b - 1]);
                if b - 1 > pp {
                    lemma_text_lt_transitive(key@, old_r[pp].address@, old_r[b - 1].address@);
                }
            } else if a > pp {
                assert(r@[a] == old_r[a - 1] && r@[b] == old_r[b - 1]);
            }
        }
        assert(r@[pp].address@ == item.address@);
        assert forall|a: Seq<char>| covered(old_r, a) implies #[trigger] covered(r@, a) by {
            let i = choose|i: int| 0 <= i < old_r.len() && #[trigger] old_r[i].address@ == a;
            if i < pp {
                assert(r@[i] == old_r[i]);
            } else {
                assert(r@[i + 1] == old_r[i]);
            }
        }
        assert forall|x: NetworkInterface| #[trigger] r@.contains(x) implies old_r.contains(x) || (
        x.name@ == item.name@ && x.address@ == item.address@) by {
            let i = choose|i: int| 0 <= i < r@.len() && r@[i] == x;
            if i < pp {
                assert(old_r[i] == x);
            } else if i > pp {
                assert(old_r[i - 1] == x);
            }
        }
    }
    true
}

/// The IPv4 addresses of `found`, sorted by address text, each address once
/// (kept under the first interface that lists it).
pub fn select_interfaces(found: &Vec<InterfaceAddress>) -> (r: Vec<NetworkInterface>)
    ensures
        picker_list(found@, r@),
{
    let mut r: Vec<NetworkInterface> = Vec::new();
    let mut keys: Vec<Vec<char>> = Vec::new();
    let n = found.len();
    for k in 0..n
        invariant
            n == found@.len(),
            keys@.len() == r@.len(),
            forall|i: int| 0 <= i < r@.len() ==> #[trigger] keys@[i]@ == r@[i].address@,
            sorted_unique(r@),
            forall|x: NetworkInterface| #[trigger] r@.contains(x) ==> origin(found@, k as int, x),
            forall|j: int|
                0 <= j < k && #[trigger] found@[j].ipv4 ==> covered(r@, found@[j].address@),
    {
        let item = &found[k];
        let ghost old_r = r@;
        if item.ipv4 {
            let inserted = place(&mut r, &mut keys, item);
            proof {
                if inserted {
                    assert forall|j: int| 0 <= j < k implies !(#[trigger] found@[j].ipv4
                        && found@[j].address@ == item.address@) by {
                        if found@[j].ipv4 && found@[j].address@ == item.address@ {
                            assert(covered(old_r, found@[j].address@));
                        }
                    }
                    assert(first_ipv4_with_address(found@, k as int));
                }
                assert forall|x: NetworkInterface| #[trigger] r@.contains(x) implies origin(
                    found@,
                    k + 1,
                    x,
                ) by {
                    if old_r.contains(x) {
                        let j = choose|j: int|
                            #![trigger found@[j]]
                            j < k && first_ipv4_with_address(found@, j) && found@[j].name@
                                == x.name@ && found@[j].address@ == x.address@;
                        assert(found@[j] == found@[j]);
                    } else {
                        assert(found@[k as int] == found@[k as int]);
                    }
                }
                assert forall|j: int| 0 <= j < k + 1 && #[trigger] found@[j].ipv4 implies covered(
                    r@,
                    found@[j].address@,
                ) by {
                    if j < k {
                        assert(covered(old_r, found@[j].address@));
                    }
                }
            }
        } else {
            proof {
                assert forall|x: NetworkInterface| #[trigger] r@.contains(x) implies origin(
                    found@,
                    k + 1,
                    x,
                ) by {
                    let j = choose|j: int|
                        #![trigger found@[j]]
                        j < k && first_ipv4_with_address(found@, j) && found@[j].name@ == x.name@
                            && found@[j].address@ == x.address@;
                    assert(found@[j] == found@[j]);
                }
            }
        }
    }
    proof {
        assert forall|i: int| 0 <= i < r@.len() implies from_first_entry(found@, #[trigger] r@[i]) by {
            assert(r@.contains(r@[i]));
            let j = choose|j: int|
                #![trigger found@[j]]
                j < n && first_ipv4_with_address(found@, j) && found@[j].name@ == r@[i].name@
                    && found@[j].address@ == r@[i].address@;
            assert(found@[j] == found@[j]);
        }
        assert forall|j: int| 0 <= j < found@.len() && #[trigger] found@[j].ipv4 implies exists|
            i: int,
        | 0 <= i < r@.len() && #[trigger] r@[i].address@ == found@[j].address@ by {
            assert(covered(r@, found@[j].address@));
        }
    }
    r
}

} // verus!
