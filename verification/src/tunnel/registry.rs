//! The registry of running tunnels, keyed by tunnel id.
use vstd::prelude::*;

use std::collections::HashMap;

verus! {

broadcast use vstd::std_specs::hash::group_hash_axioms;

proof fn lemma_push_contains(s: Seq<u128>, a: u128)
    ensures
        forall|x: u128| #[trigger] s.push(a).contains(x) <==> (s.contains(x) || x == a),
{
    assert forall|x: u128| #[trigger] s.push(a).contains(x) <==> (s.contains(x) || x == a) by {
        if s.contains(x) {
            let j = choose|j: int| 0 <= j < s.len() && s[j] == x;
            assert(s.push(a)[j] == x);
        }
        if x == a {
            assert(s.push(a)[s.len() as int] == a);
        }
        if s.push(a).contains(x) {
            let j = choose|j: int| 0 <= j < s.len() + 1 && s.push(a)[j] == x;
            if j < s.len() {
                assert(s[j] == x);
            }
        }
    }
}

proof fn lemma_push_no_duplicates(s: Seq<u128>, a: u128)
    requires
        s.no_duplicates(),
        !s.contains(a),
    ensures
        s.push(a).no_duplicates(),
{
    let t = s.push(a);
    assert forall|i: int, j: int| 0 <= i < t.len() && 0 <= j < t.len() && i != j implies t[i]
        != t[j] by {
        if i < s.len() && j < s.len() {
            assert(t[i] == s[i] && t[j] == s[j]);
        } else if i < s.len() {
            assert(s.contains(t[i]));
        } else {
            assert(s.contains(t[j]));
        }
    }
}

/// Running tunnels by id (the 128-bit value of the tunnel's UUID). The ids
/// are also kept in the order the tunnels were started.
pub struct TunnelRegistry<T> {
    running: HashMap<u128, T>,
    order: Vec<u128>,
}

impl<T> View for TunnelRegistry<T> {
    type V = Map<u128, T>;

    closed spec fn view(&self) -> Map<u128, T> {
        self.running@
    }
}

/// The ids of `order` except `id`, in order.
fn without_id(order: &Vec<u128>, id: u128) -> (kept: Vec<u128>)
    requires
        order@.no_duplicates(),
    ensures
        kept@.no_duplicates(),
        forall|k: u128| #[trigger] kept@.contains(k) <==> (order@.contains(k) && k != id),
{
    let ghost before = order@;
    let mut kept: Vec<u128> = Vec::new();
    let n = order.len();
    for i in 0..n
        invariant
            n == order@.len(),
            order@ == before,
            before.no_duplicates(),
            kept@.no_duplicates(),
            forall|k: u128| #[trigger] kept@.contains(k) <==> (before.take(i as int).contains(k) && k != id),
    {
        let k = order[i];
        proof {
            assert(before.take(i + 1) =~= before.take(i as int).push(k));
            assert(!before.take(i as int).contains(k)) by {
                if before.take(i as int).contains(k) {
                    let j = choose|j: int| 0 <= j < i && before.take(i as int)[j] == k;
                    assert(before[j] == before[i as int]);
                }
            }
        }
        if k != id {
            proof {
                lemma_push_no_duplicates(kept@, k);
                lemma_push_contains(kept@, k);
            }
            kept.push(k);
        }
        proof {
            lemma_push_contains(before.take(i as int), k);
        }
    }
    assert(before.take(n as int) =~= before);
    kept
}

impl<T> TunnelRegistry<T> {
    /// Every running id is listed once in `order`, and nothing else is.
    #[verifier::type_invariant]
    spec fn well_formed(&self) -> bool {
        &&& self.order@.no_duplicates()
        &&& forall|k: u128| #[trigger] self.order@.contains(k) <==> self.running@.contains_key(k)
    }

    pub fn new() -> (r: Self)
        ensures
            r@ == Map::<u128, T>::empty(),
    {
        TunnelRegistry { running: HashMap::new(), order: Vec::new() }
    }

    pub fn is_running(&self, id: u128) -> (b: bool)
        ensures
            b == self@.contains_key(id),
    {
        self.running.contains_key(&id)
    }

    /// Ids of every running tunnel, each once.
    pub fn running_ids(&self) -> (ids: Vec<u128>)
        ensures
            ids@.no_duplicates(),
            forall|k: u128| #[trigger] ids@.contains(k) <==> self@.contains_key(k),
    {
        proof {
            use_type_invariant(self);
        }
        let mut ids: Vec<u128> = Vec::new();
        let n = self.order.len();
        for i in 0..n
            invariant
                n == self.order@.len(),
                ids@ == self.order@.take(i as int),
        {
            ids.push(self.order[i]);
            assert(ids@ =~= self.order@.take(i + 1));
        }
        assert(ids@ =~= self.order@);
        ids
    }

    /// Record `t` as the running tunnel `id`.
    pub fn insert(&mut self, id: u128, t: T)
        ensures
            final(self)@ == old(self)@.insert(id, t),
    {
        let mut taken = TunnelRegistry::new();
        std::mem::swap(&mut taken, self);
        proof {
            use_type_invariant(&taken);
        }
        let TunnelRegistry { mut running, mut order } = taken;
        if !running.contains_key(&id) {
            proof {
                assert(!order@.contains(id));
                lemma_push_no_duplicates(order@, id);
                lemma_push_contains(order@, id);
            }
            order.push(id);
        }
        running.insert(id, t);
        *self = TunnelRegistry { running, order };
    }

    /// Take the running tunnel `id` out of the registry, if there is one.
    pub fn take(&mut self, id: u128) -> (t: Option<T>)
        ensures
            final(self)@ == old(self)@.remove(id),
            match t {
                Some(v) => old(self)@.contains_key(id) && v == old(self)@[id],
                None => !old(self)@.contains_key(id),
            },
    {
        let mut taken = TunnelRegistry::new();
        std::mem::swap(&mut taken, self);
        proof {
            use_type_invariant(&taken);
        }
        let TunnelRegistry { mut running, order } = taken;
        let kept = without_id(&order, id);
        let t = running.remove(&id);
        *self = TunnelRegistry { running, order: kept };
        t
    }

    /// Take every running tunnel out of the registry.
    pub fn take_all(&mut self) -> (all: Vec<T>)
        ensures
            final(self)@ == Map::<u128, T>::empty(),
            exists|ids: Seq<u128>|
                {
                    &&& ids.no_duplicates()
                    &&& forall|k: u128| #[trigger] ids.contains(k) <==> old(self)@.contains_key(k)
                    &&& all@ == ids.map_values(|k: u128| old(self)@[k])
                },
    {
        let ids = self.running_ids();
        let ghost start = self@;
        let mut all: Vec<T> = Vec::new();
        let n = ids.len();
        for i in 0..n
            invariant
                n == ids@.len(),
                ids@.no_duplicates(),
                forall|k: u128| #[trigger] ids@.contains(k) <==> start.contains_key(k),
                all@ == ids@.take(i as int).map_values(|k: u128| start[k]),
                forall|k: u128| #[trigger] self@.contains_key(k) <==> (start.contains_key(k) && !ids@.take(i as int).contains(k)),
                forall|k: u128| self@.contains_key(k) ==> #[trigger] self@[k] == start[k],
        {
            let id = ids[i];
            proof {
                assert(ids@.take(i + 1) =~= ids@.take(i as int).push(id));
                assert(!ids@.take(i as int).contains(id)) by {
                    if ids@.take(i as int).contains(id) {
                        let j = choose|j: int| 0 <= j < i && ids@.take(i as int)[j] == id;
                        assert(ids@[j] == ids@[i as int]);
                    }
                }
                assert(ids@.contains(id));
                lemma_push_contains(ids@.take(i as int), id);
            }
            let t = self.take(id);
            match t {
                Some(v) => {
                    all.push(v);
                },
                None => {
                    assert(false);
                },
            }
            assert(all@ =~= ids@.take(i + 1).map_values(|k: u128| start[k]));
        }
        assert(ids@.take(n as int) =~= ids@);
        assert(self@ =~= Map::<u128, T>::empty());
        all
    }
}

/// Starting a tunnel (stopping any running instance of it, then recording
/// the new one) leaves it running as the new instance, and every other
/// running tunnel as it was.
pub proof fn law_start_then_running<T>(running: Map<u128, T>, id: u128, t: T)
    ensures
        running.remove(id).insert(id, t).contains_key(id),
        running.remove(id).insert(id, t)[id] == t,
        forall|k: u128|
            k != id ==> (#[trigger] running.remove(id).insert(id, t).contains_key(k)
                <==> running.contains_key(k)),
{
}

/// Stopping a tunnel removes it from the running set and leaves every other
/// running tunnel as it was; stopping it again changes nothing.
pub proof fn law_stop_removes<T>(running: Map<u128, T>, id: u128)
    ensures
        !running.remove(id).contains_key(id),
        forall|k: u128| k != id ==> (#[trigger] running.remove(id).contains_key(k) <==> running.contains_key(k)),
        running.remove(id).remove(id) == running.remove(id),
{
    assert(running.remove(id).remove(id) =~= running.remove(id));
}

} // verus!
