use vstd::prelude::*;
use crate::rng::{read_u128};

verus! {

/// An exec check whether an identifier occurs in a key list.
pub fn contains_id(keys: &Vec<u128>, id: u128) -> (r: bool)
    ensures
        r == keys@.contains(id),
{
    let n = keys.len();
    let mut i: usize = 0;
    while i < n
        invariant
            n == keys@.len(),
            i <= n,
            forall|j: int| 0 <= j < i ==> keys@[j] != id,
        decreases n - i,
    {
        if keys[i] == id {
            return true;
        }
        i += 1;
    }
    proof {
        assert(!keys@.contains(id));
    }
    false
}

/// A finite set of identifiers that holds every value below `k` has at least
/// `k` elements.
proof fn lemma_covered_range_len(s: Set<u128>, k: nat)
    requires
        s.finite(),
        k <= u128::MAX as nat + 1,
        forall|v: u128| (v as nat) < k ==> s.contains(v),
    ensures
        s.len() >= k,
    decreases k,
{
    broadcast use vstd::set::group_set_axioms;

    if k > 0 {
        let last = (k - 1) as u128;
        let s2 = s.remove(last);
        lemma_covered_range_len(s2, (k - 1) as nat);
        assert(s.contains(last));
        assert(s2.len() == s.len() - 1);
    }
}

/// Draw random identifiers until one avoids every identifier in `existing`.
///
/// A collision of a fresh 128-bit draw with the live set is next to
/// impossible; a small number of draws is allowed before a deterministic
/// sweep of small identifiers takes over, which provably finds a free one.
/// Only freshness is promised of the result.
pub fn generate_unique(existing: &Vec<u128>, source: &mut random::Xorshift128Plus) -> (id: u128)
    ensures
        !existing@.contains(id),
{
    broadcast use vstd::set::group_set_axioms;
    broadcast use vstd::seq_lib::seq_to_set_is_finite;

    let mut tries: u32 = 0;
    while tries < 32
        invariant
            true,
        decreases 32 - tries,
    {
        let id = read_u128(source);
        if !contains_id(existing, id) {
            return id;
        }
        tries += 1;
    }
    let n = existing.len();
    let mut c: u128 = 0;
    loop
        invariant
            c <= n as u128,
            n == existing@.len(),
            forall|v: u128| v < c ==> existing@.contains(v),
        decreases n as int - c as int,
    {
        if !contains_id(existing, c) {
            return c;
        }
        proof {
            if c == n as u128 {
                let s = existing@.to_set();
                assert forall|v: u128| (v as nat) < (n + 1) as nat implies s.contains(v) by {
                    if v < c {
                        assert(existing@.contains(v));
                    } else {
                        assert(v == c);
                    }
                }
                lemma_covered_range_len(s, (n + 1) as nat);
                existing@.lemma_cardinality_of_set();
                assert(false);
            }
        }
        c = c + 1;
    }
}

/// The live map of connection identifier to outbound sink: the single source
/// of truth for who is currently connected. The sink type is whatever handle
/// the transport hands out; the registry never looks inside it.
pub struct Registry<S> {
    pub entries: Vec<(u128, S)>,
}

impl<S> Registry<S> {
    /// The live identifiers, in insertion order.
    pub open spec fn ids(self) -> Seq<u128> {
        self.entries@.map_values(|e: (u128, S)| e.0)
    }

    /// No identifier occurs twice.
    pub open spec fn wf(self) -> bool {
        self.ids().no_duplicates()
    }

    /// Whether `id` is currently registered.
    pub open spec fn live(self, id: u128) -> bool {
        self.ids().contains(id)
    }

    pub fn new() -> (r: Self)
        ensures
            r.entries@.len() == 0,
            r.wf(),
    {
        Registry { entries: Vec::new() }
    }

    pub fn contains(&self, id: u128) -> (r: bool)
        ensures
            r == self.live(id),
    {
        let n = self.entries.len();
        let mut i: usize = 0;
        while i < n
            invariant
                n == self.entries@.len(),
                i <= n,
                forall|j: int| 0 <= j < i ==> (#[trigger] self.entries@[j]).0 != id,
            decreases n - i,
        {
            if self.entries[i].0 == id {
                proof {
                    assert(self.ids()[i as int] == id);
                }
                return true;
            }
            i += 1;
        }
        proof {
            assert forall|j: int| 0 <= j < self.ids().len() implies self.ids()[j] != id by {
                assert(self.entries@[j].0 != id);
            }
            assert(!self.live(id));
        }
        false
    }

    /// Generate a fresh identifier, bind it to `sink`, and return it.
    ///
    /// The identifier avoids every currently live identifier; identifiers of
    /// connections removed earlier may well come back.
    pub fn register(&mut self, source: &mut random::Xorshift128Plus, sink: S) -> (id: u128)
        requires
            old(self).wf(),
        ensures
            final(self).wf(),
            !old(self).live(id),
            final(self).live(id),
            final(self).entries@ == old(self).entries@.push((id, sink)),
            final(self).ids() == old(self).ids().push(id),
    {
        let keys = self.snapshot_keys();
        let id = generate_unique(&keys, source);
        self.entries.push((id, sink));
        proof {
            assert(self.ids() =~= old(self).ids().push(id));
            assert(self.ids()[self.ids().len() - 1] == id);
            assert forall|i: int, j: int|
                0 <= i < j < self.ids().len() implies self.ids()[i] != self.ids()[j] by {
                if j < self.ids().len() - 1 {
                    assert(old(self).ids()[i] != old(self).ids()[j]);
                } else {
                    assert(self.ids()[i] == old(self).ids()[i]);
                    assert(old(self).ids().contains(old(self).ids()[i]));
                }
            }
            assert(self.live(id));
        }
        id
    }

    /// Remove `id` if it is present; removing an absent identifier is a no-op,
    /// so teardown paths may call this unconditionally.
    pub fn remove(&mut self, id: u128)
        requires
            old(self).wf(),
        ensures
            final(self).wf(),
            !final(self).live(id),
            !old(self).live(id) ==> final(self).entries@ == old(self).entries@,
            old(self).live(id) ==> exists|i: int|
                0 <= i < old(self).entries@.len() && (#[trigger] old(self).entries@[i]).0 == id
                    && final(self).entries@ == old(self).entries@.remove(i),
            forall|o: u128| o != id ==> final(self).live(o) == old(self).live(o),
    {
        let n = self.entries.len();
        let mut i: usize = 0;
        while i < n
            invariant
                old(self).wf(),
                self.entries@ == old(self).entries@,
                n == self.entries@.len(),
                i <= n,
                forall|j: int| 0 <= j < i ==> (#[trigger] self.entries@[j]).0 != id,
            decreases n - i,
        {
            if self.entries[i].0 == id {
                self.entries.remove(i);
                proof {
                    let oids = old(self).ids();
                    let nids = self.ids();
                    assert(oids[i as int] == id);
                    assert(nids =~= oids.remove(i as int));
                    assert forall|a: int, b: int|
                        0 <= a < b < nids.len() implies nids[a] != nids[b] by {
                        let a0: int = if a < i { a } else { a + 1 };
                        let b0: int = if b < i { b } else { b + 1 };
                        assert(nids[a] == oids[a0]);
                        assert(nids[b] == oids[b0]);
                    }
                    assert forall|j: int| 0 <= j < nids.len() implies nids[j] != id by {
                        if j < i {
                            assert(nids[j] == oids[j]);
                        } else {
                            assert(nids[j] == oids[j + 1]);
                        }
                    }
                    assert(!nids.contains(id));
                    assert forall|o: u128| o != id implies self.live(o) == old(self).live(
                        o,
                    ) by {
                        if old(self).live(o) {
                            let k = choose|k: int| 0 <= k < oids.len() && oids[k] == o;
                            let k2: int = if k < i { k } else { k - 1 };
                            assert(nids[k2] == o);
                            assert(nids.contains(o));
                        }
                        if self.live(o) {
                            let k = choose|k: int| 0 <= k < nids.len() && nids[k] == o;
                            let k2: int = if k < i { k } else { k + 1 };
                            assert(oids[k2] == o);
                            assert(oids.contains(o));
                        }
                    }
                }
                return ;
            }
            i += 1;
        }
        proof {
            assert forall|j: int| 0 <= j < self.ids().len() implies self.ids()[j] != id by {
                assert(self.entries@[j].0 != id);
            }
            assert(!self.live(id));
        }
    }

    /// The live identifiers at this instant, for the router to pick targets
    /// from once the lock is released.
    pub fn snapshot_keys(&self) -> (r: Vec<u128>)
        ensures
            r@ == self.ids(),
    {
        let n = self.entries.len();
        let mut keys: Vec<u128> = Vec::new();
        let mut i: usize = 0;
        while i < n
            invariant
                n == self.entries@.len(),
                i <= n,
                keys@ == self.entries@.subrange(0, i as int).map_values(|e: (u128, S)| e.0),
            decreases n - i,
        {
            keys.push(self.entries[i].0);
            proof {
                assert(keys@ =~= self.entries@.subrange(0, i + 1).map_values(
                    |e: (u128, S)| e.0,
                ));
            }
            i += 1;
        }
        proof {
            assert(self.entries@.subrange(0, n as int) =~= self.entries@);
            assert(keys@ =~= self.ids());
        }
        keys
    }

    /// Borrow the sink registered for `id`, to perform one send against it.
    pub fn get_sink(&self, id: u128) -> (r: Option<&S>)
        requires
            self.wf(),
        ensures
            match r {
                Some(s) => self.live(id) && exists|j: int|
                    0 <= j < self.entries@.len() && (#[trigger] self.entries@[j]).0 == id
                        && self.entries@[j].1 == *s,
                None => !self.live(id),
            },
    {
        let n = self.entries.len();
        let mut i: usize = 0;
        while i < n
            invariant
                self.wf(),
                n == self.entries@.len(),
                i <= n,
                forall|j: int| 0 <= j < i ==> (#[trigger] self.entries@[j]).0 != id,
            decreases n - i,
        {
            if self.entries[i].0 == id {
                proof {
                    assert((self.entries@[i as int]).0 == id);
                    assert(self.ids()[i as int] == id);
                }
                return Some(&self.entries[i].1);
            }
            i += 1;
        }
        proof {
            assert forall|j: int| 0 <= j < self.ids().len() implies self.ids()[j] != id by {
                assert(self.entries@[j].0 != id);
            }
            assert(!self.live(id));
        }
        None
    }
}

/// However many connections register concurrently, the serialized
/// registrations leave one live entry each, all pairwise distinct: every
/// registration's identifier avoids everything live at its moment, so a run
/// of `n` registrations with no disconnects grows the registry by exactly
/// `n` distinct identifiers.
pub proof fn lemma_registrations_distinct(initial: Seq<u128>, fresh: Seq<u128>)
    requires
        initial.no_duplicates(),
        forall|i: int|
            0 <= i < fresh.len() ==> !((initial + fresh.take(i)).contains(#[trigger] fresh[i])),
    ensures
        (initial + fresh).no_duplicates(),
        (initial + fresh).len() == initial.len() + fresh.len(),
{
    let all = initial + fresh;
    assert forall|a: int, b: int| 0 <= a < b < all.len() implies all[a] != all[b] by {
        let n = initial.len() as int;
        if b < n {
            assert(initial[a] != initial[b]);
        } else {
            let bf = b - n;
            assert(all[b] == fresh[bf]);
            assert(!((initial + fresh.take(bf)).contains(fresh[bf])));
            if a < n {
                assert((initial + fresh.take(bf))[a] == initial[a]);
                assert((initial + fresh.take(bf)).contains(initial[a]));
            } else {
                let af = a - n;
                assert((initial + fresh.take(bf))[n + af] == fresh[af]);
                assert((initial + fresh.take(bf)).contains(fresh[af]));
            }
        }
    }
}

} // verus!
