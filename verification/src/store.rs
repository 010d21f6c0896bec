//! Keyspace store: a mapping from key to value with an optional absolute
//! expiry instant, and expiry-aware read and write.
//!
//! Time never advances inside the store; every operation receives the
//! current instant, in milliseconds, from its caller. An entry whose
//! expiry has passed is treated exactly like an absent one.

use crate::text::bytes_eq;
use vstd::prelude::*;
use vstd::slice::slice_to_vec;

verus! {

/// An entry of the keyspace: a value and an optional absolute expiry
/// instant in milliseconds. `None` means the key never expires; no
/// default lifetime is ever applied.
pub struct KeyspaceEntry {
    pub value: Vec<u8>,
    pub expire_at: Option<u64>,
}

/// The mathematical shape of an entry.
pub struct EntryModel {
    pub value: Seq<u8>,
    pub expire_at: Option<u64>,
}

impl View for KeyspaceEntry {
    type V = EntryModel;

    open spec fn view(&self) -> EntryModel {
        EntryModel { value: self.value@, expire_at: self.expire_at }
    }
}

/// Whether an entry is still alive at instant `now`: it either never
/// expires or its expiry lies strictly in the future.
pub open spec fn live_at(e: EntryModel, now: u64) -> bool {
    match e.expire_at {
        None => true,
        Some(t) => now < t,
    }
}

/// The expiry instant a write records: `now + ttl` where a lifetime is
/// given (held at the top of the clock's range where the sum would not
/// fit), none otherwise.
pub open spec fn spec_expiry(now: u64, ttl: Option<u64>) -> Option<u64> {
    match ttl {
        None => None,
        Some(t) => Some(
            if now + t > u64::MAX {
                u64::MAX
            } else {
                (now + t) as u64
            },
        ),
    }
}

/// First entry of `es` whose key reads as `k`, if any.
spec fn seq_find(es: Seq<(Vec<u8>, KeyspaceEntry)>, k: Seq<u8>) -> Option<EntryModel>
    decreases es.len(),
{
    if es.len() == 0 {
        None
    } else if es[0].0@ == k {
        Some(es[0].1@)
    } else {
        seq_find(es.skip(1), k)
    }
}

/// The keyspace store: a mapping from binary-safe key to entry, seen in
/// contracts as a `Map` from byte sequence to entry model.
pub struct KeyspaceStore {
    entries: Vec<(Vec<u8>, KeyspaceEntry)>,
}

impl View for KeyspaceStore {
    type V = Map<Seq<u8>, EntryModel>;

    closed spec fn view(&self) -> Map<Seq<u8>, EntryModel> {
        Map::new(
            |k: Seq<u8>| seq_find(self.entries@, k) is Some,
            |k: Seq<u8>|
                match seq_find(self.entries@, k) {
                    Some(e) => e,
                    None => arbitrary(),
                },
        )
    }
}

/// If `i` is the first index of `es` whose key is `k`, the lookup finds
/// that entry.
proof fn lemma_seq_find_first(es: Seq<(Vec<u8>, KeyspaceEntry)>, k: Seq<u8>, i: int)
    requires
        0 <= i < es.len(),
        es[i].0@ == k,
        forall|j: int| 0 <= j < i ==> es[j].0@ != k,
    ensures
        seq_find(es, k) == Some(es[i].1@),
    decreases i,
{
    if i > 0 {
        lemma_seq_find_first(es.skip(1), k, i - 1);
    }
}

/// Where no entry of `es` has key `k`, the lookup finds nothing.
proof fn lemma_seq_find_none(es: Seq<(Vec<u8>, KeyspaceEntry)>, k: Seq<u8>)
    requires
        forall|j: int| 0 <= j < es.len() ==> es[j].0@ != k,
    ensures
        seq_find(es, k) is None,
    decreases es.len(),
{
    if es.len() > 0 {
        lemma_seq_find_none(es.skip(1), k);
    }
}

/// Overwriting the first entry that holds key `p.0@`, in place, changes
/// the lookup at that key alone.
proof fn lemma_seq_find_update(
    es: Seq<(Vec<u8>, KeyspaceEntry)>,
    i: int,
    p: (Vec<u8>, KeyspaceEntry),
    k2: Seq<u8>,
)
    requires
        0 <= i < es.len(),
        es[i].0@ == p.0@,
        forall|j: int| 0 <= j < i ==> es[j].0@ != p.0@,
    ensures
        seq_find(es.update(i, p), k2) == if k2 == p.0@ {
            Some(p.1@)
        } else {
            seq_find(es, k2)
        },
    decreases i,
{
    let es2 = es.update(i, p);
    if k2 == p.0@ {
        assert(forall|j: int| 0 <= j < i ==> es2[j] == es[j]);
        lemma_seq_find_first(es2, k2, i);
    } else {
        if i == 0 {
            assert(es2.skip(1) =~= es.skip(1));
        } else {
            assert(es2.skip(1) =~= es.skip(1).update(i - 1, p));
            lemma_seq_find_update(es.skip(1), i - 1, p, k2);
        }
    }
}

/// Appending an entry whose key is absent from `es` changes the lookup
/// at that key alone.
proof fn lemma_seq_find_push(
    es: Seq<(Vec<u8>, KeyspaceEntry)>,
    p: (Vec<u8>, KeyspaceEntry),
    k2: Seq<u8>,
)
    requires
        forall|j: int| 0 <= j < es.len() ==> es[j].0@ != p.0@,
    ensures
        seq_find(es.push(p), k2) == if k2 == p.0@ {
            Some(p.1@)
        } else {
            seq_find(es, k2)
        },
    decreases es.len(),
{
    let es2 = es.push(p);
    if es.len() == 0 {
        assert(es2.skip(1) =~= Seq::<(Vec<u8>, KeyspaceEntry)>::empty());
        assert(es2[0] == p);
        assert(seq_find(Seq::<(Vec<u8>, KeyspaceEntry)>::empty(), k2) is None);
    } else {
        assert(es2.skip(1) =~= es.skip(1).push(p));
        assert(es2[0] == es[0]);
        lemma_seq_find_push(es.skip(1), p, k2);
    }
}

impl KeyspaceStore {
    /// An empty keyspace.
    pub fn new() -> (s: Self)
        ensures
            s@ == Map::<Seq<u8>, EntryModel>::empty(),
    {
        let s = KeyspaceStore { entries: Vec::new() };
        proof {
            assert(s@ =~= Map::<Seq<u8>, EntryModel>::empty());
        }
        s
    }

    /// Index of the first entry holding `key`, if any.
    fn find_index(&self, key: &[u8]) -> (r: Option<usize>)
        ensures
            match r {
                Some(i) => i < self.entries@.len() && self.entries@[i as int].0@ == key@ && forall|
                    j: int,
                |
                    0 <= j < i ==> self.entries@[j].0@ != key@,
                None => forall|j: int| 0 <= j < self.entries@.len() ==> self.entries@[j].0@ != key@,
            },
    {
        let mut i: usize = 0;
        while i < self.entries.len()
            invariant
                i <= self.entries@.len(),
                forall|j: int| 0 <= j < i ==> self.entries@[j].0@ != key@,
            decreases self.entries@.len() - i,
        {
            if bytes_eq(self.entries[i].0.as_slice(), key) {
                return Some(i);
            }
            i = i + 1;
        }
        None
    }

    /// Inserts or overwrites the entry for `key`. With a lifetime the
    /// entry expires `ttl` milliseconds past `now`; without one it never
    /// expires. Always succeeds.
    pub fn set(&mut self, key: Vec<u8>, value: Vec<u8>, ttl: Option<u64>, now: u64)
        ensures
            final(self)@ == old(self)@.insert(
                key@,
                EntryModel { value: value@, expire_at: spec_expiry(now, ttl) },
            ),
    {
        let expire_at: Option<u64> = match ttl {
            None => None,
            Some(t) => Some(
                if t > u64::MAX - now {
                    u64::MAX
                } else {
                    now + t
                },
            ),
        };
        let entry = KeyspaceEntry { value, expire_at };
        let ghost old_entries = self.entries@;
        let ghost em = entry@;
        let ghost k = key@;
        match self.find_index(key.as_slice()) {
            Some(i) => {
                self.entries.set(i, (key, entry));
                proof {
                    assert forall|k2: Seq<u8>|
                        seq_find(self.entries@, k2) == if k2 == k {
                            Some(em)
                        } else {
                            seq_find(old_entries, k2)
                        } by {
                        lemma_seq_find_update(
                            old_entries,
                            i as int,
                            self.entries@[i as int],
                            k2,
                        );
                    }
                }
            },
            None => {
                self.entries.push((key, entry));
                proof {
                    assert forall|k2: Seq<u8>|
                        seq_find(self.entries@, k2) == if k2 == k {
                            Some(em)
                        } else {
                            seq_find(old_entries, k2)
                        } by {
                        lemma_seq_find_push(
                            old_entries,
                            self.entries@[self.entries@.len() - 1],
                            k2,
                        );
                    }
                }
            },
        }
        proof {
            assert(self@ =~= old(self)@.insert(
                k,
                EntryModel { value: em.value, expire_at: em.expire_at },
            ));
        }
    }

    /// Returns the value held for `key` exactly where the key exists and
    /// its entry is alive at `now`; an expired or absent key yields
    /// nothing, never an error.
    pub fn get(&self, key: &[u8], now: u64) -> (r: Option<Vec<u8>>)
        ensures
            match r {
                Some(v) => self@.contains_key(key@) && live_at(self@[key@], now) && v@
                    == self@[key@].value,
                None => !(self@.contains_key(key@) && live_at(self@[key@], now)),
            },
    {
        match self.find_index(key) {
            Some(i) => {
                proof {
                    lemma_seq_find_first(self.entries@, key@, i as int);
                }
                let entry = &self.entries[i].1;
                let alive = match entry.expire_at {
                    None => true,
                    Some(t) => now < t,
                };
                if alive {
                    Some(slice_to_vec(entry.value.as_slice()))
                } else {
                    None
                }
            },
            None => {
                proof {
                    lemma_seq_find_none(self.entries@, key@);
                }
                None
            },
        }
    }
}

/// Law: a SET with no lifetime followed by a GET of the same key
/// yields exactly the value written, at any instant whatever — no
/// default lifetime is silently applied.
pub proof fn lemma_set_then_get(
    m: Map<Seq<u8>, EntryModel>,
    k: Seq<u8>,
    v: Seq<u8>,
    now: u64,
    later: u64,
)
    ensures
        ({
            let m2 = m.insert(k, EntryModel { value: v, expire_at: spec_expiry(now, None) });
            m2.contains_key(k) && live_at(m2[k], later) && m2[k].value == v
        }),
{
}

/// Law: a SET with a positive lifetime followed by a GET of the same
/// key yields the value written exactly while the clock stands before
/// `now + ttl`, and nothing from that instant on.
pub proof fn lemma_set_px_then_get(
    m: Map<Seq<u8>, EntryModel>,
    k: Seq<u8>,
    v: Seq<u8>,
    now: u64,
    ttl: u64,
    later: u64,
)
    requires
        ttl > 0,
        now + ttl <= u64::MAX,
    ensures
        ({
            let m2 = m.insert(k, EntryModel { value: v, expire_at: spec_expiry(now, Some(ttl)) });
            m2.contains_key(k) && m2[k].value == v && (live_at(m2[k], later) <==> later < now
                + ttl)
        }),
{
}

/// Law: writes to one key serialize whole. Whichever of two concurrent
/// SETs the store admits second is the one a later GET sees, entire;
/// the result is always one of the two written values, never a mixture.
pub proof fn lemma_writes_serialize(
    m: Map<Seq<u8>, EntryModel>,
    k: Seq<u8>,
    e1: EntryModel,
    e2: EntryModel,
)
    ensures
        m.insert(k, e1).insert(k, e2)[k] == e2,
        m.insert(k, e2).insert(k, e1)[k] == e1,
{
}

} // verus!
