//! The key-value store: byte keys, byte values, and for each entry the instant
//! (in milliseconds on a monotonic clock) from which it has expired.
use crate::frame::bytes_equal;
use vstd::prelude::*;

verus! {

broadcast use vstd::std_specs::vec::group_vec_axioms, vstd::seq::group_seq_axioms;

/// One week, in milliseconds.
pub const DEFAULT_EXPIRY: u64 = 604800000;

/// One entry: its key, its value, and when it expires.
pub struct Slot {
    pub key: Vec<u8>,
    pub value: Vec<u8>,
    pub expires_at: u64,
}

/// What an entry holds: the value and when it expires.
pub type EntryModel = (Seq<u8>, u64);

pub struct Store {
    slots: Vec<Slot>,
}

pub open spec fn keys_unique(s: Seq<Slot>) -> bool {
    forall|i: int, j: int|
        0 <= i < s.len() && 0 <= j < s.len() && #[trigger] s[i].key@ == #[trigger] s[j].key@
            ==> i == j
}

pub open spec fn slots_map(s: Seq<Slot>) -> Map<Seq<u8>, EntryModel>
    decreases s.len(),
{
    if s.len() == 0 {
        Map::empty()
    } else {
        slots_map(s.drop_last()).insert(s.last().key@, (s.last().value@, s.last().expires_at))
    }
}

/// When an entry written at `now` with a time to live of `ttl` expires; the
/// end of the clock's range when the sum passes it.
pub open spec fn expiry_at(now: u64, ttl: u64) -> u64 {
    if now + ttl > u64::MAX {
        u64::MAX
    } else {
        (now + ttl) as u64
    }
}

/// An entry is alive strictly before its expiry instant.
pub open spec fn alive(e: EntryModel, now: u64) -> bool {
    now < e.1
}

/// The entries after a write.
pub open spec fn after_set(m: Map<Seq<u8>, EntryModel>, key: Seq<u8>, value: Seq<u8>, ttl: u64, now: u64) -> Map<Seq<u8>, EntryModel> {
    m.insert(key, (value, expiry_at(now, ttl)))
}

/// What a read returns.
pub open spec fn read_result(m: Map<Seq<u8>, EntryModel>, key: Seq<u8>, now: u64) -> Option<Seq<u8>> {
    if m.contains_key(key) && alive(m[key], now) {
        Some(m[key].0)
    } else {
        None
    }
}

/// The entries after a read: an expired entry that was read is gone.
pub open spec fn after_read(m: Map<Seq<u8>, EntryModel>, key: Seq<u8>, now: u64) -> Map<Seq<u8>, EntryModel> {
    if m.contains_key(key) && !alive(m[key], now) {
        m.remove(key)
    } else {
        m
    }
}

proof fn lemma_slots_map_has(s: Seq<Slot>, i: int)
    requires
        keys_unique(s),
        0 <= i < s.len(),
    ensures
        slots_map(s).contains_key(s[i].key@),
        slots_map(s)[s[i].key@] == (s[i].value@, s[i].expires_at),
    decreases s.len(),
{
    if i < s.len() - 1 {
        let r = s.drop_last();
        assert(r[i] == s[i]);
        assert(keys_unique(r));
        lemma_slots_map_has(r, i);
        assert(s.last().key@ != s[i].key@);
    }
}

proof fn lemma_slots_map_lacks(s: Seq<Slot>, k: Seq<u8>)
    requires
        forall|i: int| 0 <= i < s.len() ==> (#[trigger] s[i]).key@ != k,
    ensures
        !slots_map(s).contains_key(k),
    decreases s.len(),
{
    if s.len() > 0 {
        let r = s.drop_last();
        assert forall|i: int| 0 <= i < r.len() implies (#[trigger] r[i]).key@ != k by {
            assert(r[i] == s[i]);
        }
        lemma_slots_map_lacks(r, k);
        assert(s[s.len() - 1].key@ != k);
    }
}

proof fn lemma_slots_map_update(s: Seq<Slot>, i: int, x: Slot)
    requires
        keys_unique(s),
        0 <= i < s.len(),
        x.key@ == s[i].key@,
    ensures
        keys_unique(s.update(i, x)),
        slots_map(s.update(i, x)) == slots_map(s).insert(x.key@, (x.value@, x.expires_at)),
    decreases s.len(),
{
    let t = s.update(i, x);
    assert(keys_unique(t)) by {
        assert forall|a: int, b: int|
            0 <= a < t.len() && 0 <= b < t.len() && #[trigger] t[a].key@ == #[trigger] t[b].key@
                implies a == b by {
            assert(t[a].key@ == s[a].key@);
            assert(t[b].key@ == s[b].key@);
        }
    }
    if i == s.len() - 1 {
        assert(t.drop_last() =~= s.drop_last());
        let r = s.drop_last();
        assert forall|j: int| 0 <= j < r.len() implies (#[trigger] r[j]).key@ != x.key@ by {
            assert(r[j] == s[j]);
        }
        lemma_slots_map_lacks(r, x.key@);
        assert(slots_map(t) =~= slots_map(s).insert(x.key@, (x.value@, x.expires_at)));
    } else {
        let r = s.drop_last();
        assert(keys_unique(r));
        lemma_slots_map_update(r, i, x);
        assert(t.drop_last() =~= r.update(i, x));
        assert(s.last().key@ != x.key@);
        assert(t.last() == s.last());
        assert(slots_map(t) =~= slots_map(s).insert(x.key@, (x.value@, x.expires_at)));
    }
}

proof fn lemma_slots_map_remove(s: Seq<Slot>, i: int)
    requires
        keys_unique(s),
        0 <= i < s.len(),
    ensures
        keys_unique(s.remove(i)),
        slots_map(s.remove(i)) == slots_map(s).remove(s[i].key@),
    decreases s.len(),
{
    let t = s.remove(i);
    let k = s[i].key@;
    assert(keys_unique(t)) by {
        assert forall|a: int, b: int|
            0 <= a < t.len() && 0 <= b < t.len() && #[trigger] t[a].key@ == #[trigger] t[b].key@
                implies a == b by {
            let a2 = if a < i { a } else { a + 1 };
            let b2 = if b < i { b } else { b + 1 };
            assert(t[a] == s[a2]);
            assert(t[b] == s[b2]);
        }
    }
    if i == s.len() - 1 {
        assert(t =~= s.drop_last());
        let r = s.drop_last();
        assert forall|j: int| 0 <= j < r.len() implies (#[trigger] r[j]).key@ != k by {
            assert(r[j] == s[j]);
        }
        lemma_slots_map_lacks(r, k);
        assert(slots_map(t) =~= slots_map(s).remove(k));
    } else {
        let r = s.drop_last();
        assert(keys_unique(r));
        lemma_slots_map_remove(r, i);
        assert(t.drop_last() =~= r.remove(i));
        assert(t.last() == s.last());
        assert(s.last().key@ != k);
        assert(slots_map(t) =~= slots_map(s).remove(k));
    }
}

impl View for Store {
    type V = Map<Seq<u8>, EntryModel>;

    closed spec fn view(&self) -> Map<Seq<u8>, EntryModel> {
        slots_map(self.slots@)
    }
}

impl Store {
    /// No two entries share a key.
    pub closed spec fn wf(&self) -> bool {
        keys_unique(self.slots@)
    }

    pub fn new() -> (r: Store)
        ensures
            r.wf(),
            r@ == Map::<Seq<u8>, EntryModel>::empty(),
    {
        Store { slots: Vec::new() }
    }

    /// Where the entry of `key` stands, if there is one.
    fn find(&self, key: &[u8]) -> (r: Option<usize>)
        requires
            self.wf(),
        ensures
            r is Some ==> r->Some_0 < self.slots@.len() && self.slots@[r->Some_0 as int].key@
                == key@,
            r is None ==> forall|i: int|
                0 <= i < self.slots@.len() ==> (#[trigger] self.slots@[i]).key@ != key@,
    {
        let mut i: usize = 0;
        while i < self.slots.len()
            invariant
                0 <= i <= self.slots@.len(),
                forall|j: int| 0 <= j < i ==> (#[trigger] self.slots@[j]).key@ != key@,
            decreases self.slots@.len() - i,
        {
            if bytes_equal(self.slots[i].key.as_slice(), key) {
                return Some(i);
            }
            i = i + 1;
        }
        None
    }

    /// Writes `value` under `key`, replacing any entry, to expire `ttl`
    /// milliseconds after `now`.
    pub fn set(&mut self, key: Vec<u8>, value: Vec<u8>, ttl: u64, now: u64)
        requires
            old(self).wf(),
        ensures
            final(self).wf(),
            final(self)@ == after_set(old(self)@, key@, value@, ttl, now),
    {
        let expires_at = now.saturating_add(ttl);
        let ghost k = key@;
        let ghost v = value@;
        match self.find(key.as_slice()) {
            Some(i) => {
                let slot = Slot { key, value, expires_at };
                proof {
                    lemma_slots_map_update(self.slots@, i as int, slot);
                }
                self.slots.set(i, slot);
            },
            None => {
                let slot = Slot { key, value, expires_at };
                let ghost before = self.slots@;
                self.slots.push(slot);
                proof {
                    assert(self.slots@.drop_last() =~= before);
                    assert forall|a: int, b: int|
                        0 <= a < self.slots@.len() && 0 <= b < self.slots@.len()
                            && #[trigger] self.slots@[a].key@ == #[trigger] self.slots@[b].key@
                            implies a == b by {
                        if a < before.len() && b < before.len() {
                            assert(self.slots@[a] == before[a]);
                            assert(self.slots@[b] == before[b]);
                        } else if a < before.len() {
                            assert(self.slots@[a] == before[a]);
                        } else if b < before.len() {
                            assert(self.slots@[b] == before[b]);
                        }
                    }
                }
            },
        }
        assert(self@ =~= after_set(old(self)@, k, v, ttl, now));
    }

    /// Writes `value` under `key` with the default time to live.
    pub fn set_with_default_expiry(&mut self, key: Vec<u8>, value: Vec<u8>, now: u64)
        requires
            old(self).wf(),
        ensures
            final(self).wf(),
            final(self)@ == after_set(old(self)@, key@, value@, DEFAULT_EXPIRY, now),
    {
        self.set(key, value, DEFAULT_EXPIRY, now);
    }

    /// Reads the value under `key` at `now`; an entry found expired is removed.
    pub fn get(&mut self, key: &[u8], now: u64) -> (r: Option<Vec<u8>>)
        requires
            old(self).wf(),
        ensures
            final(self).wf(),
            r is Some == read_result(old(self)@, key@, now) is Some,
            r is Some ==> r->Some_0@ == read_result(old(self)@, key@, now)->Some_0,
            final(self)@ == after_read(old(self)@, key@, now),
    {
        match self.find(key) {
            Some(i) => {
                proof {
                    lemma_slots_map_has(self.slots@, i as int);
                }
                if now < self.slots[i].expires_at {
                    Some(self.slots[i].value.clone())
                } else {
                    proof {
                        lemma_slots_map_remove(self.slots@, i as int);
                    }
                    self.slots.remove(i);
                    None
                }
            },
            None => {
                proof {
                    lemma_slots_map_lacks(self.slots@, key@);
                }
                None
            },
        }
    }

    /// Reads the value under `key` at `now`, leaving an expired entry in place.
    pub fn peek(&self, key: &[u8], now: u64) -> (r: Option<Vec<u8>>)
        requires
            self.wf(),
        ensures
            r is Some == read_result(self@, key@, now) is Some,
            r is Some ==> r->Some_0@ == read_result(self@, key@, now)->Some_0,
    {
        match self.find(key) {
            Some(i) => {
                proof {
                    lemma_slots_map_has(self.slots@, i as int);
                }
                if now < self.slots[i].expires_at {
                    Some(self.slots[i].value.clone())
                } else {
                    None
                }
            },
            None => {
                proof {
                    lemma_slots_map_lacks(self.slots@, key@);
                }
                None
            },
        }
    }

    /// Removes the entry of `key`, if there is one.
    pub fn del(&mut self, key: &[u8])
        requires
            old(self).wf(),
        ensures
            final(self).wf(),
            final(self)@ == old(self)@.remove(key@),
    {
        match self.find(key) {
            Some(i) => {
                proof {
                    lemma_slots_map_remove(self.slots@, i as int);
                }
                self.slots.remove(i);
            },
            None => {
                proof {
                    lemma_slots_map_lacks(self.slots@, key@);
                    assert(self@ =~= old(self)@.remove(key@));
                }
            },
        }
    }

    /// The snapshot sent to a new follower: an empty database in the
    /// standard dump format (header, end marker, and a zero checksum, which
    /// marks the checksum as not computed). Followers discard it.
    pub fn as_snapshot(&self) -> (r: Vec<u8>)
        ensures
            r@ == empty_snapshot(),
    {
        let r: Vec<u8> = vec![
            82u8, 69u8, 68u8, 73u8, 83u8, 48u8, 48u8, 49u8, 49u8, 255u8,
            0u8, 0u8, 0u8, 0u8, 0u8, 0u8, 0u8, 0u8,
        ];
        assert(r@ =~= empty_snapshot());
        r
    }
}

/// `REDIS0011`, the end marker 0xFF, and eight zero bytes of checksum.
pub open spec fn empty_snapshot() -> Seq<u8> {
    seq![82u8, 69u8, 68u8, 73u8, 83u8, 48u8, 48u8, 49u8, 49u8, 255u8,
        0u8, 0u8, 0u8, 0u8, 0u8, 0u8, 0u8, 0u8]
}

/// A value written is read back at any instant before its expiry, and that
/// read leaves the store as it was.
pub proof fn law_set_then_get(m: Map<Seq<u8>, EntryModel>, key: Seq<u8>, value: Seq<u8>, ttl: u64, now: u64, later: u64)
    requires
        later < expiry_at(now, ttl),
    ensures
        read_result(after_set(m, key, value, ttl, now), key, later) == Some(value),
        after_read(after_set(m, key, value, ttl, now), key, later) == after_set(
            m,
            key,
            value,
            ttl,
            now,
        ),
{
}

/// A value written with a time to live of `ttl` reads as absent once more
/// than `ttl` milliseconds have passed, and the entry is gone after the read.
pub proof fn law_expired_read(m: Map<Seq<u8>, EntryModel>, key: Seq<u8>, value: Seq<u8>, ttl: u64, now: u64, later: u64)
    requires
        later > now + ttl,
    ensures
        read_result(after_set(m, key, value, ttl, now), key, later) is None,
        !after_read(after_set(m, key, value, ttl, now), key, later).contains_key(key),
{
}

} // verus!
