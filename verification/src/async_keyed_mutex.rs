//! Keyed mutual exclusion registry.
//!
//! The dispatcher serializes work per source through a map from source key to
//! a reference-counted mutex handle: all concurrent holders of a key share
//! one handle, and a handle is reclaimed once its last holder releases it.
//! This module verifies that protocol over an explicit registry state —
//! handle identity while any holder is alive, fresh handles after full
//! release, and cleanup of dead entries. The binary realizes the same
//! protocol with a concurrent map of weak references and asynchronous
//! mutexes, whose blocking behavior no sequential model can express.

use vstd::prelude::*;

verus! {

/// One registry slot: the key, the identity of the handle currently backing
/// it, and how many acquired references to that handle are still held.
#[derive(Clone, Copy, Debug, PartialEq, Eq, Structural)]
pub struct LockEntry {
    pub key: u32,
    pub handle_id: u64,
    pub holders: u64,
}

/// An acquired reference to a keyed mutex handle. Dropping it is modeled by
/// `release`.
#[derive(Clone, Copy, Debug, PartialEq, Eq, Structural)]
pub struct MutexHandle {
    pub key: u32,
    pub handle_id: u64,
}

pub struct AsyncKeyedMutex {
    pub entries: Vec<LockEntry>,
    pub next_id: u64,
}

/// Whether some entry of `entries` carries `key`.
pub open spec fn has_key(entries: Seq<LockEntry>, key: u32) -> bool {
    exists|i: int| 0 <= i < entries.len() && entries[i].key == key
}

/// Index of the entry carrying `key`; meaningful when keys are unique.
pub open spec fn index_of_key(entries: Seq<LockEntry>, key: u32) -> int {
    choose|i: int| 0 <= i < entries.len() && entries[i].key == key
}

/// The live entries of a registry, in order: those some holder still keeps
/// alive.
pub open spec fn live_entries(s: Seq<LockEntry>) -> Seq<LockEntry>
    decreases s.len(),
{
    if s.len() == 0 {
        Seq::empty()
    } else if s.last().holders > 0 {
        live_entries(s.drop_last()).push(s.last())
    } else {
        live_entries(s.drop_last())
    }
}

/// Every live entry is an entry of the registry it came from.
pub proof fn lemma_live_entries_membership(s: Seq<LockEntry>)
    ensures
        forall|j: int|
            0 <= j < live_entries(s).len() ==> exists|i: int|
                0 <= i < s.len() && s[i] == #[trigger] live_entries(s)[j],
    decreases s.len(),
{
    if s.len() > 0 {
        lemma_live_entries_membership(s.drop_last());
        assert forall|j: int| 0 <= j < live_entries(s).len() implies exists|i: int|
            0 <= i < s.len() && s[i] == #[trigger] live_entries(s)[j] by {
            if j < live_entries(s.drop_last()).len() {
                let i = choose|i: int|
                    0 <= i < s.drop_last().len() && s.drop_last()[i] == live_entries(
                        s.drop_last(),
                    )[j];
                assert(s[i] == live_entries(s)[j]);
            } else {
                assert(s[s.len() - 1] == live_entries(s)[j]);
            }
        }
    }
}

/// Every live entry still has a holder.
pub proof fn lemma_live_entries_positive(s: Seq<LockEntry>)
    ensures
        forall|j: int| 0 <= j < live_entries(s).len() ==> (#[trigger] live_entries(s)[j]).holders > 0,
    decreases s.len(),
{
    if s.len() > 0 {
        lemma_live_entries_positive(s.drop_last());
        let pre = live_entries(s.drop_last());
        assert forall|j: int| 0 <= j < live_entries(s).len() implies (#[trigger] live_entries(
            s,
        )[j]).holders > 0 by {
            if j < pre.len() {
                assert(live_entries(s)[j] == pre[j]);
            }
        }
    }
}

impl AsyncKeyedMutex {
    /// Keys are unique: each source has at most one registry slot.
    pub open spec fn wf(self) -> bool {
        forall|i: int, j: int|
            0 <= i < j < self.entries@.len() ==> self.entries@[i].key != self.entries@[j].key
    }

    /// No handle is currently held anywhere in the registry.
    pub open spec fn all_free(self) -> bool {
        forall|i: int| 0 <= i < self.entries@.len() ==> self.entries@[i].holders == 0
    }

    pub fn new() -> (r: Self)
        ensures
            r.wf(),
            r.entries@.len() == 0,
            r.all_free(),
    {
        AsyncKeyedMutex { entries: Vec::new(), next_id: 0 }
    }

    fn find_index(&self, key: u32) -> (r: Option<usize>)
        requires
            self.wf(),
        ensures
            r is Some <==> has_key(self.entries@, key),
            r matches Some(i) ==> i < self.entries@.len() && self.entries@[i as int].key == key
                && i as int == index_of_key(self.entries@, key),
    {
        let n = self.entries.len();
        let mut i: usize = 0;
        while i < n
            invariant
                n == self.entries@.len(),
                0 <= i <= n,
                self.wf(),
                forall|j: int| 0 <= j < i ==> self.entries@[j].key != key,
            decreases n - i,
        {
            if self.entries[i].key == key {
                return Some(i);
            }
            i += 1;
        }
        None
    }

    /// Acquires the handle for `key`: while any holder of the key is alive
    /// the very same handle is returned; otherwise a fresh handle replaces
    /// the dead or absent one.
    pub fn get_mutex(&mut self, key: u32) -> (h: MutexHandle)
        requires
            old(self).wf(),
            forall|i: int|
                0 <= i < old(self).entries@.len() ==> old(self).entries@[i].holders < u64::MAX,
        ensures
            final(self).wf(),
            final(self).entries@ == spec_get_mutex(old(self).entries@, old(self).next_id, key).0,
            final(self).next_id == spec_get_mutex(old(self).entries@, old(self).next_id, key).1,
            h == spec_get_mutex(old(self).entries@, old(self).next_id, key).2,
            h.key == key,
    {
        match self.find_index(key) {
            Some(i) => {
                let e = self.entries[i];
                if e.holders > 0 {
                    let updated = LockEntry { key, handle_id: e.handle_id, holders: e.holders + 1 };
                    self.entries.set(i, updated);
                    MutexHandle { key, handle_id: e.handle_id }
                } else {
                    let id = self.next_id;
                    let updated = LockEntry { key, handle_id: id, holders: 1 };
                    self.entries.set(i, updated);
                    self.next_id = self.next_id.wrapping_add(1);
                    MutexHandle { key, handle_id: id }
                }
            },
            None => {
                let id = self.next_id;
                self.entries.push(LockEntry { key, handle_id: id, holders: 1 });
                self.next_id = self.next_id.wrapping_add(1);
                MutexHandle { key, handle_id: id }
            },
        }
    }

    /// Releases one acquired reference; models dropping the owned handle.
    pub fn release(&mut self, h: &MutexHandle)
        requires
            old(self).wf(),
            has_key(old(self).entries@, h.key),
            old(self).entries@[index_of_key(old(self).entries@, h.key)].handle_id == h.handle_id,
            old(self).entries@[index_of_key(old(self).entries@, h.key)].holders > 0,
        ensures
            final(self).wf(),
            final(self).entries@ == spec_release(old(self).entries@, *h),
            final(self).next_id == old(self).next_id,
    {
        let i = self.find_index(h.key).unwrap();
        let e = self.entries[i];
        let updated = LockEntry { key: e.key, handle_id: e.handle_id, holders: e.holders - 1 };
        self.entries.set(i, updated);
    }

    /// Removes every entry whose handle no holder keeps alive, keeping the
    /// live entries in their order.
    pub fn cleanup(&mut self)
        requires
            old(self).wf(),
        ensures
            final(self).wf(),
            final(self).entries@ == live_entries(old(self).entries@),
            final(self).next_id == old(self).next_id,
    {
        let n = self.entries.len();
        let mut kept: Vec<LockEntry> = Vec::new();
        let mut i: usize = 0;
        while i < n
            invariant
                n == self.entries@.len(),
                0 <= i <= n,
                kept@ == live_entries(self.entries@.subrange(0, i as int)),
            decreases n - i,
        {
            proof {
                let pre = self.entries@.subrange(0, i as int);
                let post = self.entries@.subrange(0, i + 1);
                assert(post.drop_last() =~= pre);
                assert(post.last() == self.entries@[i as int]);
            }
            let e = self.entries[i];
            if e.holders > 0 {
                kept.push(e);
            }
            i += 1;
        }
        proof {
            assert(self.entries@.subrange(0, n as int) =~= self.entries@);
            lemma_live_entries_membership(self.entries@);
            lemma_live_entries_unique_keys(self.entries@);
        }
        self.entries = kept;
    }
}

/// Keys stay unique across cleanup.
proof fn lemma_live_entries_unique_keys(s: Seq<LockEntry>)
    requires
        forall|i: int, j: int| 0 <= i < j < s.len() ==> s[i].key != s[j].key,
    ensures
        forall|i: int, j: int|
            0 <= i < j < live_entries(s).len() ==> live_entries(s)[i].key != live_entries(s)[j].key,
    decreases s.len(),
{
    if s.len() > 0 {
        let pre = s.drop_last();
        lemma_live_entries_unique_keys(pre);
        lemma_live_entries_membership(pre);
        if s.last().holders > 0 {
            assert forall|i: int, j: int|
                0 <= i < j < live_entries(s).len() implies live_entries(s)[i].key != live_entries(
                s,
            )[j].key by {
                if j == live_entries(s).len() - 1 {
                    let k = choose|k: int| 0 <= k < pre.len() && pre[k] == live_entries(pre)[i];
                    assert(s[k] == live_entries(s)[i]);
                    assert(s[k].key != s[s.len() - 1].key);
                }
            }
        }
    }
}

/// The registry state that `get_mutex` leaves behind, and the handle it
/// returns: entry sequence, next handle identity, handle.
pub open spec fn spec_get_mutex(entries: Seq<LockEntry>, next_id: u64, key: u32) -> (
    Seq<LockEntry>,
    u64,
    MutexHandle,
) {
    if has_key(entries, key) {
        let i = index_of_key(entries, key);
        let e = entries[i];
        if e.holders > 0 {
            (
                entries.update(
                    i,
                    LockEntry { key, handle_id: e.handle_id, holders: (e.holders + 1) as u64 },
                ),
                next_id,
                MutexHandle { key, handle_id: e.handle_id },
            )
        } else {
            (
                entries.update(i, LockEntry { key, handle_id: next_id, holders: 1 }),
                next_id.wrapping_add(1),
                MutexHandle { key, handle_id: next_id },
            )
        }
    } else {
        (
            entries.push(LockEntry { key, handle_id: next_id, holders: 1 }),
            next_id.wrapping_add(1),
            MutexHandle { key, handle_id: next_id },
        )
    }
}

/// The entry sequence after one acquired reference to `h` is dropped.
pub open spec fn spec_release(entries: Seq<LockEntry>, h: MutexHandle) -> Seq<LockEntry> {
    let i = index_of_key(entries, h.key);
    let e = entries[i];
    entries.update(i, LockEntry { key: e.key, handle_id: e.handle_id, holders: (e.holders - 1) as u64 })
}

/// Acquiring a key in a registry with no live holders yields a handle that
/// may be released at once, and releasing it leaves the registry again
/// without live holders.
pub proof fn lemma_acquire_release_cycle(entries: Seq<LockEntry>, next_id: u64, key: u32)
    requires
        forall|i: int, j: int| 0 <= i < j < entries.len() ==> entries[i].key != entries[j].key,
        forall|i: int| 0 <= i < entries.len() ==> (#[trigger] entries[i]).holders == 0,
    ensures
        ({
            let (e1, n1, h) = spec_get_mutex(entries, next_id, key);
            &&& h.key == key
            &&& has_key(e1, key)
            &&& 0 <= index_of_key(e1, key) < e1.len()
            &&& e1[index_of_key(e1, key)].handle_id == h.handle_id
            &&& e1[index_of_key(e1, key)].holders > 0
            &&& forall|i: int|
                0 <= i < spec_release(e1, h).len() ==> (#[trigger] spec_release(e1, h)[i]).holders
                    == 0
        }),
{
    let (e1, n1, h) = spec_get_mutex(entries, next_id, key);
    if has_key(entries, key) {
        let i = index_of_key(entries, key);
        assert(entries[i].holders == 0);
        assert(e1[i].key == key);
        let i2 = index_of_key(e1, key);
        assert(0 <= i2 < e1.len() && e1[i2].key == key);
        assert(forall|j: int| 0 <= j < e1.len() && j != i ==> e1[j] == entries[j]);
        assert(i2 == i);
        let rel = spec_release(e1, h);
        assert(forall|j: int| 0 <= j < rel.len() && j != i ==> rel[j] == e1[j]);
    } else {
        let n = entries.len() as int;
        assert(e1[n].key == key);
        let i2 = index_of_key(e1, key);
        assert(0 <= i2 < e1.len() && e1[i2].key == key);
        assert(forall|j: int| 0 <= j < n ==> e1[j] == entries[j]);
        assert(i2 == n);
        let rel = spec_release(e1, h);
        assert(forall|j: int| 0 <= j < rel.len() && j != n ==> rel[j] == e1[j]);
    }
}

/// While any holder of `key` is alive, an acquire returns the entry's
/// current handle, not a fresh one.
pub proof fn lemma_acquire_alive_returns_same_handle(
    entries: Seq<LockEntry>,
    next_id: u64,
    key: u32,
)
    requires
        forall|i: int, j: int| 0 <= i < j < entries.len() ==> entries[i].key != entries[j].key,
        has_key(entries, key),
        entries[index_of_key(entries, key)].holders > 0,
    ensures
        spec_get_mutex(entries, next_id, key).2.handle_id == entries[index_of_key(
            entries,
            key,
        )].handle_id,
{
}

/// Two overlapping acquires of the same key receive the same handle: after
/// the first acquire and before its release, a second acquire of `key`
/// returns a handle with the identical handle identity. Mutual exclusion of
/// the critical sections is then the shared handle's lock itself.
pub proof fn lemma_overlapping_acquires_share_handle(
    entries: Seq<LockEntry>,
    next_id: u64,
    key: u32,
)
    requires
        forall|i: int, j: int| 0 <= i < j < entries.len() ==> entries[i].key != entries[j].key,
        forall|i: int| 0 <= i < entries.len() ==> (#[trigger] entries[i].holders) < u64::MAX,
    ensures
        ({
            let (e1, n1, h1) = spec_get_mutex(entries, next_id, key);
            let (e2, n2, h2) = spec_get_mutex(e1, n1, key);
            h2.handle_id == h1.handle_id
        }),
{
    let (e1, n1, h1) = spec_get_mutex(entries, next_id, key);
    if has_key(entries, key) {
        let i = index_of_key(entries, key);
        assert(e1[i].key == key);
        assert(forall|j: int| 0 <= j < e1.len() && j != i ==> e1[j] == entries[j]);
        let i2 = index_of_key(e1, key);
        assert(0 <= i2 < e1.len() && e1[i2].key == key);
        assert(i2 == i);
        assert(e1[i].holders > 0);
    } else {
        let n = entries.len() as int;
        assert(e1[n].key == key);
        let i2 = index_of_key(e1, key);
        assert(0 <= i2 < e1.len() && e1[i2].key == key);
        assert(forall|j: int| 0 <= j < n ==> e1[j] == entries[j]);
        assert(i2 == n);
        assert(e1[n].holders > 0);
    }
}

} // verus!
