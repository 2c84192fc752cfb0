//! The open-handle cache and counting admission gate, combined.
//!
//! One pool instance tracks every open database of one kind (ordinary
//! snapshots, or isolated trie sub-stores).  The cache maps a directory key
//! to its open state; the admission gate bounds how many entries may exist at once.
//! Each entry holds exactly one unit of admission, taken when the underlying
//! resource is opened and given back only when its asynchronous close
//! completes — not when the last in-memory handle is dropped — so the entry
//! count *is* the number of admissions in use.
//!
//! Per-directory states follow the lifecycle
//! `absent -> {exclusive | shared(n >= 1)} -> closing -> absent`:
//! a shared entry whose last reference is dropped only *starts* teardown
//! ([`OpenSnapshotPool::dec_strong`]); it keeps its admission and blocks
//! re-opening until the close completes ([`OpenSnapshotPool::remove_closed`]).

use vstd::prelude::*;

use crate::paths::PathKey;

verus! {

/// The open state of one directory.
#[derive(Clone, Copy, PartialEq, Eq, Structural, Debug)]
pub enum EntryState {
    /// Open exclusively for write; no reader may coexist.
    Exclusive { handle: u64 },
    /// Open for read, shared by `strong` live references.
    Shared { handle: u64, strong: u64, remove_on_close: bool },
    /// All references dropped; the asynchronous close has not finished.
    Closing { handle: u64, remove_on_close: bool },
}

pub open spec fn handle_of(st: EntryState) -> u64 {
    match st {
        EntryState::Exclusive { handle } => handle,
        EntryState::Shared { handle, .. } => handle,
        EntryState::Closing { handle, .. } => handle,
    }
}

pub open spec fn strong_of(st: EntryState) -> u64 {
    match st {
        EntryState::Shared { strong, .. } => strong,
        _ => 0,
    }
}

pub open spec fn remove_flag_of(st: EntryState) -> bool {
    match st {
        EntryState::Shared { remove_on_close, .. } => remove_on_close,
        EntryState::Closing { remove_on_close, .. } => remove_on_close,
        _ => false,
    }
}

/// One cache entry: the directory key, its state, and the key of the
/// companion trie sub-store this database holds open, if any.
#[derive(Clone, Copy, Debug)]
pub struct PoolEntry {
    pub path: PathKey,
    pub state: EntryState,
    pub attachment: Option<PathKey>,
}

/// The map reading of an entry list: later entries win, so under
/// [`entries_unique`] it is exactly the association list's map.
pub open spec fn entries_as_map(s: Seq<PoolEntry>) -> Map<PathKey, PoolEntry>
    decreases s.len(),
{
    if s.len() == 0 {
        Map::empty()
    } else {
        entries_as_map(s.drop_last()).insert(s.last().path, s.last())
    }
}

pub open spec fn entries_unique(s: Seq<PoolEntry>) -> bool {
    forall|i: int, j: int|
        0 <= i < j < s.len() ==> (#[trigger] s[i]).path != (#[trigger] s[j]).path
}

pub proof fn lemma_entries_as_map_domain(s: Seq<PoolEntry>, p: PathKey)
    ensures
        entries_as_map(s).contains_key(p) <==> exists|i: int|
            0 <= i < s.len() && (#[trigger] s[i]).path == p,
    decreases s.len(),
{
    if s.len() > 0 {
        lemma_entries_as_map_domain(s.drop_last(), p);
        if s.last().path == p {
            assert(s[s.len() - 1].path == p);
        } else {
            if exists|i: int| 0 <= i < s.len() && (#[trigger] s[i]).path == p {
                let i = choose|i: int| 0 <= i < s.len() && (#[trigger] s[i]).path == p;
                if i < s.len() - 1 {
                    assert(s.drop_last()[i].path == p);
                }
            }
            if exists|i: int| 0 <= i < s.drop_last().len() && (#[trigger] s.drop_last()[i]).path
                == p {
                let i = choose|i: int|
                    0 <= i < s.drop_last().len() && (#[trigger] s.drop_last()[i]).path == p;
                assert(s[i].path == p);
            }
        }
    }
}

pub proof fn lemma_entries_as_map_path(s: Seq<PoolEntry>)
    ensures
        forall|p: PathKey| #[trigger]
            entries_as_map(s).contains_key(p) ==> entries_as_map(s)[p].path == p,
    decreases s.len(),
{
    if s.len() > 0 {
        lemma_entries_as_map_path(s.drop_last());
    }
}

pub proof fn lemma_entries_as_map_value(s: Seq<PoolEntry>, i: int)
    requires
        entries_unique(s),
        0 <= i < s.len(),
    ensures
        entries_as_map(s).contains_key(s[i].path),
        entries_as_map(s)[s[i].path] == s[i],
    decreases s.len(),
{
    if i == s.len() - 1 {
    } else {
        assert(entries_unique(s.drop_last()));
        lemma_entries_as_map_value(s.drop_last(), i);
        assert(s.drop_last()[i] == s[i]);
        assert(s[i].path != s.last().path);
    }
}

pub proof fn lemma_entries_as_map_from_seq(s: Seq<PoolEntry>, p: PathKey)
    requires
        entries_as_map(s).contains_key(p),
    ensures
        exists|i: int| 0 <= i < s.len() && #[trigger] s[i] == entries_as_map(s)[p],
    decreases s.len(),
{
    if s.last().path == p && entries_as_map(s)[p] == s.last() {
        assert(s[s.len() - 1] == entries_as_map(s)[p]);
    } else {
        lemma_entries_as_map_from_seq(s.drop_last(), p);
        let i = choose|i: int|
            0 <= i < s.drop_last().len() && #[trigger] s.drop_last()[i] == entries_as_map(
                s.drop_last(),
            )[p];
        assert(s[i] == entries_as_map(s)[p]);
    }
}

/// A shared entry reachable through the map has at least one live
/// reference, as the well-formedness promises per entry.
pub proof fn lemma_live_shared_strong(pool: OpenSnapshotPool, p: PathKey)
    requires
        pool.wf(),
        pool.as_map().contains_key(p),
        pool.as_map()[p].state is Shared,
    ensures
        strong_of(pool.as_map()[p].state) >= 1,
{
    lemma_entries_as_map_from_seq(pool.entries@, p);
    let i = choose|i: int|
        0 <= i < pool.entries@.len() && #[trigger] pool.entries@[i] == pool.as_map()[p];
    assert(pool.entries@[i].state is Shared);
}

pub proof fn lemma_entries_as_map_remove(s: Seq<PoolEntry>, i: int)
    requires
        entries_unique(s),
        0 <= i < s.len(),
    ensures
        entries_as_map(s.remove(i)) =~= entries_as_map(s).remove(s[i].path),
    decreases s.len(),
{
    let p = s[i].path;
    if i == s.len() - 1 {
        assert(s.remove(i) =~= s.drop_last());
        lemma_entries_as_map_domain(s.drop_last(), p);
        assert(forall|j: int|
            0 <= j < s.drop_last().len() ==> (#[trigger] s.drop_last()[j]).path == s[j].path);
        assert(!entries_as_map(s.drop_last()).contains_key(p));
        assert(entries_as_map(s).remove(p) =~= entries_as_map(s.drop_last()));
    } else {
        assert(entries_unique(s.drop_last()));
        lemma_entries_as_map_remove(s.drop_last(), i);
        assert(s.remove(i).drop_last() =~= s.drop_last().remove(i));
        assert(s.remove(i).last() == s.last());
        assert(s.last().path != p);
        assert(entries_as_map(s.remove(i)) == entries_as_map(s.drop_last().remove(i)).insert(
            s.last().path,
            s.last(),
        ));
        assert(entries_as_map(s.remove(i)) =~= entries_as_map(s).remove(p));
    }
}

/// One cache-and-gate instance.
#[derive(Debug)]
pub struct OpenSnapshotPool {
    /// The admission bound: how many databases of this kind may be open.
    pub max_open: usize,
    pub entries: Vec<PoolEntry>,
    pub next_handle: u64,
}

impl OpenSnapshotPool {
    /// Well-formedness: one entry per directory, the admission bound is
    /// respected, and a shared entry has at least one live reference.
    pub open spec fn wf(self) -> bool {
        &&& entries_unique(self.entries@)
        &&& self.entries@.len() <= self.max_open
        &&& forall|i: int|
            0 <= i < self.entries@.len() ==> ((#[trigger] self.entries@[i]).state is Shared
                ==> strong_of(self.entries@[i].state) >= 1)
        &&& forall|i: int|
            0 <= i < self.entries@.len() ==> entries_as_map(self.entries@).contains_key(
                (#[trigger] self.entries@[i]).path,
            )
    }

    /// The cache as a map from directory key to entry.
    pub open spec fn as_map(self) -> Map<PathKey, PoolEntry> {
        entries_as_map(self.entries@)
    }

    /// The number of admissions currently in use.
    pub open spec fn count(self) -> int {
        self.entries@.len() as int
    }

    pub fn new(max_open: usize) -> (r: OpenSnapshotPool)
        ensures
            r.wf(),
            r.as_map() =~= Map::<PathKey, PoolEntry>::empty(),
            r.count() == 0,
            r.max_open == max_open,
    {
        OpenSnapshotPool { max_open, entries: Vec::new(), next_handle: 0 }
    }

    /// The number of open databases of this kind.
    pub fn len(&self) -> (r: usize)
        ensures
            r == self.count(),
    {
        self.entries.len()
    }

    fn find_index(&self, p: PathKey) -> (r: Option<usize>)
        ensures
            match r {
                Some(i) => i < self.entries@.len() && self.entries@[i as int].path == p,
                None => !self.as_map().contains_key(p),
            },
    {
        let mut i: usize = 0;
        while i < self.entries.len()
            invariant
                i <= self.entries@.len(),
                forall|k: int| 0 <= k < i ==> (#[trigger] self.entries@[k]).path != p,
            decreases self.entries@.len() - i,
        {
            if self.entries[i].path == p {
                return Some(i);
            }
            i = i + 1;
        }
        proof {
            lemma_entries_as_map_domain(self.entries@, p);
        }
        None
    }

    /// The open state of a directory, if it is tracked.
    pub fn state_of(&self, p: PathKey) -> (r: Option<EntryState>)
        requires
            self.wf(),
        ensures
            match r {
                Some(st) => self.as_map().contains_key(p) && st == self.as_map()[p].state,
                None => !self.as_map().contains_key(p),
            },
    {
        match self.find_index(p) {
            Some(i) => {
                proof {
                    lemma_entries_as_map_value(self.entries@, i as int);
                }
                Some(self.entries[i].state)
            },
            None => None,
        }
    }

    /// Replaces the entry at a found index by one for the same directory.
    fn replace_at(&mut self, i: usize, e: PoolEntry)
        requires
            old(self).wf(),
            i < old(self).entries@.len(),
            e.path == old(self).entries@[i as int].path,
            e.state is Shared ==> strong_of(e.state) >= 1,
        ensures
            final(self).wf(),
            final(self).as_map() =~= old(self).as_map().insert(e.path, e),
            final(self).count() == old(self).count(),
            final(self).max_open == old(self).max_open,
            final(self).next_handle == old(self).next_handle,
    {
        proof {
            lemma_entries_as_map_remove(self.entries@, i as int);
        }
        let ghost pre_remove = self.entries@;
        self.entries.remove(i);
        proof {
            assert(forall|a: int|
                0 <= a < self.entries@.len() ==> #[trigger] self.entries@[a] == if a < i as int {
                    pre_remove[a]
                } else {
                    pre_remove[a + 1]
                });
            assert(entries_unique(self.entries@));
            lemma_entries_as_map_domain(self.entries@, e.path);
            assert(!entries_as_map(self.entries@).contains_key(e.path));
            assert(forall|a: int|
                0 <= a < self.entries@.len() ==> (#[trigger] self.entries@[a]).path != e.path);
        }
        let ghost pre_push = self.entries@;
        self.entries.push(e);
        proof {
            assert(self.entries@.drop_last() =~= old(self).entries@.remove(i as int));
            assert(self.as_map() =~= old(self).as_map().insert(e.path, e));
            assert(entries_unique(self.entries@)) by {
                assert(forall|a: int|
                    0 <= a < pre_push.len() ==> #[trigger] self.entries@[a] == pre_push[a]);
                assert(self.entries@[self.entries@.len() - 1] == e);
            }
            assert forall|a: int| 0 <= a < self.entries@.len() implies entries_as_map(
                self.entries@,
            ).contains_key((#[trigger] self.entries@[a]).path) by {
                lemma_entries_as_map_value(self.entries@, a);
            }
        }
    }

    /// Opens a directory for shared reading: consumes one admission and
    /// registers a shared entry with one live reference.
    pub fn insert_shared(&mut self, p: PathKey, attachment: Option<PathKey>) -> (h: u64)
        requires
            old(self).wf(),
            !old(self).as_map().contains_key(p),
            old(self).count() < old(self).max_open,
        ensures
            final(self).wf(),
            h == old(self).next_handle,
            final(self).as_map() =~= old(self).as_map().insert(
                p,
                PoolEntry {
                    path: p,
                    state: EntryState::Shared { handle: h, strong: 1, remove_on_close: false },
                    attachment,
                },
            ),
            final(self).count() == old(self).count() + 1,
            final(self).max_open == old(self).max_open,
            final(self).next_handle == if h < u64::MAX {
                (h + 1) as u64
            } else {
                u64::MAX
            },
    {
        let h = self.next_handle;
        self.next_handle = if self.next_handle < u64::MAX {
            self.next_handle + 1
        } else {
            u64::MAX
        };
        let e = PoolEntry {
            path: p,
            state: EntryState::Shared { handle: h, strong: 1, remove_on_close: false },
            attachment,
        };
        self.entries.push(e);
        proof {
            assert(self.entries@.drop_last() =~= old(self).entries@);
            lemma_entries_as_map_domain(old(self).entries@, p);
            assert(entries_unique(self.entries@));
            assert forall|a: int| 0 <= a < self.entries@.len() implies entries_as_map(
                self.entries@,
            ).contains_key((#[trigger] self.entries@[a]).path) by {
                lemma_entries_as_map_value(self.entries@, a);
            }
        }
        h
    }

    /// Opens a directory exclusively for write: consumes one admission and
    /// registers an exclusive entry.
    pub fn insert_exclusive(&mut self, p: PathKey) -> (h: u64)
        requires
            old(self).wf(),
            !old(self).as_map().contains_key(p),
            old(self).count() < old(self).max_open,
        ensures
            final(self).wf(),
            h == old(self).next_handle,
            final(self).as_map() =~= old(self).as_map().insert(
                p,
                PoolEntry { path: p, state: EntryState::Exclusive { handle: h }, attachment: None },
            ),
            final(self).count() == old(self).count() + 1,
            final(self).max_open == old(self).max_open,
            final(self).next_handle == if h < u64::MAX {
                (h + 1) as u64
            } else {
                u64::MAX
            },
    {
        let h = self.next_handle;
        self.next_handle = if self.next_handle < u64::MAX {
            self.next_handle + 1
        } else {
            u64::MAX
        };
        let e = PoolEntry { path: p, state: EntryState::Exclusive { handle: h }, attachment: None };
        self.entries.push(e);
        proof {
            assert(self.entries@.drop_last() =~= old(self).entries@);
            lemma_entries_as_map_domain(old(self).entries@, p);
            assert(entries_unique(self.entries@));
            assert forall|a: int| 0 <= a < self.entries@.len() implies entries_as_map(
                self.entries@,
            ).contains_key((#[trigger] self.entries@[a]).path) by {
                lemma_entries_as_map_value(self.entries@, a);
            }
        }
        h
    }

    /// Shares an already-open directory: one more live reference, no new
    /// admission.
    pub fn inc_strong(&mut self, p: PathKey) -> (h: u64)
        requires
            old(self).wf(),
            old(self).as_map().contains_key(p),
            old(self).as_map()[p].state is Shared,
            strong_of(old(self).as_map()[p].state) < u64::MAX,
        ensures
            final(self).wf(),
            h == handle_of(old(self).as_map()[p].state),
            final(self).as_map() =~= old(self).as_map().insert(
                p,
                PoolEntry {
                    path: p,
                    state: EntryState::Shared {
                        handle: h,
                        strong: (strong_of(old(self).as_map()[p].state) + 1) as u64,
                        remove_on_close: remove_flag_of(old(self).as_map()[p].state),
                    },
                    attachment: old(self).as_map()[p].attachment,
                },
            ),
            final(self).count() == old(self).count(),
            final(self).max_open == old(self).max_open,
            final(self).next_handle == old(self).next_handle,
    {
        let i = match self.find_index(p) {
            Some(i) => i,
            None => {
                proof {
                    assert(false);
                }
                0
            },
        };
        proof {
            lemma_entries_as_map_value(self.entries@, i as int);
        }
        let e = self.entries[i];
        match e.state {
            EntryState::Shared { handle, strong, remove_on_close } => {
                let e2 = PoolEntry {
                    path: e.path,
                    state: EntryState::Shared { handle, strong: strong + 1, remove_on_close },
                    attachment: e.attachment,
                };
                self.replace_at(i, e2);
                handle
            },
            _ => {
                proof {
                    assert(false);
                }
                0
            },
        }
    }

    /// Drops one live reference.  When the last reference goes, the entry
    /// moves to the closing state: teardown has started, the admission is
    /// still held, and the directory stays blocked until the close completes.
    pub fn dec_strong(&mut self, p: PathKey)
        requires
            old(self).wf(),
            old(self).as_map().contains_key(p),
            old(self).as_map()[p].state is Shared,
        ensures
            final(self).wf(),
            final(self).as_map() =~= old(self).as_map().insert(
                p,
                PoolEntry {
                    path: p,
                    state: if strong_of(old(self).as_map()[p].state) == 1 {
                        EntryState::Closing {
                            handle: handle_of(old(self).as_map()[p].state),
                            remove_on_close: remove_flag_of(old(self).as_map()[p].state),
                        }
                    } else {
                        EntryState::Shared {
                            handle: handle_of(old(self).as_map()[p].state),
                            strong: (strong_of(old(self).as_map()[p].state) - 1) as u64,
                            remove_on_close: remove_flag_of(old(self).as_map()[p].state),
                        }
                    },
                    attachment: old(self).as_map()[p].attachment,
                },
            ),
            final(self).count() == old(self).count(),
            final(self).max_open == old(self).max_open,
            final(self).next_handle == old(self).next_handle,
    {
        let i = match self.find_index(p) {
            Some(i) => i,
            None => {
                proof {
                    assert(false);
                }
                0
            },
        };
        proof {
            lemma_entries_as_map_value(self.entries@, i as int);
        }
        let e = self.entries[i];
        match e.state {
            EntryState::Shared { handle, strong, remove_on_close } => {
                let st = if strong == 1 {
                    EntryState::Closing { handle, remove_on_close }
                } else {
                    EntryState::Shared { handle, strong: strong - 1, remove_on_close }
                };
                let e2 = PoolEntry { path: e.path, state: st, attachment: e.attachment };
                self.replace_at(i, e2);
            },
            _ => {
                proof {
                    assert(false);
                }
            },
        }
    }

    /// Drops the writer of an exclusively-open directory: teardown starts,
    /// the admission is still held until the close completes.
    pub fn close_exclusive(&mut self, p: PathKey)
        requires
            old(self).wf(),
            old(self).as_map().contains_key(p),
            old(self).as_map()[p].state is Exclusive,
        ensures
            final(self).wf(),
            final(self).as_map() =~= old(self).as_map().insert(
                p,
                PoolEntry {
                    path: p,
                    state: EntryState::Closing {
                        handle: handle_of(old(self).as_map()[p].state),
                        remove_on_close: false,
                    },
                    attachment: old(self).as_map()[p].attachment,
                },
            ),
            final(self).count() == old(self).count(),
            final(self).max_open == old(self).max_open,
            final(self).next_handle == old(self).next_handle,
    {
        let i = match self.find_index(p) {
            Some(i) => i,
            None => {
                proof {
                    assert(false);
                }
                0
            },
        };
        proof {
            lemma_entries_as_map_value(self.entries@, i as int);
        }
        let e = self.entries[i];
        match e.state {
            EntryState::Exclusive { handle } => {
                let e2 = PoolEntry {
                    path: e.path,
                    state: EntryState::Closing { handle, remove_on_close: false },
                    attachment: e.attachment,
                };
                self.replace_at(i, e2);
            },
            _ => {
                proof {
                    assert(false);
                }
            },
        }
    }

    /// Marks a shared directory for removal when its close completes.
    pub fn set_remove_on_close(&mut self, p: PathKey)
        requires
            old(self).wf(),
            old(self).as_map().contains_key(p),
            old(self).as_map()[p].state is Shared,
        ensures
            final(self).wf(),
            final(self).as_map() =~= old(self).as_map().insert(
                p,
                PoolEntry {
                    path: p,
                    state: EntryState::Shared {
                        handle: handle_of(old(self).as_map()[p].state),
                        strong: strong_of(old(self).as_map()[p].state),
                        remove_on_close: true,
                    },
                    attachment: old(self).as_map()[p].attachment,
                },
            ),
            final(self).count() == old(self).count(),
            final(self).max_open == old(self).max_open,
            final(self).next_handle == old(self).next_handle,
    {
        let i = match self.find_index(p) {
            Some(i) => i,
            None => {
                proof {
                    assert(false);
                }
                0
            },
        };
        proof {
            lemma_entries_as_map_value(self.entries@, i as int);
        }
        let e = self.entries[i];
        match e.state {
            EntryState::Shared { handle, strong, .. } => {
                let e2 = PoolEntry {
                    path: e.path,
                    state: EntryState::Shared { handle, strong, remove_on_close: true },
                    attachment: e.attachment,
                };
                self.replace_at(i, e2);
            },
            _ => {
                proof {
                    assert(false);
                }
            },
        }
    }

    /// Completes the asynchronous close of a directory: the entry leaves the
    /// cache and its admission is released.  Returns whether the directory
    /// was marked for removal, and the companion key it held open.
    pub fn remove_closed(&mut self, p: PathKey) -> (r: (bool, Option<PathKey>))
        requires
            old(self).wf(),
            old(self).as_map().contains_key(p),
            old(self).as_map()[p].state is Closing,
        ensures
            final(self).wf(),
            final(self).as_map() =~= old(self).as_map().remove(p),
            final(self).count() == old(self).count() - 1,
            final(self).max_open == old(self).max_open,
            final(self).next_handle == old(self).next_handle,
            r.0 == remove_flag_of(old(self).as_map()[p].state),
            r.1 == old(self).as_map()[p].attachment,
    {
        let i = match self.find_index(p) {
            Some(i) => i,
            None => {
                proof {
                    assert(false);
                }
                0
            },
        };
        proof {
            lemma_entries_as_map_value(self.entries@, i as int);
            lemma_entries_as_map_remove(self.entries@, i as int);
        }
        let e = self.entries[i];
        let ghost pre_remove = self.entries@;
        self.entries.remove(i);
        proof {
            assert(forall|a: int|
                0 <= a < self.entries@.len() ==> #[trigger] self.entries@[a] == if a < i as int {
                    pre_remove[a]
                } else {
                    pre_remove[a + 1]
                });
            assert(entries_unique(self.entries@));
            assert forall|a: int| 0 <= a < self.entries@.len() implies entries_as_map(
                self.entries@,
            ).contains_key((#[trigger] self.entries@[a]).path) by {
                lemma_entries_as_map_value(self.entries@, a);
            }
        }
        match e.state {
            EntryState::Closing { remove_on_close, .. } => (remove_on_close, e.attachment),
            _ => {
                proof {
                    assert(false);
                }
                (false, None)
            },
        }
    }
}

} // verus!
