//! The deterministic directory-naming scheme.
//!
//! Every directory this layer touches is named by a structured key: a
//! committed snapshot, a merge-temporary, a full-sync temporary, an
//! epoch-named trie sub-store, the merge-temporary of one, or the "latest"
//! trie sub-store.  The key is what the cache, the admission gate and the filesystem
//! model are indexed by; [`name_of`] renders it to the on-disk directory
//! name.  The rendering is injective per store directory, and temporary
//! names are never committed names, which is what keeps a crashed, partially
//! built directory unreachable by epoch lookup.

use vstd::prelude::*;

use crate::hex::{hex_str_of, lemma_hex_str_injective, lemma_hex_str_len, to_hex};
use crate::ids::{lemma_hash256_bytes_injective, EpochId, MerkleHash};

verus! {

/// The structured key of one directory.
#[derive(Clone, Copy, PartialEq, Eq, Structural, Debug)]
pub enum PathKey {
    /// A committed, read-only snapshot for an epoch.
    Committed(EpochId),
    /// The temporary directory a merge builds in: old epoch, then new epoch.
    MergeTemp(EpochId, EpochId),
    /// The temporary directory a full sync populates: epoch, then the root
    /// it is expected to hash to, so that concurrent syncs toward different
    /// roots never collide.
    FullSyncTemp(EpochId, MerkleHash),
    /// The epoch-named isolated trie sub-store.
    MptCommitted(EpochId),
    /// The merge-temporary of the isolated trie sub-store.
    MptMergeTemp(EpochId),
    /// The currently-active "latest" trie sub-store.
    MptLatest,
}

/// Which of the two sibling store directories a key lives under.
#[derive(Clone, Copy, PartialEq, Eq, Structural, Debug)]
pub enum StoreDir {
    Snapshot,
    Mpt,
}

pub open spec fn dir_of(k: PathKey) -> StoreDir {
    match k {
        PathKey::Committed(_) => StoreDir::Snapshot,
        PathKey::MergeTemp(_, _) => StoreDir::Snapshot,
        PathKey::FullSyncTemp(_, _) => StoreDir::Snapshot,
        PathKey::MptCommitted(_) => StoreDir::Mpt,
        PathKey::MptMergeTemp(_) => StoreDir::Mpt,
        PathKey::MptLatest => StoreDir::Mpt,
    }
}

/// The directory name of a key, within its store directory.
pub open spec fn spec_name(k: PathKey) -> Seq<char> {
    match k {
        PathKey::Committed(e) => "sqlite_"@ + hex_str_of(e.spec_bytes()),
        PathKey::MergeTemp(o, n) => "sqlite_merge_temp_"@ + hex_str_of(o.spec_bytes())
            + hex_str_of(n.spec_bytes()),
        PathKey::FullSyncTemp(e, r) => "sqlite_full_sync_temp_"@ + hex_str_of(e.spec_bytes())
            + hex_str_of(r.spec_bytes()),
        PathKey::MptCommitted(e) => "sqlite_"@ + hex_str_of(e.spec_bytes()),
        PathKey::MptMergeTemp(n) => "sqlite_merge_temp_"@ + hex_str_of(n.spec_bytes()),
        PathKey::MptLatest => "latest"@,
    }
}

/// Renders the on-disk directory name of a key.
pub fn name_of(k: &PathKey) -> (r: String)
    ensures
        r@ == spec_name(*k),
{
    match k {
        PathKey::Committed(e) => {
            let mut s = String::from_str("sqlite_");
            let bytes = e.to_be_bytes();
            let h = to_hex(&bytes);
            s.append(h.as_str());
            s
        },
        PathKey::MergeTemp(o, n) => {
            let mut s = String::from_str("sqlite_merge_temp_");
            let ob = o.to_be_bytes();
            let oh = to_hex(&ob);
            s.append(oh.as_str());
            let nb = n.to_be_bytes();
            let nh = to_hex(&nb);
            s.append(nh.as_str());
            s
        },
        PathKey::FullSyncTemp(e, r) => {
            let mut s = String::from_str("sqlite_full_sync_temp_");
            let eb = e.to_be_bytes();
            let eh = to_hex(&eb);
            s.append(eh.as_str());
            let rb = r.to_be_bytes();
            let rh = to_hex(&rb);
            s.append(rh.as_str());
            s
        },
        PathKey::MptCommitted(e) => {
            let mut s = String::from_str("sqlite_");
            let bytes = e.to_be_bytes();
            let h = to_hex(&bytes);
            s.append(h.as_str());
            s
        },
        PathKey::MptMergeTemp(n) => {
            let mut s = String::from_str("sqlite_merge_temp_");
            let bytes = n.to_be_bytes();
            let h = to_hex(&bytes);
            s.append(h.as_str());
            s
        },
        PathKey::MptLatest => String::from_str("latest"),
    }
}

/// The name lengths of the six key shapes, all distinct within one store
/// directory.
pub proof fn lemma_name_lengths(k: PathKey)
    ensures
        spec_name(k).len() == match k {
            PathKey::Committed(_) => 71int,
            PathKey::MergeTemp(_, _) => 146int,
            PathKey::FullSyncTemp(_, _) => 150int,
            PathKey::MptCommitted(_) => 71int,
            PathKey::MptMergeTemp(_) => 82int,
            PathKey::MptLatest => 6int,
        },
{
    reveal_strlit("sqlite_");
    reveal_strlit("sqlite_merge_temp_");
    reveal_strlit("sqlite_full_sync_temp_");
    reveal_strlit("latest");
    match k {
        PathKey::Committed(e) => {
            lemma_hex_str_len(e.spec_bytes());
        },
        PathKey::MergeTemp(o, n) => {
            lemma_hex_str_len(o.spec_bytes());
            lemma_hex_str_len(n.spec_bytes());
        },
        PathKey::FullSyncTemp(e, r) => {
            lemma_hex_str_len(e.spec_bytes());
            lemma_hex_str_len(r.spec_bytes());
        },
        PathKey::MptCommitted(e) => {
            lemma_hex_str_len(e.spec_bytes());
        },
        PathKey::MptMergeTemp(n) => {
            lemma_hex_str_len(n.spec_bytes());
        },
        PathKey::MptLatest => {},
    }
}

/// A temporary name is never a committed name, in either store directory:
/// a crash that leaves a temporary directory behind can never be mistaken
/// for a committed snapshot.
pub proof fn lemma_temp_names_not_committed(t: PathKey, c: PathKey)
    requires
        t is MergeTemp || t is FullSyncTemp || t is MptMergeTemp,
        c is Committed || c is MptCommitted || c is MptLatest,
    ensures
        spec_name(t) != spec_name(c),
{
    lemma_name_lengths(t);
    lemma_name_lengths(c);
}

/// Within one store directory the rendering is injective: two keys with the
/// same directory name are the same key.
#[verifier::rlimit(40)]
pub proof fn lemma_name_injective(k1: PathKey, k2: PathKey)
    requires
        dir_of(k1) == dir_of(k2),
        spec_name(k1) == spec_name(k2),
    ensures
        k1 == k2,
{
    lemma_name_lengths(k1);
    lemma_name_lengths(k2);
    match (k1, k2) {
        (PathKey::Committed(a), PathKey::Committed(b)) => {
            lemma_strip_eq(spec_name(k1), "sqlite_"@, hex_str_of(a.spec_bytes()), hex_str_of(
                b.spec_bytes(),
            ));
            lemma_hex_str_injective(a.spec_bytes(), b.spec_bytes());
            lemma_hash256_bytes_injective(a, b);
        },
        (PathKey::MptCommitted(a), PathKey::MptCommitted(b)) => {
            lemma_strip_eq(spec_name(k1), "sqlite_"@, hex_str_of(a.spec_bytes()), hex_str_of(
                b.spec_bytes(),
            ));
            lemma_hex_str_injective(a.spec_bytes(), b.spec_bytes());
            lemma_hash256_bytes_injective(a, b);
        },
        (PathKey::MptMergeTemp(a), PathKey::MptMergeTemp(b)) => {
            lemma_strip_eq(spec_name(k1), "sqlite_merge_temp_"@, hex_str_of(a.spec_bytes()),
                hex_str_of(b.spec_bytes()));
            lemma_hex_str_injective(a.spec_bytes(), b.spec_bytes());
            lemma_hash256_bytes_injective(a, b);
        },
        (PathKey::MergeTemp(o1, n1), PathKey::MergeTemp(o2, n2)) => {
            lemma_hex_str_len(o1.spec_bytes());
            lemma_hex_str_len(n1.spec_bytes());
            lemma_hex_str_len(o2.spec_bytes());
            lemma_hex_str_len(n2.spec_bytes());
            lemma_strip_eq2(spec_name(k1), "sqlite_merge_temp_"@, hex_str_of(o1.spec_bytes()),
                hex_str_of(n1.spec_bytes()), hex_str_of(o2.spec_bytes()), hex_str_of(
                n2.spec_bytes()));
            lemma_hex_str_injective(o1.spec_bytes(), o2.spec_bytes());
            lemma_hex_str_injective(n1.spec_bytes(), n2.spec_bytes());
            lemma_hash256_bytes_injective(o1, o2);
            lemma_hash256_bytes_injective(n1, n2);
        },
        (PathKey::FullSyncTemp(e1, r1), PathKey::FullSyncTemp(e2, r2)) => {
            lemma_hex_str_len(e1.spec_bytes());
            lemma_hex_str_len(r1.spec_bytes());
            lemma_hex_str_len(e2.spec_bytes());
            lemma_hex_str_len(r2.spec_bytes());
            lemma_strip_eq2(spec_name(k1), "sqlite_full_sync_temp_"@, hex_str_of(e1.spec_bytes()),
                hex_str_of(r1.spec_bytes()), hex_str_of(e2.spec_bytes()), hex_str_of(
                r2.spec_bytes()));
            lemma_hex_str_injective(e1.spec_bytes(), e2.spec_bytes());
            lemma_hex_str_injective(r1.spec_bytes(), r2.spec_bytes());
            lemma_hash256_bytes_injective(e1, e2);
            lemma_hash256_bytes_injective(r1, r2);
        },
        (PathKey::MptLatest, PathKey::MptLatest) => {},
        _ => {},
    }
}

/// From `p + a == p + b` with equal suffix lengths, concludes `a == b`.
proof fn lemma_strip_eq(whole: Seq<char>, p: Seq<char>, a: Seq<char>, b: Seq<char>)
    requires
        whole == p + a,
        whole == p + b,
        a.len() == b.len(),
    ensures
        a == b,
{
    assert forall|i: int| 0 <= i < a.len() implies a[i] == b[i] by {
        assert(a[i] == (p + a)[p.len() + i]);
        assert(b[i] == (p + b)[p.len() + i]);
    }
    assert(a =~= b);
}

/// From `p + a1 + b1 == p + a2 + b2` with matching segment lengths,
/// concludes the segments are equal.
proof fn lemma_strip_eq2(
    whole: Seq<char>,
    p: Seq<char>,
    a1: Seq<char>,
    b1: Seq<char>,
    a2: Seq<char>,
    b2: Seq<char>,
)
    requires
        whole == p + a1 + b1,
        whole == p + a2 + b2,
        a1.len() == a2.len(),
        b1.len() == b2.len(),
    ensures
        a1 == a2,
        b1 == b2,
{
    assert forall|i: int| 0 <= i < a1.len() implies a1[i] == a2[i] by {
        assert(a1[i] == (p + a1)[p.len() + i]);
        assert((p + a1)[p.len() + i] == (p + a1 + b1)[p.len() + i]);
        assert(a2[i] == (p + a2)[p.len() + i]);
        assert((p + a2)[p.len() + i] == (p + a2 + b2)[p.len() + i]);
    }
    assert(a1 =~= a2);
    assert forall|i: int| 0 <= i < b1.len() implies b1[i] == b2[i] by {
        assert(b1[i] == (p + a1 + b1)[p.len() + a1.len() + i]);
        assert(b2[i] == (p + a2 + b2)[p.len() + a2.len() + i]);
    }
    assert(b1 =~= b2);
}

} // verus!
