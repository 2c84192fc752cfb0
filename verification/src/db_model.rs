//! The model of one on-disk snapshot database.
//!
//! The real engine is an external collaborator reached through an opaque
//! contract (`create`, `open`, `dump_delta`, `merge`); what this layer needs
//! of it is only the logical content it carries.  A database image is modeled
//! as the ordered history of key-value writes applied to it (`kv`), the
//! delta-dump side table the engine keeps inside the file (`dump`), and
//! whether the trie sub-table lives inline (`mpt_table`).  The engine's
//! merkle root is a function of the logical content, so two images with equal
//! histories hash to equal roots; contracts here therefore speak of the
//! history, and [`content`] gives its key-value reading.

use vstd::prelude::*;

verus! {

/// One key-value write carried by a delta.
#[derive(Clone, Copy, PartialEq, Eq, Structural, Debug)]
pub struct KvOp {
    pub key: u64,
    pub value: u64,
}

/// The spec-level state of one database image.
#[verifier::ext_equal]
pub struct DbImageView {
    pub kv: Seq<KvOp>,
    pub dump: Seq<KvOp>,
    pub mpt_table: bool,
}

/// The model of one snapshot database directory.
#[derive(Debug)]
pub struct DbImage {
    /// The ordered history of writes applied to the main data.
    pub kv: Vec<KvOp>,
    /// The delta-dump side table kept inside the database.
    pub dump: Vec<KvOp>,
    /// Whether the trie sub-table lives inline in this database.
    pub mpt_table: bool,
}

impl View for DbImage {
    type V = DbImageView;

    open spec fn view(&self) -> DbImageView {
        DbImageView { kv: self.kv@, dump: self.dump@, mpt_table: self.mpt_table }
    }
}

/// The key-value reading of a write history: later writes win.
pub open spec fn content(ops: Seq<KvOp>) -> Map<u64, u64>
    decreases ops.len(),
{
    if ops.len() == 0 {
        Map::empty()
    } else {
        content(ops.drop_last()).insert(ops.last().key, ops.last().value)
    }
}

/// Copies a write list element by element.
pub fn copy_ops(v: &Vec<KvOp>) -> (r: Vec<KvOp>)
    ensures
        r@ == v@,
{
    let mut r: Vec<KvOp> = Vec::new();
    let mut i: usize = 0;
    while i < v.len()
        invariant
            i <= v.len(),
            r@ == v@.subrange(0, i as int),
        decreases v.len() - i,
    {
        r.push(v[i]);
        proof {
            assert(r@ =~= v@.subrange(0, i + 1));
        }
        i = i + 1;
    }
    proof {
        assert(r@ =~= v@);
    }
    r
}

impl DbImage {
    /// A freshly created, empty database.
    pub fn create(mpt_table: bool) -> (r: DbImage)
        ensures
            r@.kv == Seq::<KvOp>::empty(),
            r@.dump == Seq::<KvOp>::empty(),
            r@.mpt_table == mpt_table,
    {
        DbImage { kv: Vec::new(), dump: Vec::new(), mpt_table }
    }

    /// An exact duplicate, as a filesystem-level directory copy produces.
    pub fn duplicate(&self) -> (r: DbImage)
        ensures
            r@ == self@,
    {
        let r = DbImage {
            kv: copy_ops(&self.kv),
            dump: copy_ops(&self.dump),
            mpt_table: self.mpt_table,
        };
        proof {
            assert(r@ =~= self@);
        }
        r
    }

    /// Writes a delta into the dump side table, replacing what was there.
    pub fn dump_delta_mpt(&mut self, delta: &Vec<KvOp>)
        ensures
            final(self)@.kv == old(self)@.kv,
            final(self)@.dump == delta@,
            final(self)@.mpt_table == old(self)@.mpt_table,
    {
        self.dump = copy_ops(delta);
    }

    /// Drops the dump side table carried over from a copied database.
    pub fn drop_delta_mpt_dump(&mut self)
        ensures
            final(self)@.kv == old(self)@.kv,
            final(self)@.dump == Seq::<KvOp>::empty(),
            final(self)@.mpt_table == old(self)@.mpt_table,
    {
        self.dump = Vec::new();
    }

    /// Drops the inline trie sub-table.
    pub fn drop_mpt_table(&mut self)
        ensures
            final(self)@.kv == old(self)@.kv,
            final(self)@.dump == old(self)@.dump,
            final(self)@.mpt_table == false,
    {
        self.mpt_table = false;
    }

    /// Merges the dump side table into the main data.  When the image was
    /// produced by copying the prior snapshot, the prior snapshot's open read
    /// handle is passed along, as the engine contract asks; the resulting
    /// history is this image's history extended by the dump either way.
    pub fn direct_merge(&mut self, old_snapshot: Option<&DbImage>)
        ensures
            final(self)@.kv == old(self)@.kv + old(self)@.dump,
            final(self)@.dump == old(self)@.dump,
            final(self)@.mpt_table == old(self)@.mpt_table,
    {
        let mut merged = copy_ops(&self.kv);
        let mut extra = copy_ops(&self.dump);
        merged.append(&mut extra);
        self.kv = merged;
    }

    /// Merges by reading the prior snapshot in full: the resulting history is
    /// the prior snapshot's history extended by this image's dump.  Used on a
    /// freshly created image, which holds no history of its own.
    pub fn copy_and_merge(&mut self, old_snapshot: &DbImage)
        requires
            old(self)@.kv.len() == 0,
        ensures
            final(self)@.kv == old_snapshot@.kv + old(self)@.dump,
            final(self)@.dump == old(self)@.dump,
            final(self)@.mpt_table == old(self)@.mpt_table,
    {
        let mut merged = copy_ops(&old_snapshot.kv);
        let mut extra = copy_ops(&self.dump);
        merged.append(&mut extra);
        self.kv = merged;
    }
}

} // verus!
