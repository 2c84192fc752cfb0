//! The model of the host filesystem, as far as this layer reads it.
//!
//! The store directories are modeled as a finite map from structured
//! directory key to database image, together with two host capabilities:
//! whether the filesystem supports copy-on-write duplication, and whether
//! bulk copying is currently succeeding (a stand-in for the host's I/O
//! health).  Every operation states its effect as a map update, so callers
//! reason about directories as a `Map<PathKey, DbImageView>`.

use vstd::prelude::*;

use crate::db_model::{DbImage, DbImageView};
use crate::paths::PathKey;

verus! {

/// One directory: its key and the database image inside it.
#[derive(Debug)]
pub struct FsDir {
    pub path: PathKey,
    pub image: DbImage,
}

/// The filesystem model.
#[derive(Debug)]
pub struct FsModel {
    pub dirs: Vec<FsDir>,
    /// Whether the host filesystem supports copy-on-write duplication.
    pub cow_supported: bool,
    /// Whether bulk copying (full duplication or a full read of a prior
    /// snapshot) currently succeeds on this host.
    pub copy_healthy: bool,
}

/// The map reading of a directory list: later entries win, so under the
/// well-formedness below it is exactly the association list's map.
pub open spec fn dirs_as_map(s: Seq<FsDir>) -> Map<PathKey, DbImageView>
    decreases s.len(),
{
    if s.len() == 0 {
        Map::empty()
    } else {
        dirs_as_map(s.drop_last()).insert(s.last().path, s.last().image@)
    }
}

pub proof fn lemma_dirs_as_map_domain(s: Seq<FsDir>, p: PathKey)
    ensures
        dirs_as_map(s).contains_key(p) <==> exists|i: int|
            0 <= i < s.len() && (#[trigger] s[i]).path == p,
    decreases s.len(),
{
    if s.len() > 0 {
        lemma_dirs_as_map_domain(s.drop_last(), p);
        if s.last().path == p {
            assert(s[s.len() - 1].path == p);
        } else {
            if exists|i: int| 0 <= i < s.len() && (#[trigger] s[i]).path == p {
                let i = choose|i: int| 0 <= i < s.len() && (#[trigger] s[i]).path == p;
                if i < s.len() - 1 {
                    assert(s.drop_last()[i].path == p);
                }
            }
            if exists|i: int| 0 <= i < s.drop_last().len() && (#[trigger] s.drop_last()[i]).path
                == p {
                let i = choose|i: int|
                    0 <= i < s.drop_last().len() && (#[trigger] s.drop_last()[i]).path == p;
                assert(s[i].path == p);
            }
        }
    }
}

pub open spec fn dirs_unique(s: Seq<FsDir>) -> bool {
    forall|i: int, j: int|
        0 <= i < j < s.len() ==> (#[trigger] s[i]).path != (#[trigger] s[j]).path
}

pub proof fn lemma_dirs_as_map_value(s: Seq<FsDir>, i: int)
    requires
        dirs_unique(s),
        0 <= i < s.len(),
    ensures
        dirs_as_map(s).contains_key(s[i].path),
        dirs_as_map(s)[s[i].path] == s[i].image@,
    decreases s.len(),
{
    if i == s.len() - 1 {
    } else {
        assert(dirs_unique(s.drop_last()));
        lemma_dirs_as_map_value(s.drop_last(), i);
        assert(s.drop_last()[i] == s[i]);
        assert(s[i].path != s.last().path);
    }
}

pub proof fn lemma_dirs_as_map_remove(s: Seq<FsDir>, i: int)
    requires
        dirs_unique(s),
        0 <= i < s.len(),
    ensures
        dirs_as_map(s.remove(i)) =~= dirs_as_map(s).remove(s[i].path),
    decreases s.len(),
{
    let p = s[i].path;
    if i == s.len() - 1 {
        assert(s.remove(i) =~= s.drop_last());
        lemma_dirs_as_map_domain(s.drop_last(), p);
        assert(forall|j: int|
            0 <= j < s.drop_last().len() ==> (#[trigger] s.drop_last()[j]).path == s[j].path);
        assert(!dirs_as_map(s.drop_last()).contains_key(p));
        assert(dirs_as_map(s).remove(p) =~= dirs_as_map(s.drop_last()));
    } else {
        assert(dirs_unique(s.drop_last()));
        lemma_dirs_as_map_remove(s.drop_last(), i);
        assert(s.remove(i).drop_last() =~= s.drop_last().remove(i));
        assert(s.remove(i).last() == s.last());
        assert(s.last().path != p);
        assert(dirs_as_map(s.remove(i)) == dirs_as_map(s.drop_last().remove(i)).insert(
            s.last().path,
            s.last().image@,
        ));
        assert(dirs_as_map(s.remove(i)) =~= dirs_as_map(s).remove(p));
    }
}

impl FsModel {
    /// Directory keys are unique: the well-formedness of the model.
    pub open spec fn wf(self) -> bool {
        dirs_unique(self.dirs@)
    }

    /// The directories as a map from key to image state.
    pub open spec fn as_map(self) -> Map<PathKey, DbImageView> {
        dirs_as_map(self.dirs@)
    }

    /// An empty filesystem with the given host capabilities.
    pub fn new(cow_supported: bool, copy_healthy: bool) -> (r: FsModel)
        ensures
            r.wf(),
            r.as_map() =~= Map::<PathKey, DbImageView>::empty(),
            r.cow_supported == cow_supported,
            r.copy_healthy == copy_healthy,
    {
        FsModel { dirs: Vec::new(), cow_supported, copy_healthy }
    }

    /// The index of a directory, if present.
    fn find_index(&self, p: PathKey) -> (r: Option<usize>)
        ensures
            match r {
                Some(i) => i < self.dirs@.len() && self.dirs@[i as int].path == p,
                None => !self.as_map().contains_key(p),
            },
    {
        proof {
            lemma_dirs_as_map_domain(self.dirs@, p);
        }
        let mut i: usize = 0;
        while i < self.dirs.len()
            invariant
                i <= self.dirs@.len(),
                forall|k: int| 0 <= k < i ==> (#[trigger] self.dirs@[k]).path != p,
            decreases self.dirs@.len() - i,
        {
            if self.dirs[i].path == p {
                return Some(i);
            }
            i = i + 1;
        }
        proof {
            lemma_dirs_as_map_domain(self.dirs@, p);
        }
        None
    }

    /// Whether the directory exists.
    pub fn dir_exists(&self, p: PathKey) -> (r: bool)
        requires
            self.wf(),
        ensures
            r == self.as_map().contains_key(p),
    {
        match self.find_index(p) {
            Some(i) => {
                proof {
                    lemma_dirs_as_map_value(self.dirs@, i as int);
                }
                true
            },
            None => false,
        }
    }

    /// Reads the image of a directory, if present.
    pub fn get_image(&self, p: PathKey) -> (r: Option<DbImage>)
        requires
            self.wf(),
        ensures
            match r {
                Some(img) => self.as_map().contains_key(p) && img@ == self.as_map()[p],
                None => !self.as_map().contains_key(p),
            },
    {
        match self.find_index(p) {
            Some(i) => {
                proof {
                    lemma_dirs_as_map_value(self.dirs@, i as int);
                }
                Some(self.dirs[i].image.duplicate())
            },
            None => None,
        }
    }

    /// Creates a directory holding the given image.
    pub fn put(&mut self, p: PathKey, image: DbImage)
        requires
            old(self).wf(),
            !old(self).as_map().contains_key(p),
        ensures
            final(self).wf(),
            final(self).as_map() =~= old(self).as_map().insert(p, image@),
            final(self).cow_supported == old(self).cow_supported,
            final(self).copy_healthy == old(self).copy_healthy,
    {
        proof {
            lemma_dirs_as_map_domain(self.dirs@, p);
        }
        self.dirs.push(FsDir { path: p, image });
        proof {
            assert(self.dirs@.drop_last() =~= old(self).dirs@);
        }
    }

    /// Replaces the image inside an existing directory.
    pub fn update_image(&mut self, p: PathKey, image: DbImage)
        requires
            old(self).wf(),
            old(self).as_map().contains_key(p),
        ensures
            final(self).wf(),
            final(self).as_map() =~= old(self).as_map().insert(p, image@),
            final(self).cow_supported == old(self).cow_supported,
            final(self).copy_healthy == old(self).copy_healthy,
    {
        proof {
            lemma_dirs_as_map_domain(self.dirs@, p);
        }
        let i = match self.find_index(p) {
            Some(i) => i,
            None => {
                proof {
                    assert(false);
                }
                0
            },
        };
        proof {
            lemma_dirs_as_map_remove(self.dirs@, i as int);
        }
        let ghost pre_remove = self.dirs@;
        self.dirs.remove(i);
        proof {
            assert(forall|a: int, b: int|
                0 <= a < b < self.dirs@.len() ==> (#[trigger] self.dirs@[a]).path
                    != (#[trigger] self.dirs@[b]).path) by {
                assert(forall|a: int|
                    0 <= a < self.dirs@.len() ==> #[trigger] self.dirs@[a] == if a < i as int {
                        pre_remove[a]
                    } else {
                        pre_remove[a + 1]
                    });
            }
            lemma_dirs_as_map_domain(self.dirs@, p);
            assert(forall|a: int|
                0 <= a < self.dirs@.len() ==> (#[trigger] self.dirs@[a]).path != p) by {
                assert(forall|a: int|
                    0 <= a < self.dirs@.len() ==> #[trigger] self.dirs@[a] == if a < i as int {
                        pre_remove[a]
                    } else {
                        pre_remove[a + 1]
                    });
            }
        }
        self.dirs.push(FsDir { path: p, image });
        proof {
            assert(self.dirs@.drop_last() =~= old(self).dirs@.remove(i as int));
            assert(self.as_map() =~= old(self).as_map().insert(p, image@));
        }
    }

    /// Removes a directory; removing an absent directory is a no-op.
    pub fn remove_dir(&mut self, p: PathKey)
        requires
            old(self).wf(),
        ensures
            final(self).wf(),
            final(self).as_map() =~= old(self).as_map().remove(p),
            final(self).cow_supported == old(self).cow_supported,
            final(self).copy_healthy == old(self).copy_healthy,
    {
        proof {
            lemma_dirs_as_map_domain(self.dirs@, p);
        }
        let i = match self.find_index(p) {
            Some(i) => i,
            None => {
                proof {
                    assert(self.as_map() =~= old(self).as_map().remove(p));
                }
                return ;
            },
        };
        proof {
            lemma_dirs_as_map_remove(self.dirs@, i as int);
        }
        let ghost pre_remove = self.dirs@;
        self.dirs.remove(i);
        proof {
            assert(forall|a: int, b: int|
                0 <= a < b < self.dirs@.len() ==> (#[trigger] self.dirs@[a]).path
                    != (#[trigger] self.dirs@[b]).path) by {
                assert(forall|a: int|
                    0 <= a < self.dirs@.len() ==> #[trigger] self.dirs@[a] == if a < i as int {
                        pre_remove[a]
                    } else {
                        pre_remove[a + 1]
                    });
            }
        }
    }

    /// Atomically renames a directory onto a fresh key.
    pub fn rename_dir(&mut self, from: PathKey, to: PathKey)
        requires
            old(self).wf(),
            old(self).as_map().contains_key(from),
            !old(self).as_map().contains_key(to),
        ensures
            final(self).wf(),
            final(self).as_map() =~= old(self).as_map().remove(from).insert(
                to,
                old(self).as_map()[from],
            ),
            final(self).cow_supported == old(self).cow_supported,
            final(self).copy_healthy == old(self).copy_healthy,
    {
        let img = match self.get_image(from) {
            Some(img) => img,
            None => {
                proof {
                    assert(false);
                }
                DbImage::create(false)
            },
        };
        self.remove_dir(from);
        proof {
            lemma_dirs_as_map_domain(self.dirs@, to);
            lemma_dirs_as_map_domain(old(self).dirs@, to);
            assert(!self.as_map().contains_key(to));
        }
        self.put(to, img);
    }
}

} // verus!
