//! The executable model of the blob store: a flat listing of the paths
//! `<owner dir>/<file id>/<name>` that exist on disk. The lifecycle
//! manager drives it through the same operations the filesystem offers:
//! placing one file, removing one file, removing or renaming a whole
//! owner directory.

use vstd::prelude::*;

use crate::model::{BlobM, BlobOwnerM};

verus! {

/// The directory a blob lives under.
#[derive(Clone, Copy, PartialEq, Eq, Structural, Debug)]
pub enum BlobOwner {
    Draft(i32),
    Edition(i32),
}

impl View for BlobOwner {
    type V = BlobOwnerM;

    open spec fn view(&self) -> BlobOwnerM {
        match *self {
            BlobOwner::Draft(d) => BlobOwnerM::Draft(d as int),
            BlobOwner::Edition(e) => BlobOwnerM::Edition(e as int),
        }
    }
}

/// One stored blob.
pub struct Blob {
    pub owner: BlobOwner,
    pub file_id: i32,
    pub name: String,
}

impl View for Blob {
    type V = BlobM;

    open spec fn view(&self) -> BlobM {
        BlobM { owner: self.owner@, file_id: self.file_id as int, name: self.name@ }
    }
}

impl Clone for Blob {
    /// A field-for-field copy.
    fn clone(&self) -> (r: Self)
        ensures
            r@ == self@,
    {
        Blob { owner: self.owner, file_id: self.file_id, name: self.name.clone() }
    }
}

/// The blob store.
pub struct BlobStore {
    pub blobs: Vec<Blob>,
}

impl View for BlobStore {
    type V = Seq<BlobM>;

    open spec fn view(&self) -> Seq<BlobM> {
        self.blobs@.map_values(|b: Blob| b@)
    }
}

impl BlobStore {
    /// An empty directory tree.
    pub fn new() -> (r: BlobStore)
        ensures
            r@ == Seq::<BlobM>::empty(),
    {
        let r = BlobStore { blobs: Vec::new() };
        proof {
            assert(r@ =~= Seq::<BlobM>::empty());
        }
        r
    }

    /// Places one file at `<owner dir>/<file id>/<name>`: the move or hard
    /// link of a blob into place.
    pub fn place(&mut self, owner: BlobOwner, file_id: i32, name: String)
        ensures
            final(self)@ == old(self)@.push(
                BlobM { owner: owner@, file_id: file_id as int, name: name@ },
            ),
    {
        let ghost n: Seq<char> = name@;
        self.blobs.push(Blob { owner, file_id, name });
        proof {
            assert(self@ =~= old(self)@.push(
                BlobM { owner: owner@, file_id: file_id as int, name: n },
            ));
        }
    }

    /// Removes the one path keyed by the file id.
    #[verifier::loop_isolation(false)]
    pub fn remove_file(&mut self, file_id: i32)
        ensures
            ({
                let fid = file_id as int;
                final(self)@ == old(self)@.filter(|b: BlobM| b.file_id != fid)
            }),
    {
        let ghost fid: int = file_id as int;
        let mut kept: Vec<Blob> = Vec::new();
        let mut i: usize = 0;
        while i < self.blobs.len()
            invariant
                i <= self.blobs.len(),
                self == old(self),
                kept@.map_values(|b: Blob| b@) == old(self)@.take(i as int).filter(
                    |b: BlobM| b.file_id != fid,
                ),
            decreases self.blobs.len() - i,
        {
            proof {
                crate::seq_util::lemma_filter_take_step(
                    old(self)@,
                    |b: BlobM| b.file_id != fid,
                    i as int,
                );
                assert(old(self)@[i as int] == self@[i as int]);
            }
            let ghost kept0 = kept@;
            if self.blobs[i].file_id != file_id {
                let b = self.blobs[i].clone();
                proof {
                    assert(b@ == old(self)@[i as int]);
                }
                kept.push(b);
                proof {
                    assert(kept@.map_values(|b: Blob| b@) =~= kept0.map_values(|b: Blob| b@).push(
                        old(self)@[i as int],
                    ));
                    assert(kept@.map_values(|b: Blob| b@) =~= old(self)@.take(i + 1).filter(
                        |b: BlobM| b.file_id != fid,
                    ));
                }
            }
            i = i + 1;
        }
        proof {
            assert(old(self)@.take(self.blobs@.len() as int) =~= old(self)@);
        }
        self.blobs = kept;
    }

    /// Removes a whole owner directory and everything in it.
    #[verifier::loop_isolation(false)]
    pub fn remove_dir(&mut self, owner: BlobOwner)
        ensures
            ({
                let o = owner@;
                final(self)@ == old(self)@.filter(|b: BlobM| b.owner != o)
            }),
    {
        let ghost o: BlobOwnerM = owner@;
        let mut kept: Vec<Blob> = Vec::new();
        let mut i: usize = 0;
        while i < self.blobs.len()
            invariant
                i <= self.blobs.len(),
                self == old(self),
                kept@.map_values(|b: Blob| b@) == old(self)@.take(i as int).filter(
                    |b: BlobM| b.owner != o,
                ),
            decreases self.blobs.len() - i,
        {
            proof {
                crate::seq_util::lemma_filter_take_step(
                    old(self)@,
                    |b: BlobM| b.owner != o,
                    i as int,
                );
                assert(old(self)@[i as int] == self@[i as int]);
            }
            let ghost kept0 = kept@;
            if !(self.blobs[i].owner == owner) {
                let b = self.blobs[i].clone();
                proof {
                    assert(b@ == old(self)@[i as int]);
                }
                kept.push(b);
                proof {
                    assert(kept@.map_values(|b: Blob| b@) =~= kept0.map_values(|b: Blob| b@).push(
                        old(self)@[i as int],
                    ));
                    assert(kept@.map_values(|b: Blob| b@) =~= old(self)@.take(i + 1).filter(
                        |b: BlobM| b.owner != o,
                    ));
                }
            } else {
                proof {
                    assert(old(self)@[i as int].owner == o);
                }
            }
            i = i + 1;
        }
        proof {
            assert(old(self)@.take(self.blobs@.len() as int) =~= old(self)@);
        }
        self.blobs = kept;
    }

    /// Removes several owner directories in one sweep.
    #[verifier::loop_isolation(false)]
    pub fn remove_dirs(&mut self, owners: &Vec<BlobOwner>)
        ensures
            ({
                let os = owners@.map_values(|x: BlobOwner| x@);
                final(self)@ == old(self)@.filter(|b: BlobM| !os.contains(b.owner))
            }),
    {
        let ghost os: Seq<BlobOwnerM> = owners@.map_values(|x: BlobOwner| x@);
        let mut kept: Vec<Blob> = Vec::new();
        let mut i: usize = 0;
        while i < self.blobs.len()
            invariant
                i <= self.blobs.len(),
                self == old(self),
                kept@.map_values(|b: Blob| b@) == old(self)@.take(i as int).filter(
                    |b: BlobM| !os.contains(b.owner),
                ),
            decreases self.blobs.len() - i,
        {
            proof {
                crate::seq_util::lemma_filter_take_step(
                    old(self)@,
                    |b: BlobM| !os.contains(b.owner),
                    i as int,
                );
                assert(old(self)@[i as int] == self@[i as int]);
            }
            let ghost kept0 = kept@;
            let mut hit = false;
            let mut k: usize = 0;
            while k < owners.len()
                invariant
                    k <= owners.len(),
                    i < self.blobs.len(),
                    self == old(self),
                    hit ==> os.contains(self@[i as int].owner),
                    !hit ==> forall|q: int| 0 <= q < k ==> os[q] != self@[i as int].owner,
                decreases owners.len() - k,
            {
                if self.blobs[i].owner == owners[k] {
                    proof {
                        assert(os[k as int] == self@[i as int].owner);
                    }
                    hit = true;
                }
                k = k + 1;
            }
            proof {
                if !hit && os.contains(self@[i as int].owner) {
                    let w = choose|w: int| 0 <= w < os.len() && os[w] == self@[i as int].owner;
                }
            }
            if !hit {
                let b = self.blobs[i].clone();
                proof {
                    assert(b@ == old(self)@[i as int]);
                }
                kept.push(b);
                proof {
                    assert(kept@.map_values(|b: Blob| b@) =~= kept0.map_values(|b: Blob| b@).push(
                        old(self)@[i as int],
                    ));
                    assert(kept@.map_values(|b: Blob| b@) =~= old(self)@.take(i + 1).filter(
                        |b: BlobM| !os.contains(b.owner),
                    ));
                }
            }
            i = i + 1;
        }
        proof {
            assert(old(self)@.take(self.blobs@.len() as int) =~= old(self)@);
        }
        self.blobs = kept;
    }

    /// Renames a whole owner directory: every path under `from` now lives
    /// under `to`.
    #[verifier::loop_isolation(false)]
    pub fn rename_dir(&mut self, from: BlobOwner, to: BlobOwner)
        ensures
            ({
                let f = from@;
                let t = to@;
                final(self)@ == old(self)@.map_values(
                    |b: BlobM|
                        if b.owner == f {
                            BlobM { owner: t, ..b }
                        } else {
                            b
                        },
                )
            }),
    {
        let ghost f: BlobOwnerM = from@;
        let ghost t: BlobOwnerM = to@;
        let mut i: usize = 0;
        while i < self.blobs.len()
            invariant
                i <= self.blobs.len(),
                self.blobs@.len() == old(self).blobs@.len(),
                forall|j: int|
                    0 <= j < i ==> #[trigger] self@[j] == (if old(self)@[j].owner == f {
                        BlobM { owner: t, ..old(self)@[j] }
                    } else {
                        old(self)@[j]
                    }),
                forall|j: int| i <= j < self@.len() ==> #[trigger] self@[j] == old(self)@[j],
            decreases self.blobs.len() - i,
        {
            let ghost pre_iter = self@;
            proof {
                assert(self@[i as int] == old(self)@[i as int]);
            }
            if self.blobs[i].owner == from {
                let b = Blob {
                    owner: to,
                    file_id: self.blobs[i].file_id,
                    name: self.blobs[i].name.clone(),
                };
                proof {
                    assert(b@ == (BlobM { owner: t, ..old(self)@[i as int] }));
                }
                self.blobs.set(i, b);
                proof {
                    assert forall|j: int|
                        0 <= j < self@.len() && j != i implies #[trigger] self@[j] == pre_iter[j] by {
                        assert(self@[j] == self.blobs@[j]@);
                    }
                    assert(self@[i as int] == b@);
                }
            } else {
                proof {
                    assert(old(self)@[i as int].owner != f);
                }
            }
            i = i + 1;
        }
        proof {
            assert(self@ =~= old(self)@.map_values(
                |b: BlobM|
                    if b.owner == f {
                        BlobM { owner: t, ..b }
                    } else {
                        b
                    },
            ));
        }
    }

    /// How many blobs named `name` live under the owner's directory.
    #[verifier::loop_isolation(false)]
    pub fn count_named(&self, owner: BlobOwner, name: &String) -> (r: usize)
        ensures
            ({
                let o = owner@;
                let n = name@;
                r as int == self@.filter(|b: BlobM| b.owner == o && b.name == n).len()
            }),
    {
        let ghost o: BlobOwnerM = owner@;
        let ghost n: Seq<char> = name@;
        let mut count: usize = 0;
        let mut i: usize = 0;
        while i < self.blobs.len()
            invariant
                i <= self.blobs.len(),
                count <= i,
                count as int == self@.take(i as int).filter(
                    |b: BlobM| b.owner == o && b.name == n,
                ).len(),
            decreases self.blobs.len() - i,
        {
            proof {
                crate::seq_util::lemma_filter_take_step(
                    self@,
                    |b: BlobM| b.owner == o && b.name == n,
                    i as int,
                );
            }
            if self.blobs[i].owner == owner && self.blobs[i].name == *name {
                proof {
                    assert(self@[i as int].owner == o && self@[i as int].name == n);
                }
                count = count + 1;
            } else {
                proof {
                    assert(!(self@[i as int].owner == o && self@[i as int].name == n));
                }
            }
            i = i + 1;
        }
        proof {
            assert(self@.take(self.blobs@.len() as int) =~= self@);
        }
        count
    }

    /// Whether a blob exists at `<owner dir>/<file id>/<name>`.
    #[verifier::loop_isolation(false)]
    pub fn has_path(&self, owner: BlobOwner, file_id: i32, name: &String) -> (r: bool)
        ensures
            r == self@.contains(
                BlobM { owner: owner@, file_id: file_id as int, name: name@ },
            ),
    {
        let ghost target = BlobM { owner: owner@, file_id: file_id as int, name: name@ };
        let mut i: usize = 0;
        while i < self.blobs.len()
            invariant
                i <= self.blobs.len(),
                forall|j: int| 0 <= j < i ==> #[trigger] self@[j] != target,
            decreases self.blobs.len() - i,
        {
            if self.blobs[i].owner == owner && self.blobs[i].file_id == file_id
                && self.blobs[i].name == *name {
                proof {
                    assert(self@[i as int] =~= target);
                }
                return true;
            }
            proof {
                assert(self@[i as int] != target);
            }
            i = i + 1;
        }
        proof {
            if self@.contains(target) {
                let w = choose|w: int| 0 <= w < self@.len() && self@[w] == target;
            }
        }
        false
    }
}

} // verus!
