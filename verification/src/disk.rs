//! A model of what the bucket directories hold.
//!
//! The library never touches the file system: it says which buckets to write,
//! to read and to clear, and in which order. This module states what those
//! plans achieve on a disk that behaves as a map from bucket and identifier to
//! bytes, a file that cannot be read counting as absent.

use vstd::prelude::*;

verus! {

/// The replica files that can be read, by bucket and identifier.
pub struct Disk {
    pub files: Map<(int, u128), Seq<u8>>,
}

impl Disk {
    /// What reading the replica of `fileid` in `bucket` gives.
    pub open spec fn read(self, bucket: int, fileid: u128) -> Option<Seq<u8>> {
        if self.files.contains_key((bucket, fileid)) {
            Some(self.files[(bucket, fileid)])
        } else {
            None
        }
    }

    /// The `k`-th step of a plan touched the file at `key`.
    pub open spec fn touched(order: Seq<int>, done: Seq<bool>, fileid: u128, key: (int, u128)) -> bool {
        &&& key.1 == fileid
        &&& exists|k: int| 0 <= k < order.len() && #[trigger] done[k] && order[k] == key.0
    }

    /// The disk after the bytes of `fileid` were written to the buckets of
    /// `order`, where `done[k]` tells whether the `k`-th write succeeded.
    pub open spec fn store(self, order: Seq<int>, fileid: u128, bytes: Seq<u8>, done: Seq<bool>) -> Disk {
        Disk {
            files: Map::new(
                |key: (int, u128)|
                    self.files.contains_key(key) || Disk::touched(order, done, fileid, key),
                |key: (int, u128)|
                    if Disk::touched(order, done, fileid, key) {
                        bytes
                    } else {
                        self.files[key]
                    },
            ),
        }
    }

    /// The disk after the replicas of `fileid` were removed from the buckets
    /// of `order`, where `done[k]` tells whether the `k`-th removal was
    /// carried out. Removing a file that is not there changes nothing.
    pub open spec fn delete(self, order: Seq<int>, fileid: u128, done: Seq<bool>) -> Disk {
        Disk {
            files: Map::new(
                |key: (int, u128)|
                    self.files.contains_key(key) && !Disk::touched(order, done, fileid, key),
                |key: (int, u128)| self.files[key],
            ),
        }
    }

    /// The disk after the replica files of `fileid` in the buckets of `lost`
    /// went missing.
    pub open spec fn lose(self, lost: Set<int>, fileid: u128) -> Disk {
        Disk {
            files: Map::new(
                |key: (int, u128)|
                    self.files.contains_key(key) && !(key.1 == fileid && lost.contains(key.0)),
                |key: (int, u128)| self.files[key],
            ),
        }
    }

    /// What probing the buckets of `order` for `fileid` gives: the bytes of
    /// the first replica that can be read, and `None` when none can.
    pub open spec fn retrieve(self, order: Seq<int>, fileid: u128) -> Option<Seq<u8>>
        decreases order.len(),
    {
        if order.len() == 0 {
            None
        } else if self.read(order[0], fileid) is Some {
            self.read(order[0], fileid)
        } else {
            self.retrieve(order.drop_first(), fileid)
        }
    }

    /// Every step of a plan was carried out.
    pub open spec fn all_done(order: Seq<int>, done: Seq<bool>) -> bool {
        &&& done.len() == order.len()
        &&& forall|k: int| 0 <= k < done.len() ==> #[trigger] done[k]
    }

    /// Where every replica that can be read holds `bytes`, and one of them
    /// can be read, probing gives `bytes`.
    pub proof fn retrieve_agreed(self, order: Seq<int>, fileid: u128, bytes: Seq<u8>)
        requires
            forall|k: int|
                0 <= k < order.len() && (#[trigger] self.read(order[k], fileid)) is Some
                    ==> self.read(order[k], fileid) == Some(bytes),
            exists|k: int| 0 <= k < order.len() && (#[trigger] self.read(order[k], fileid)) is Some,
        ensures
            self.retrieve(order, fileid) == Some(bytes),
        decreases order.len(),
    {
        if self.read(order[0], fileid) is Some {
        } else {
            let rest = order.drop_first();
            let k = choose|k: int|
                0 <= k < order.len() && (#[trigger] self.read(order[k], fileid)) is Some;
            assert(rest[k - 1] == order[k]);
            assert forall|j: int|
                0 <= j < rest.len() && (#[trigger] self.read(rest[j], fileid)) is Some implies self.read(
                rest[j],
                fileid,
            ) == Some(bytes) by {
                assert(rest[j] == order[j + 1]);
            }
            self.retrieve_agreed(rest, fileid, bytes);
        }
    }

    /// Where no replica can be read, probing gives nothing.
    pub proof fn retrieve_nothing(self, order: Seq<int>, fileid: u128)
        requires
            forall|k: int| 0 <= k < order.len() ==> (#[trigger] self.read(order[k], fileid)) is None,
        ensures
            self.retrieve(order, fileid) is None,
        decreases order.len(),
    {
        if order.len() > 0 {
            let rest = order.drop_first();
            assert forall|j: int| 0 <= j < rest.len() implies (#[trigger] self.read(
                rest[j],
                fileid,
            )) is None by {
                assert(rest[j] == order[j + 1]);
            }
            self.retrieve_nothing(rest, fileid);
        }
    }

    /// Round trip: after a store in which every write succeeded, retrieving
    /// the file gives back the bytes that were stored.
    pub proof fn store_then_retrieve(
        self,
        order: Seq<int>,
        fileid: u128,
        bytes: Seq<u8>,
        done: Seq<bool>,
    )
        requires
            order.len() >= 1,
            Disk::all_done(order, done),
        ensures
            self.store(order, fileid, bytes, done).retrieve(order, fileid) == Some(bytes),
    {
        self.store_then_lose_then_retrieve(order, fileid, bytes, done, Set::empty());
        assert(self.store(order, fileid, bytes, done).lose(Set::empty(), fileid).files
            =~= self.store(order, fileid, bytes, done).files);
    }

    /// Replica resilience: after a store in which every write succeeded, the
    /// file can still be retrieved when some of its replica files have gone
    /// missing, as long as one of them is left.
    pub proof fn store_then_lose_then_retrieve(
        self,
        order: Seq<int>,
        fileid: u128,
        bytes: Seq<u8>,
        done: Seq<bool>,
        lost: Set<int>,
    )
        requires
            Disk::all_done(order, done),
            exists|k: int| 0 <= k < order.len() && !lost.contains(#[trigger] order[k]),
        ensures
            self.store(order, fileid, bytes, done).lose(lost, fileid).retrieve(order, fileid)
                == Some(bytes),
    {
        let after = self.store(order, fileid, bytes, done).lose(lost, fileid);
        let kept = choose|k: int| 0 <= k < order.len() && !lost.contains(#[trigger] order[k]);
        assert(done[kept]);
        assert(Disk::touched(order, done, fileid, (order[kept], fileid)));
        assert(after.read(order[kept], fileid) is Some);
        assert forall|k: int|
            0 <= k < order.len() && (#[trigger] after.read(order[k], fileid)) is Some implies after.read(
            order[k],
            fileid,
        ) == Some(bytes) by {
            assert(done[k]);
            assert(Disk::touched(order, done, fileid, (order[k], fileid)));
        }
        after.retrieve_agreed(order, fileid, bytes);
    }

    /// After a delete in which every removal was carried out, the file can no
    /// longer be retrieved.
    pub proof fn delete_then_retrieve(self, order: Seq<int>, fileid: u128, done: Seq<bool>)
        requires
            Disk::all_done(order, done),
        ensures
            self.delete(order, fileid, done).retrieve(order, fileid) is None,
    {
        let after = self.delete(order, fileid, done);
        assert forall|k: int| 0 <= k < order.len() implies (#[trigger] after.read(
            order[k],
            fileid,
        )) is None by {
            assert(done[k]);
            assert(Disk::touched(order, done, fileid, (order[k], fileid)));
        }
        after.retrieve_nothing(order, fileid);
    }

    /// Deleting is idempotent: a second delete of the same replicas finds
    /// nothing to remove and leaves the disk as the first left it.
    pub proof fn delete_twice(self, order: Seq<int>, fileid: u128, done: Seq<bool>, again: Seq<bool>)
        requires
            Disk::all_done(order, done),
            again.len() == order.len(),
        ensures
            self.delete(order, fileid, done).delete(order, fileid, again) == self.delete(
                order,
                fileid,
                done,
            ),
    {
        let once = self.delete(order, fileid, done);
        let twice = once.delete(order, fileid, again);
        assert forall|key: (int, u128)| once.files.contains_key(key) implies !Disk::touched(
            order,
            again,
            fileid,
            key,
        ) by {
            if Disk::touched(order, again, fileid, key) {
                let k = choose|k: int| 0 <= k < order.len() && #[trigger] again[k] && order[k] == key.0;
                assert(done[k]);
                assert(Disk::touched(order, done, fileid, key));
            }
        }
        assert(twice.files =~= once.files);
    }

    /// A store or a delete of one file leaves the replicas of every other file
    /// as they were.
    pub proof fn other_files_untouched(
        self,
        order: Seq<int>,
        fileid: u128,
        bytes: Seq<u8>,
        done: Seq<bool>,
        bucket: int,
        other: u128,
    )
        requires
            other != fileid,
        ensures
            self.store(order, fileid, bytes, done).read(bucket, other) == self.read(bucket, other),
            self.delete(order, fileid, done).read(bucket, other) == self.read(bucket, other),
    {
    }
}

} // verus!
