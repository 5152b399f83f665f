//! The placement ring.
//!
//! The hash space `[0, BASE)` is cut into one interval per bucket. A file's
//! identifier hashes to a point of that space; the bucket whose interval holds
//! the point is the file's primary bucket, and its replicas go to the buckets
//! that follow, wrapping round at the end of the ring.

use crate::disk::Disk;
use crate::fileid::calculate_hash;
use crate::fileid::hash_of;
use vstd::arithmetic::div_mod::lemma_mod_add_multiples_vanish;
use vstd::arithmetic::div_mod::lemma_small_mod;
use vstd::prelude::*;
use vstd::set_lib::lemma_len_subset;

verus! {

/// Directory under which the bucket directories live.
pub const ROOT: &'static str = "./storage";

/// What a bucket directory's name begins with; its index follows.
pub const BUCKET: &'static str = "bucket_";

/// Width of the hash space.
pub const BASE: u64 = 65535;

/// Number of buckets of the default layout.
pub const BUCKET_SIZE: usize = 10;

/// Number of replicas of the default layout.
pub const DUPLICATE: u64 = 3;

/// The decimal digits.
pub open spec fn digits() -> Seq<char> {
    seq!['0', '1', '2', '3', '4', '5', '6', '7', '8', '9']
}

/// A number in decimal, without leading zeros.
pub open spec fn decimal(n: nat) -> Seq<char>
    decreases n,
{
    if n < 10 {
        seq![digits()[n as int]]
    } else {
        decimal(n / 10).push(digits()[(n % 10) as int])
    }
}

/// The name of the directory of bucket `index`.
pub open spec fn bucket_dir_text(index: nat) -> Seq<char> {
    BUCKET@ + decimal(index)
}

/// One decimal digit as a string.
fn digit(d: usize) -> (text: &'static str)
    requires
        d < 10,
    ensures
        text@ == seq![digits()[d as int]],
{
    proof {
        reveal_strlit("0");
        reveal_strlit("1");
        reveal_strlit("2");
        reveal_strlit("3");
        reveal_strlit("4");
        reveal_strlit("5");
        reveal_strlit("6");
        reveal_strlit("7");
        reveal_strlit("8");
        reveal_strlit("9");
    }
    let text = if d == 0 {
        "0"
    } else if d == 1 {
        "1"
    } else if d == 2 {
        "2"
    } else if d == 3 {
        "3"
    } else if d == 4 {
        "4"
    } else if d == 5 {
        "5"
    } else if d == 6 {
        "6"
    } else if d == 7 {
        "7"
    } else if d == 8 {
        "8"
    } else {
        "9"
    };
    assert(text@ =~= seq![digits()[d as int]]);
    text
}

/// Writes a number in decimal.
pub fn to_decimal(n: usize) -> (text: String)
    ensures
        text@ == decimal(n as nat),
    decreases n,
{
    if n < 10 {
        String::from_str(digit(n))
    } else {
        let mut text = to_decimal(n / 10);
        text.append(digit(n % 10));
        assert(text@ =~= decimal(n as nat));
        text
    }
}

/// The name of the directory of bucket `index`: `BUCKET`, then the index in
/// decimal.
pub fn bucket_dir(index: usize) -> (name: String)
    ensures
        name@ == bucket_dir_text(index as nat),
{
    String::from_str(BUCKET).concat(to_decimal(index).as_str())
}

/// Why a layout is refused.
#[derive(Clone, Copy, Debug, PartialEq, Eq, Structural)]
pub enum LayoutError {
    /// There is no bucket.
    NoBuckets,
    /// There is no replica.
    NoReplicas,
    /// There are more buckets than points in the hash space.
    TooManyBuckets,
    /// There are more replicas than buckets.
    TooManyReplicas,
}

/// The ring as a mathematical value: the lower bound of each bucket's
/// interval, by bucket index, and the number of replicas of a file.
pub struct Ring {
    pub bounds: Seq<u64>,
    pub replicas: nat,
}

impl Ring {
    /// Number of buckets.
    pub open spec fn buckets(self) -> int {
        self.bounds.len() as int
    }

    /// The ring covers `[0, BASE)` with one non-empty interval per bucket, in
    /// ascending order, and a file has at least one replica and at most one
    /// per bucket.
    pub open spec fn wf(self) -> bool {
        &&& 1 <= self.buckets() <= BASE
        &&& 1 <= self.replicas <= self.buckets()
        &&& self.bounds[0] == 0
        &&& forall|i: int, j: int| 0 <= i < j < self.buckets() ==> self.bounds[i] < self.bounds[j]
        &&& forall|i: int| 0 <= i < self.buckets() ==> self.bounds[i] < BASE
    }

    /// Bucket `i` holds the point `target`: its interval starts at or below
    /// the point, and the next interval, if there is one, starts above it.
    pub open spec fn owns(self, i: int, target: u64) -> bool {
        &&& 0 <= i < self.buckets()
        &&& self.bounds[i] <= target
        &&& i + 1 < self.buckets() ==> target < self.bounds[i + 1]
    }

    /// The bucket that holds `target`.
    pub open spec fn owner(self, target: u64) -> int {
        choose|i: int| self.owns(i, target)
    }

    /// The primary bucket of a file.
    pub open spec fn placement(self, fileid: u128) -> int {
        self.owner((hash_of(fileid) % BASE) as u64)
    }

    /// The bucket of the `k`-th replica of a file whose primary bucket is
    /// `primary`.
    pub open spec fn replica(self, primary: int, k: int) -> int {
        (primary + k) % self.buckets()
    }

    /// The buckets of a file's replicas, in the order in which they are
    /// written and probed.
    pub open spec fn replicas_from(self, primary: int) -> Seq<int> {
        Seq::new(self.replicas, |k: int| self.replica(primary, k))
    }

    /// The lower bounds of a ring of `buckets` buckets of equal width, the
    /// last one taking what is left of the space.
    pub open spec fn even(buckets: nat, replicas: nat) -> Ring {
        Ring {
            bounds: Seq::new(buckets, |i: int| (i * (BASE as int / buckets as int)) as u64),
            replicas,
        }
    }

    /// Going `k` buckets on from `primary` wraps round the end of the ring at
    /// most once.
    pub proof fn replica_wraps(self, primary: int, k: int)
        requires
            0 <= primary < self.buckets(),
            0 <= k <= self.buckets(),
        ensures
            self.replica(primary, k) == if primary + k < self.buckets() {
                primary + k
            } else {
                primary + k - self.buckets()
            },
            0 <= self.replica(primary, k) < self.buckets(),
    {
        let b = self.buckets();
        if primary + k < b {
            lemma_small_mod((primary + k) as nat, b as nat);
        } else {
            lemma_small_mod((primary + k - b) as nat, b as nat);
            lemma_mod_add_multiples_vanish(primary + k - b, b);
        }
    }

    /// The replicas of a file lie in distinct buckets.
    pub proof fn replicas_are_distinct(self, primary: int)
        requires
            self.wf(),
            0 <= primary < self.buckets(),
        ensures
            self.replicas_from(primary).no_duplicates(),
            forall|k: int|
                0 <= k < self.replicas ==> 0 <= #[trigger] self.replicas_from(primary)[k]
                    < self.buckets(),
    {
        let order = self.replicas_from(primary);
        assert forall|i: int, j: int| 0 <= i < order.len() && 0 <= j < order.len() && i != j implies order[i]
            != order[j] by {
            self.replica_wraps(primary, i);
            self.replica_wraps(primary, j);
        }
        assert forall|k: int| 0 <= k < self.replicas implies 0 <= #[trigger] order[k]
            < self.buckets() by {
            self.replica_wraps(primary, k);
        }
    }

    /// Round trip: after a store in which every write succeeded, retrieving
    /// the file gives back the bytes that were stored.
    pub proof fn round_trip(self, disk: Disk, fileid: u128, bytes: Seq<u8>, done: Seq<bool>)
        requires
            self.wf(),
            Disk::all_done(self.replicas_from(self.placement(fileid)), done),
        ensures
            disk.store(self.replicas_from(self.placement(fileid)), fileid, bytes, done).retrieve(
                self.replicas_from(self.placement(fileid)),
                fileid,
            ) == Some(bytes),
    {
        disk.store_then_retrieve(self.replicas_from(self.placement(fileid)), fileid, bytes, done);
    }

    /// Replica resilience: after a store in which every write succeeded, the
    /// file can still be retrieved when fewer replica files than the ring
    /// keeps of each file have gone missing, whichever they are.
    pub proof fn survives_loss(
        self,
        disk: Disk,
        fileid: u128,
        bytes: Seq<u8>,
        done: Seq<bool>,
        lost: Set<int>,
    )
        requires
            self.wf(),
            Disk::all_done(self.replicas_from(self.placement(fileid)), done),
            lost.finite(),
            lost.len() < self.replicas,
        ensures
            disk.store(self.replicas_from(self.placement(fileid)), fileid, bytes, done).lose(
                lost,
                fileid,
            ).retrieve(self.replicas_from(self.placement(fileid)), fileid) == Some(bytes),
    {
        let primary = self.placement(fileid);
        let order = self.replicas_from(primary);
        self.owner_exists((hash_of(fileid) % BASE) as u64);
        self.replicas_are_distinct(primary);
        if forall|k: int| 0 <= k < order.len() ==> lost.contains(#[trigger] order[k]) {
            order.unique_seq_to_set();
            assert(order.to_set().subset_of(lost)) by {
                assert forall|b: int| order.to_set().contains(b) implies lost.contains(b) by {
                    let k = choose|k: int| 0 <= k < order.len() && order[k] == b;
                    assert(lost.contains(order[k]));
                }
            }
            lemma_len_subset(order.to_set(), lost);
        }
        disk.store_then_lose_then_retrieve(order, fileid, bytes, done, lost);
    }

    /// At most one bucket holds a point.
    pub proof fn owner_is_unique(self, target: u64, i: int, j: int)
        requires
            self.wf(),
            self.owns(i, target),
            self.owns(j, target),
        ensures
            i == j,
    {
        if i < j {
            assert(self.bounds[i + 1] <= self.bounds[j]) by {
                if i + 1 < j {
                    assert(self.bounds[i + 1] < self.bounds[j]);
                }
            }
        } else if j < i {
            assert(self.bounds[j + 1] <= self.bounds[i]) by {
                if j + 1 < i {
                    assert(self.bounds[j + 1] < self.bounds[i]);
                }
            }
        }
    }

    /// Among the first `n` buckets, one holds the point or lies below it with
    /// its successor above it.
    proof fn owner_among(self, target: u64, n: int) -> (i: int)
        requires
            self.wf(),
            1 <= n <= self.buckets(),
        ensures
            0 <= i < n,
            self.bounds[i] <= target,
            i + 1 < n ==> target < self.bounds[i + 1],
        decreases n,
    {
        if n == 1 {
            0
        } else if self.bounds[n - 1] <= target {
            n - 1
        } else {
            self.owner_among(target, n - 1)
        }
    }

    /// Every point of the hash space is held by a bucket: the ring covers the
    /// space.
    pub proof fn owner_exists(self, target: u64)
        requires
            self.wf(),
        ensures
            self.owns(self.owner(target), target),
            0 <= self.owner(target) < self.buckets(),
    {
        let i = self.owner_among(target, self.buckets());
        assert(self.owns(i, target));
    }

    /// Determinism: the primary bucket of a file follows from the ring and
    /// the identifier alone. Two answers to the question where a file lies
    /// are the same answer, and it is `placement`.
    pub proof fn placement_is_determined(self, fileid: u128, first: int, second: int)
        requires
            self.wf(),
            self.owns(first, (hash_of(fileid) % BASE) as u64),
            self.owns(second, (hash_of(fileid) % BASE) as u64),
        ensures
            first == second,
            first == self.placement(fileid),
    {
        let target = (hash_of(fileid) % BASE) as u64;
        self.owner_is_unique(target, first, second);
        self.owner_is(target, first);
    }

    /// A bucket that holds a point is the owner of the point.
    pub proof fn owner_is(self, target: u64, i: int)
        requires
            self.wf(),
            self.owns(i, target),
        ensures
            self.owner(target) == i,
    {
        self.owner_is_unique(target, i, self.owner(target));
    }

    /// In an even layout of `buckets` buckets, the lower bound of bucket `i`
    /// lies in the hash space.
    proof fn even_bound_in_space(buckets: nat, i: int)
        requires
            1 <= buckets <= BASE,
            0 <= i < buckets,
        ensures
            BASE as int / buckets as int >= 1,
            0 <= i * (BASE as int / buckets as int) < BASE,
            buckets * (BASE as int / buckets as int) <= BASE,
    {
        let step = BASE as int / buckets as int;
        assert(step >= 1 && buckets * step <= BASE) by (nonlinear_arith)
            requires
                1 <= buckets <= BASE,
                step == BASE as int / buckets as int,
        ;
        assert(0 <= i * step && i * step + step <= buckets * step) by (nonlinear_arith)
            requires
                0 <= i < buckets,
                step >= 1,
        ;
    }

    /// An even layout that passes the checks of `Storage::with_layout` is
    /// well formed.
    pub proof fn even_is_wf(buckets: nat, replicas: nat)
        requires
            1 <= buckets <= BASE,
            1 <= replicas <= buckets,
        ensures
            Ring::even(buckets, replicas).wf(),
    {
        let ring = Ring::even(buckets, replicas);
        let step = BASE as int / buckets as int;
        assert forall|i: int, j: int| 0 <= i < j < ring.buckets() implies ring.bounds[i]
            < ring.bounds[j] by {
            Ring::even_bound_in_space(buckets, i);
            Ring::even_bound_in_space(buckets, j);
            assert(i * step < j * step) by (nonlinear_arith)
                requires
                    0 <= i < j,
                    step >= 1,
            ;
        }
        Ring::even_bound_in_space(buckets, 0);
        assert(ring.bounds[0] == 0);
        assert forall|i: int| 0 <= i < ring.buckets() implies ring.bounds[i] < BASE by {
            Ring::even_bound_in_space(buckets, i);
        }
    }
}

/// The placement ring of a store.
#[derive(Debug)]
pub struct Storage {
    bucket: Vec<(u64, usize)>,
    duplicate: u64,
}

impl View for Storage {
    type V = Ring;

    closed spec fn view(&self) -> Ring {
        Ring {
            bounds: Seq::new(self.bucket@.len(), |i: int| self.bucket@[i].0),
            replicas: self.duplicate as nat,
        }
    }
}

impl Storage {
    /// The ring is well formed, and each entry carries its own bucket index.
    pub closed spec fn wf(&self) -> bool {
        &&& self@.wf()
        &&& forall|i: int| 0 <= i < self.bucket@.len() ==> (#[trigger] self.bucket@[i]).1 == i
    }

    /// A well-formed store has a well-formed ring.
    pub proof fn wf_means(&self)
        requires
            self.wf(),
        ensures
            self@.wf(),
    {
    }

    /// Builds a ring of `buckets` buckets of equal width with `duplicate`
    /// replicas per file.
    ///
    /// The layout is refused when there is no bucket, when there is no
    /// replica, when there are more buckets than points in the hash space, and
    /// when there are more replicas than buckets; where several of these hold,
    /// the first of them is reported.
    pub fn with_layout(buckets: usize, duplicate: u64) -> (made: Result<Storage, LayoutError>)
        ensures
            buckets == 0 ==> made == Err::<Storage, LayoutError>(LayoutError::NoBuckets),
            buckets != 0 && duplicate == 0 ==> made == Err::<Storage, LayoutError>(
                LayoutError::NoReplicas,
            ),
            buckets != 0 && duplicate != 0 && buckets > BASE ==> made == Err::<
                Storage,
                LayoutError,
            >(LayoutError::TooManyBuckets),
            0 < buckets <= BASE && 0 < duplicate && duplicate > buckets ==> made == Err::<
                Storage,
                LayoutError,
            >(LayoutError::TooManyReplicas),
            0 < duplicate <= buckets <= BASE ==> made is Ok && made->Ok_0.wf() && made->Ok_0@
                == Ring::even(buckets as nat, duplicate as nat),
    {
        if buckets == 0 {
            return Err(LayoutError::NoBuckets);
        }
        if duplicate == 0 {
            return Err(LayoutError::NoReplicas);
        }
        if buckets as u64 > BASE {
            return Err(LayoutError::TooManyBuckets);
        }
        if duplicate > buckets as u64 {
            return Err(LayoutError::TooManyReplicas);
        }
        let step: u64 = BASE / (buckets as u64);
        let mut bucket: Vec<(u64, usize)> = Vec::new();
        let mut val: u64 = 0;
        let mut i: usize = 0;
        proof {
            Ring::even_is_wf(buckets as nat, duplicate as nat);
        }
        while i < buckets
            invariant
                0 < buckets <= BASE,
                step == BASE / (buckets as u64),
                i <= buckets,
                val == i * step,
                bucket@.len() == i,
                forall|k: int| 0 <= k < i ==> #[trigger] bucket@[k] == ((k * step) as u64, k as usize),
                Ring::even(buckets as nat, duplicate as nat).wf(),
            decreases buckets - i,
        {
            proof {
                Ring::even_bound_in_space(buckets as nat, i as int);
                assert((i + 1) * step == i * step + step) by (nonlinear_arith);
                assert((i + 1) * step <= buckets * step) by (nonlinear_arith)
                    requires
                        i + 1 <= buckets,
                        step >= 0,
                ;
            }
            bucket.push((val, i));
            val = val + step;
            i = i + 1;
        }
        let made = Storage { bucket, duplicate };
        proof {
            assert(made@.bounds =~= Ring::even(buckets as nat, duplicate as nat).bounds);
        }
        Ok(made)
    }

    /// The default layout: `BUCKET_SIZE` buckets, `DUPLICATE` replicas.
    pub fn new() -> (made: Storage)
        ensures
            made.wf(),
            made@ == Ring::even(BUCKET_SIZE as nat, DUPLICATE as nat),
    {
        match Storage::with_layout(BUCKET_SIZE, DUPLICATE) {
            Ok(made) => made,
            Err(_) => {
                proof {
                    assert(false);
                }
                Storage { bucket: Vec::new(), duplicate: DUPLICATE }
            },
        }
    }

    /// Number of buckets.
    pub fn bucket_count(&self) -> (n: usize)
        ensures
            n == self@.buckets(),
    {
        self.bucket.len()
    }

    /// Number of replicas of a file.
    pub fn replica_count(&self) -> (n: u64)
        ensures
            n == self@.replicas,
    {
        self.duplicate
    }

    /// The bucket whose interval holds the point `target` of the hash space:
    /// the one with the greatest lower bound that is not above the point.
    pub fn bucket_of(&self, target: u64) -> (index: usize)
        requires
            self.wf(),
        ensures
            self@.owns(index as int, target),
            index == self@.owner(target),
    {
        let mut lo: usize = 0;
        let mut hi: usize = self.bucket.len();
        while hi - lo > 1
            invariant
                self.wf(),
                0 <= lo < hi <= self.bucket@.len(),
                self.bucket@[lo as int].0 <= target,
                hi < self.bucket@.len() ==> target < self.bucket@[hi as int].0,
            decreases hi - lo,
        {
            let mid = lo + (hi - lo) / 2;
            if self.bucket[mid].0 <= target {
                lo = mid;
            } else {
                hi = mid;
            }
        }
        proof {
            assert(self@.bounds[lo as int] == self.bucket@[lo as int].0);
            if lo + 1 < self.bucket@.len() {
                assert(self@.bounds[lo + 1] == self.bucket@[lo + 1].0);
            }
            self@.owner_is(target, lo as int);
        }
        self.bucket[lo].1
    }

    /// The primary bucket of a file: the bucket that holds the point to which
    /// the file's identifier hashes.
    pub fn find_index(&self, fileid: u128) -> (index: usize)
        requires
            self.wf(),
        ensures
            index == self@.placement(fileid),
            self@.owns(index as int, (hash_of(fileid) % BASE) as u64),
    {
        let target = calculate_hash(fileid) % BASE;
        self.bucket_of(target)
    }
    /// The buckets of the replicas of a file whose primary bucket is
    /// `primary`: that bucket, then the ones that follow it, going back to
    /// bucket 0 after the last.
    pub fn replicas_from(&self, primary: usize) -> (order: Vec<usize>)
        requires
            self.wf(),
            primary < self@.buckets(),
        ensures
            order@.map_values(|b: usize| b as int) == self@.replicas_from(primary as int),
    {
        let mut order: Vec<usize> = Vec::new();
        let mut index: usize = primary;
        let mut k: u64 = 0;
        proof {
            self@.replica_wraps(primary as int, 0);
        }
        while k < self.duplicate
            invariant
                self.wf(),
                primary < self@.buckets(),
                k <= self.duplicate,
                index < self.bucket@.len(),
                index == self@.replica(primary as int, k as int),
                order@.len() == k,
                forall|j: int|
                    0 <= j < k ==> #[trigger] order@[j] == self@.replica(primary as int, j),
            decreases self.duplicate - k,
        {
            proof {
                self@.replica_wraps(primary as int, k as int);
                self@.replica_wraps(primary as int, k + 1);
            }
            order.push(index);
            index = index + 1;
            if index == self.bucket.len() {
                index = 0;
            }
            k = k + 1;
        }
        proof {
            assert(order@.map_values(|b: usize| b as int) =~= self@.replicas_from(
                primary as int,
            ));
        }
        order
    }

    /// The buckets of a file's replicas, the primary bucket first.
    pub fn replicas(&self, fileid: u128) -> (order: Vec<usize>)
        requires
            self.wf(),
        ensures
            order@.map_values(|b: usize| b as int) == self@.replicas_from(
                self@.placement(fileid),
            ),
    {
        let primary = self.find_index(fileid);
        self.replicas_from(primary)
    }

    /// The buckets to which the bytes of a file are written, in order. Every
    /// one of them is written; a write that fails does not stop the others.
    pub fn store(&self, fileid: u128) -> (order: Vec<usize>)
        requires
            self.wf(),
        ensures
            order@.map_values(|b: usize| b as int) == self@.replicas_from(
                self@.placement(fileid),
            ),
    {
        self.replicas(fileid)
    }

    /// The buckets from which the file is removed, in order. Every one of
    /// them is tried; a file that is not there is no error.
    pub fn delete(&self, fileid: u128) -> (order: Vec<usize>)
        requires
            self.wf(),
        ensures
            order@.map_values(|b: usize| b as int) == self@.replicas_from(
                self@.placement(fileid),
            ),
    {
        self.replicas(fileid)
    }

    /// Starts the retrieval of a file: its replicas are probed in the order
    /// in which they were written.
    pub fn retrieve(&self, fileid: u128) -> (probe: Retrieval)
        requires
            self.wf(),
        ensures
            probe.wf(),
            probe.fileid() == fileid,
            probe@ == self@.replicas_from(self@.placement(fileid)),
    {
        let order = self.replicas(fileid);
        proof {
            assert(order@.map_values(|b: usize| b as int).len() == order@.len());
        }
        let probe = Retrieval { fileid, order, next: 0 };
        proof {
            assert(probe.order@.skip(0) =~= probe.order@);
        }
        probe
    }
}

/// A retrieval under way: the buckets that are still to be probed for one
/// file, the one to read now being the first.
#[derive(Debug)]
pub struct Retrieval {
    fileid: u128,
    order: Vec<usize>,
    next: usize,
}

/// What a retrieval has come to after one read.
#[derive(Debug)]
pub enum Probed {
    /// The replica was read: these are the file's bytes.
    Found(Vec<u8>),
    /// The replica could not be read: go on with the next one.
    Retry(Retrieval),
    /// No replica could be read.
    NotFound,
}

/// The bytes of a read, as a sequence.
pub open spec fn view_of(outcome: Option<Vec<u8>>) -> Option<Seq<u8>> {
    match outcome {
        Some(bytes) => Some(bytes@),
        None => None,
    }
}

impl Probed {
    /// What the retrieval ends with, when the reads that are still to be made
    /// are answered by `disk`.
    pub open spec fn on(self, disk: Disk) -> Option<Seq<u8>> {
        match self {
            Probed::Found(bytes) => Some(bytes@),
            Probed::Retry(rest) => disk.retrieve(rest@, rest.fileid()),
            Probed::NotFound => None,
        }
    }
}

impl View for Retrieval {
    type V = Seq<int>;

    /// The buckets still to be probed.
    closed spec fn view(&self) -> Seq<int> {
        self.order@.skip(self.next as int).map_values(|b: usize| b as int)
    }
}

impl Retrieval {
    /// There is a bucket to read.
    pub closed spec fn wf(&self) -> bool {
        self.next < self.order@.len()
    }

    /// The file that is looked for.
    pub closed spec fn fileid(&self) -> u128 {
        self.fileid
    }

    /// A retrieval always has a bucket to read.
    pub proof fn has_bucket(&self)
        requires
            self.wf(),
        ensures
            self@.len() >= 1,
    {
    }

    /// The file that is looked for.
    pub fn id(&self) -> (fileid: u128)
        ensures
            fileid == self.fileid(),
    {
        self.fileid
    }

    /// The bucket to read now.
    pub fn bucket(&self) -> (index: usize)
        requires
            self.wf(),
        ensures
            index == self@[0],
    {
        self.order[self.next]
    }

    /// Takes the outcome of reading the file in `self.bucket()`: the bytes,
    /// or `None` where the file could not be read.
    ///
    /// The first replica that can be read ends the retrieval with its bytes.
    /// One that cannot sends it on to the next bucket, and the last one to
    /// `NotFound`.
    pub fn settle(self, outcome: Option<Vec<u8>>) -> (probed: Probed)
        requires
            self.wf(),
        ensures
            match outcome {
                Some(bytes) => probed == Probed::Found(bytes),
                None => if self@.len() > 1 {
                    &&& probed matches Probed::Retry(rest)
                    &&& rest.wf()
                    &&& rest.fileid() == self.fileid()
                    &&& rest@ == self@.drop_first()
                } else {
                    probed is NotFound
                },
            },
            forall|disk: Disk|
                disk.read(self@[0], self.fileid()) == view_of(outcome) ==> #[trigger] disk.retrieve(
                    self@,
                    self.fileid(),
                ) == probed.on(disk),
    {
        proof {
            reveal_with_fuel(Disk::retrieve, 2);
        }
        match outcome {
            Some(bytes) => Probed::Found(bytes),
            None => {
                let len = self.order.len();
                if self.next + 1 < len {
                    let rest = Retrieval {
                        fileid: self.fileid,
                        order: self.order,
                        next: self.next + 1,
                    };
                    proof {
                        assert(rest@ =~= self@.drop_first());
                    }
                    Probed::Retry(rest)
                } else {
                    Probed::NotFound
                }
            },
        }
    }
}

} // verus!
