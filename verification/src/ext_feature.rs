//! The most downloaded files.
//!
//! The files are ranked by the pair of download count and identifier: by
//! count, and of two files with the same count the one with the lesser
//! identifier ranks lower. The ranking keeps the `TOP` highest files and lists
//! them from the lowest of them to the highest.

use crate::files::entry_of;
use crate::files::lists;
use crate::files::File;
use crate::files::Registry;
use crate::files::Resource;
use crate::files::UploadedFile;
use vstd::prelude::*;
use vstd::seq_lib::seq_to_set_is_finite;
use vstd::set_lib::lemma_len_subset;
use vstd::std_specs::hash::spec_hash_map_iter;
use vstd::std_specs::iter::IteratorSpec;

verus! {

/// Number of files that the ranking keeps.
pub const TOP: usize = 10;

/// A file with `count` downloads and the identifier `id` ranks below one with
/// `other_count` downloads and the identifier `other_id`.
pub open spec fn below(count: nat, id: u128, other_count: nat, other_id: u128) -> bool {
    count < other_count || (count == other_count && id < other_id)
}

impl Registry {
    /// The file `id` ranks below the file `other`.
    pub open spec fn ranks_below(self, id: u128, other: u128) -> bool {
        below(self.files[id].download_cnt, id, self.files[other].download_cnt, other)
    }

    /// `ids` is the ranking of the registry's files: files of the registry,
    /// from the lowest to the highest, at most `TOP` of them, and every file
    /// that is left out ranks below all of them.
    pub open spec fn is_ranking(self, ids: Seq<u128>) -> bool {
        &&& ids.len() <= TOP
        &&& forall|i: int| 0 <= i < ids.len() ==> self.files.contains_key(#[trigger] ids[i])
        &&& forall|i: int, j: int| 0 <= i < j < ids.len() ==> self.ranks_below(ids[i], ids[j])
        &&& forall|id: u128| #[trigger]
            self.files.contains_key(id) ==> ids.contains(id) || (ids.len() == TOP
                && self.ranks_below(id, ids[0]))
    }

    /// `listing` shows the ranking `ids`, entry by entry.
    pub open spec fn is_top_listing(self, ids: Seq<u128>, listing: Seq<UploadedFile>) -> bool {
        &&& self.is_ranking(ids)
        &&& listing.len() == ids.len()
        &&& forall|i: int|
            0 <= i < ids.len() ==> lists(ids[i], self.files[ids[i]], #[trigger] listing[i])
    }

    /// No file that a ranking leaves out has more downloads than one that it
    /// holds.
    pub proof fn ranking_bound(self, ids: Seq<u128>, inside: int, outside: u128)
        requires
            self.is_ranking(ids),
            0 <= inside < ids.len(),
            self.files.contains_key(outside),
            !ids.contains(outside),
        ensures
            ids.len() == TOP,
            self.files[outside].download_cnt <= self.files[ids[inside]].download_cnt,
    {
        assert(self.ranks_below(outside, ids[0]));
        if inside > 0 {
            assert(self.ranks_below(ids[0], ids[inside]));
        }
    }

    /// Two sequences of identifiers in ascending order of rank that hold the
    /// same identifiers are the same sequence.
    proof fn ascending_same_members(self, a: Seq<u128>, b: Seq<u128>)
        requires
            forall|i: int, j: int| 0 <= i < j < a.len() ==> self.ranks_below(a[i], a[j]),
            forall|i: int, j: int| 0 <= i < j < b.len() ==> self.ranks_below(b[i], b[j]),
            forall|id: u128| a.contains(id) <==> b.contains(id),
        ensures
            a == b,
        decreases a.len(),
    {
        if a.len() == 0 {
            if b.len() > 0 {
                assert(b.contains(b[0]));
            }
            assert(a =~= b);
        } else {
            assert(a.contains(a[0]));
            assert(b.contains(a[0]));
            let j = choose|j: int| 0 <= j < b.len() && b[j] == a[0];
            assert(b.contains(b[0]));
            assert(a.contains(b[0]));
            let k = choose|k: int| 0 <= k < a.len() && a[k] == b[0];
            if k > 0 {
                assert(self.ranks_below(a[0], a[k]));
            }
            if j > 0 {
                assert(self.ranks_below(b[0], b[j]));
            }
            assert(a[0] == b[0]);
            let rest_a = a.drop_first();
            let rest_b = b.drop_first();
            assert forall|id: u128| rest_a.contains(id) <==> rest_b.contains(id) by {
                if rest_a.contains(id) {
                    let i = choose|i: int| 0 <= i < rest_a.len() && rest_a[i] == id;
                    assert(a[i + 1] == id);
                    assert(self.ranks_below(a[0], a[i + 1]));
                    assert(a.contains(id));
                    let m = choose|m: int| 0 <= m < b.len() && b[m] == id;
                    assert(rest_b[m - 1] == id);
                }
                if rest_b.contains(id) {
                    let i = choose|i: int| 0 <= i < rest_b.len() && rest_b[i] == id;
                    assert(b[i + 1] == id);
                    assert(self.ranks_below(b[0], b[i + 1]));
                    assert(b.contains(id));
                    let m = choose|m: int| 0 <= m < a.len() && a[m] == id;
                    assert(rest_a[m - 1] == id);
                }
            }
            assert forall|i: int, j: int| 0 <= i < j < rest_a.len() implies self.ranks_below(
                rest_a[i],
                rest_a[j],
            ) by {
                assert(self.ranks_below(a[i + 1], a[j + 1]));
            }
            assert forall|i: int, j: int| 0 <= i < j < rest_b.len() implies self.ranks_below(
                rest_b[i],
                rest_b[j],
            ) by {
                assert(self.ranks_below(b[i + 1], b[j + 1]));
            }
            self.ascending_same_members(rest_a, rest_b);
            assert(a =~= seq![a[0]] + rest_a);
            assert(b =~= seq![b[0]] + rest_b);
        }
    }

    /// A file of one ranking is in every ranking.
    proof fn ranking_holds_what_another_holds(self, a: Seq<u128>, b: Seq<u128>, id: u128)
        requires
            self.is_ranking(a),
            self.is_ranking(b),
            a.contains(id),
        ensures
            b.contains(id),
    {
        if !b.contains(id) {
            let at = choose|at: int| 0 <= at < a.len() && a[at] == id;
            assert(self.files.contains_key(a[at]));
            assert(self.ranks_below(id, b[0]));
            if at > 0 {
                assert(self.ranks_below(a[0], a[at]));
            }
            assert forall|j: int| 0 <= j < b.len() implies a.contains(#[trigger] b[j]) by {
                assert(self.files.contains_key(b[j]));
                if j > 0 {
                    assert(self.ranks_below(b[0], b[j]));
                }
            }
            assert forall|i: int, j: int| 0 <= i < b.len() && 0 <= j < b.len() && i != j implies b[i]
                != b[j] by {
                if i < j {
                    assert(self.ranks_below(b[i], b[j]));
                } else {
                    assert(self.ranks_below(b[j], b[i]));
                }
            }
            assert forall|i: int, j: int| 0 <= i < a.len() && 0 <= j < a.len() && i != j implies a[i]
                != a[j] by {
                if i < j {
                    assert(self.ranks_below(a[i], a[j]));
                } else {
                    assert(self.ranks_below(a[j], a[i]));
                }
            }
            a.unique_seq_to_set();
            b.unique_seq_to_set();
            seq_to_set_is_finite(a);
            let smaller = a.to_set().remove(id);
            assert(a.to_set().contains(id));
            assert(b.to_set().subset_of(smaller)) by {
                assert forall|x: u128| b.to_set().contains(x) implies smaller.contains(x) by {
                    let j = choose|j: int| 0 <= j < b.len() && b[j] == x;
                    assert(a.contains(b[j]));
                }
            }
            lemma_len_subset(b.to_set(), smaller);
        }
    }

    /// The ranking of a registry is unique: the files that it holds and their
    /// order follow from the records alone.
    pub proof fn ranking_is_unique(self, a: Seq<u128>, b: Seq<u128>)
        requires
            self.is_ranking(a),
            self.is_ranking(b),
        ensures
            a == b,
    {
        assert forall|id: u128| a.contains(id) <==> b.contains(id) by {
            if a.contains(id) {
                self.ranking_holds_what_another_holds(a, b, id);
            }
            if b.contains(id) {
                self.ranking_holds_what_another_holds(b, a, id);
            }
        }
        self.ascending_same_members(a, b);
    }
}

/// The rank of an entry `(count, id)` is below that of another.
pub open spec fn entry_below(entry: (u64, u128), other: (u64, u128)) -> bool {
    below(entry.0 as nat, entry.1, other.0 as nat, other.1)
}

/// The entries are in ascending order of rank.
pub open spec fn ascending(kept: Seq<(u64, u128)>) -> bool {
    forall|i: int, j: int| 0 <= i < j < kept.len() ==> entry_below(kept[i], kept[j])
}

/// Whether the rank of an entry is below that of another.
fn is_below(entry: (u64, u128), other: (u64, u128)) -> (yes: bool)
    ensures
        yes == entry_below(entry, other),
{
    entry.0 < other.0 || (entry.0 == other.0 && entry.1 < other.1)
}

/// Offers one more entry to the entries kept so far: the entry takes its
/// place among them, and where that makes more than `TOP`, the lowest leaves.
fn offer(kept: &mut Vec<(u64, u128)>, entry: (u64, u128))
    requires
        ascending(old(kept)@),
        old(kept)@.len() <= TOP,
        !old(kept)@.contains(entry),
    ensures
        ascending(final(kept)@),
        final(kept)@.len() == if old(kept)@.len() < TOP {
            old(kept)@.len() + 1
        } else {
            TOP as nat
        },
        forall|k: int|
            0 <= k < final(kept)@.len() ==> (#[trigger] final(kept)@[k]) == entry
                || old(kept)@.contains(final(kept)@[k]),
        forall|e: (u64, u128)|
            e == entry || old(kept)@.contains(e) ==> #[trigger] final(kept)@.contains(e)
                || (final(kept)@.len() == TOP && entry_below(e, final(kept)@[0])),
        old(kept)@.len() == TOP ==> final(kept)@[0] == old(kept)@[0] || entry_below(
            old(kept)@[0],
            final(kept)@[0],
        ),
{
    let ghost before = kept@;
    let mut at: usize = 0;
    while at < kept.len() && is_below(kept[at], entry)
        invariant
            kept@ == before,
            at <= kept@.len(),
            forall|k: int| 0 <= k < at ==> entry_below(#[trigger] kept@[k], entry),
        decreases kept@.len() - at,
    {
        at = at + 1;
    }
    kept.insert(at, entry);
    let ghost grown = kept@;
    proof {
        assert(grown == before.insert(at as int, entry));
        assert forall|k: int| at < k < grown.len() implies entry_below(entry, #[trigger] grown[k]) by {
            assert(grown[k] == before[k - 1]);
            assert(before.contains(before[at as int]));
            if at as int != k - 1 {
                assert(entry_below(before[at as int], before[k - 1]));
            }
        }
        assert forall|i: int, j: int| 0 <= i < j < grown.len() implies entry_below(
            grown[i],
            grown[j],
        ) by {
            if i < at && j > at {
                assert(grown[i] == before[i]);
                assert(grown[j] == before[j - 1]);
            } else if i < at && j < at {
                assert(grown[i] == before[i] && grown[j] == before[j]);
            } else if i > at {
                assert(grown[i] == before[i - 1] && grown[j] == before[j - 1]);
            }
        }
        assert forall|e: (u64, u128)| e == entry || before.contains(e) implies grown.contains(
            e,
        ) by {
            if e == entry {
                assert(grown[at as int] == e);
            } else {
                let k = choose|k: int| 0 <= k < before.len() && before[k] == e;
                if k < at {
                    assert(grown[k] == e);
                } else {
                    assert(grown[k + 1] == e);
                }
            }
        }
        assert forall|k: int| 0 <= k < grown.len() implies (#[trigger] grown[k]) == entry
            || before.contains(grown[k]) by {
            if k < at {
                assert(grown[k] == before[k]);
            } else if k > at {
                assert(grown[k] == before[k - 1]);
            }
        }
    }
    if kept.len() > TOP {
        kept.remove(0);
        proof {
            let out = kept@;
            assert(out == grown.remove(0));
            assert forall|k: int| 0 <= k < out.len() implies out[k] == grown[k + 1] by {}
            assert forall|e: (u64, u128)| e == entry || before.contains(e) implies #[trigger] out.contains(
                e,
            ) || (out.len() == TOP && entry_below(e, out[0])) by {
                assert(grown.contains(e));
                let k = choose|k: int| 0 <= k < grown.len() && grown[k] == e;
                if k == 0 {
                    assert(entry_below(grown[0], grown[1]));
                } else {
                    assert(out[k - 1] == e);
                }
            }
            assert forall|k: int| 0 <= k < out.len() implies (#[trigger] out[k]) == entry
                || before.contains(out[k]) by {
                assert(out[k] == grown[k + 1]);
            }
            assert(out[0] == grown[1]);
            if at == 0 {
                assert(grown[1] == before[0]);
            } else {
                assert(grown[0] == before[0]);
                assert(entry_below(grown[0], grown[1]));
            }
        }
    } else {
        proof {
            if before.len() == TOP {
                assert(false);
            }
        }
    }
}

/// The rank entry of an item of the walk over the records.
pub open spec fn key_of(item: (&u128, &File)) -> (u64, u128) {
    (item.1.download_cnt, *item.0)
}

/// One of the first `n` items of the walk has the rank entry `entry`.
pub open spec fn seen(all: Seq<(&u128, &File)>, n: int, entry: (u64, u128)) -> bool {
    exists|j: int| 0 <= j < n && 0 <= j < all.len() && key_of(#[trigger] all[j]) == entry
}

/// The `TOP` most downloaded files, from the lowest of them to the highest.
///
/// Each file is offered to a bounded selection that keeps the highest `TOP`
/// files seen so far; what is left at the end is listed in ascending order
/// of rank.
pub fn top_10_downloads(resource: &Resource) -> (listing: Vec<UploadedFile>)
    requires
        resource.wf(),
    ensures
        listing@.len() <= TOP,
        exists|ids: Seq<u128>| resource@.is_top_listing(ids, listing@),
{
    let mut kept: Vec<(u64, u128)> = Vec::new();
    for (id, file) in walk: resource.files.iter()
        invariant
            walk.seq() == spec_hash_map_iter(&resource.files).remaining(),
            walk.seq().no_duplicates(),
            ascending(kept@),
            kept@.len() <= TOP,
            forall|k: int|
                0 <= k < kept@.len() ==> seen(walk.seq(), walk.index(), #[trigger] kept@[k]),
            forall|j: int|
                0 <= j < walk.index() ==> kept@.contains(key_of(#[trigger] walk.seq()[j])) || (
                kept@.len() == TOP && entry_below(key_of(walk.seq()[j]), kept@[0])),
    {
        let ghost all = walk.seq();
        let ghost n = walk.index();
        let ghost before = kept@;
        let entry = (file.download_cnt, *id);
        proof {
            assert(entry == key_of(all[n]));
            if before.contains(entry) {
                let k = choose|k: int| 0 <= k < before.len() && before[k] == entry;
                assert(seen(all, n, before[k]));
                let j = choose|j: int| 0 <= j < n && 0 <= j < all.len() && key_of(#[trigger] all[j]) == entry;
                assert(resource.files@.contains_key(*all[j].0) && resource.files@[*all[j].0]
                    == *all[j].1);
                assert(resource.files@.contains_key(*all[n].0) && resource.files@[*all[n].0]
                    == *all[n].1);
                assert(all[j] == all[n]);
            }
        }
        offer(&mut kept, entry);
        proof {
            let after = kept@;
            assert forall|k: int| 0 <= k < after.len() implies seen(all, n + 1, #[trigger] after[k]) by {
                if after[k] == entry {
                    assert(key_of(all[n]) == entry);
                } else {
                    assert(before.contains(after[k]));
                    let b = choose|b: int| 0 <= b < before.len() && before[b] == after[k];
                    assert(seen(all, n, before[b]));
                    let j = choose|j: int| 0 <= j < n && 0 <= j < all.len() && key_of(#[trigger] all[j]) == before[b];
                    assert(key_of(all[j]) == after[k]);
                }
            }
            assert forall|j: int| 0 <= j < n + 1 implies after.contains(key_of(#[trigger] all[j]))
                || (after.len() == TOP && entry_below(key_of(all[j]), after[0])) by {
                let e = key_of(all[j]);
                if j < n && !before.contains(e) {
                    assert(before.len() == TOP && entry_below(e, before[0]));
                    assert(after[0] == before[0] || entry_below(before[0], after[0]));
                } else {
                    assert(e == entry || before.contains(e));
                    assert(after.contains(e) || (after.len() == TOP && entry_below(e, after[0])));
                }
            }
        }
    }
    let ghost all = spec_hash_map_iter(&resource.files).remaining();
    proof {
        resource.view_unfolds();
    }
    let mut listing: Vec<UploadedFile> = Vec::new();
    let ghost mut ids: Seq<u128> = Seq::empty();
    let mut k: usize = 0;
    while k < kept.len()
        invariant
            resource.wf(),
            all == spec_hash_map_iter(&resource.files).remaining(),
            k <= kept@.len(),
            forall|k: int| 0 <= k < kept@.len() ==> seen(all, all.len() as int, #[trigger] kept@[k]),
            listing@.len() == k,
            ids.len() == k,
            forall|i: int| 0 <= i < k ==> (#[trigger] ids[i]) == kept@[i].1,
            forall|i: int|
                0 <= i < k ==> resource@.files.contains_key(ids[i]) && lists(
                    ids[i],
                    resource@.files[ids[i]],
                    #[trigger] listing@[i],
                ),
        decreases kept@.len() - k,
    {
        let id = kept[k].1;
        proof {
            resource.view_unfolds();
            assert(seen(all, all.len() as int, kept@[k as int]));
            let j = choose|j: int|
                0 <= j < all.len() && 0 <= j < all.len() && key_of(#[trigger] all[j]) == kept@[k as int];
            assert(resource.files@.contains_key(*all[j].0) && resource.files@[*all[j].0]
                == *all[j].1);
        }
        if let Some(file) = resource.files.get(&id) {
            listing.push(entry_of(id, file));
            proof {
                ids = ids.push(id);
            }
        }
        k = k + 1;
    }
    proof {
        let reg = resource@;
        assert forall|i: int| 0 <= i < kept@.len() implies reg.files.contains_key(kept@[i].1)
            && reg.files[kept@[i].1].download_cnt == (#[trigger] kept@[i]).0 by {
            assert(seen(all, all.len() as int, kept@[i]));
            let j = choose|j: int|
                0 <= j < all.len() && 0 <= j < all.len() && key_of(#[trigger] all[j]) == kept@[i];
            assert(resource.files@.contains_key(*all[j].0) && resource.files@[*all[j].0]
                == *all[j].1);
        }
        assert forall|i: int, j: int| 0 <= i < j < ids.len() implies reg.ranks_below(
            ids[i],
            ids[j],
        ) by {
            assert(entry_below(kept@[i], kept@[j]));
        }
        assert forall|id: u128| #[trigger] reg.files.contains_key(id) implies ids.contains(id) || (
        ids.len() == TOP && reg.ranks_below(id, ids[0])) by {
            assert(resource.files@.contains_key(id));
            assert(all.contains((&id, &resource.files@[id])));
            let j = choose|j: int| 0 <= j < all.len() && all[j] == (&id, &resource.files@[id]);
            let e = key_of(all[j]);
            if kept@.contains(e) {
                let i = choose|i: int| 0 <= i < kept@.len() && kept@[i] == e;
                assert(ids[i] == id);
            } else {
                assert(entry_below(e, kept@[0]));
                assert(ids[0] == kept@[0].1);
            }
        }
        assert(reg.is_ranking(ids));
        assert(reg.is_top_listing(ids, listing@));
    }
    listing
}

} // verus!
