//! Tombstone-honouring merge of manifest records.
//!
//! Records are folded left to right into a keyed mapping: the first record
//! of a key is kept, and a later record of the same key replaces it only
//! when that later record is a tombstone.  A tombstone, once seen, wins for
//! the rest of the merge, and tombstoned keys are dropped from the output.

use crate::record::FileKey;
use crate::record::FileKeyV;
use vstd::prelude::*;

verus! {

/// The views of a sequence of records.
pub open spec fn views(v: Seq<FileKey>) -> Seq<FileKeyV> {
    v.map_values(|fk: FileKey| fk@)
}

/// Some record of `m` carries key `k`.
pub open spec fn has_key(m: Seq<FileKeyV>, k: Seq<u8>) -> bool {
    exists|i: int| 0 <= i < m.len() && m[i].key == k
}

/// Some tombstone of `m` carries key `k`.
pub open spec fn has_tombstone(m: Seq<FileKeyV>, k: Seq<u8>) -> bool {
    exists|i: int| 0 <= i < m.len() && m[i].key == k && m[i].deleted
}

/// Some non-tombstoned record of `m` carries key `k`.
pub open spec fn has_live(m: Seq<FileKeyV>, k: Seq<u8>) -> bool {
    exists|i: int| 0 <= i < m.len() && m[i].key == k && !m[i].deleted
}

/// Keys are pairwise distinct.
pub open spec fn keys_unique(m: Seq<FileKeyV>) -> bool {
    forall|j1: int, j2: int| 0 <= j1 < j2 < m.len() ==> m[j1].key != m[j2].key
}

/// One step of the merge fold.
pub open spec fn spec_merge_step(acc: Seq<FileKeyV>, r: FileKeyV) -> Seq<FileKeyV> {
    if has_key(acc, r.key) {
        if r.deleted {
            let j = choose|j: int| 0 <= j < acc.len() && acc[j].key == r.key;
            acc.update(j, r)
        } else {
            acc
        }
    } else {
        acc.push(r)
    }
}

/// The keyed mapping the merge builds, in first-occurrence order.
pub open spec fn spec_merge(recs: Seq<FileKeyV>) -> Seq<FileKeyV>
    decreases recs.len(),
{
    if recs.len() == 0 {
        Seq::empty()
    } else {
        spec_merge_step(spec_merge(recs.drop_last()), recs.last())
    }
}

/// The records a merged manifest keeps: everything not tombstoned, in order.
pub open spec fn spec_survivors(m: Seq<FileKeyV>) -> Seq<FileKeyV>
    decreases m.len(),
{
    if m.len() == 0 {
        Seq::empty()
    } else if m.last().deleted {
        spec_survivors(m.drop_last())
    } else {
        spec_survivors(m.drop_last()).push(m.last())
    }
}

/// The merge result never repeats a key.
pub proof fn lemma_merge_unique(recs: Seq<FileKeyV>)
    ensures
        keys_unique(spec_merge(recs)),
    decreases recs.len(),
{
    if recs.len() > 0 {
        let pre = recs.drop_last();
        let r = recs.last();
        let m = spec_merge(pre);
        lemma_merge_unique(pre);
        if has_key(m, r.key) {
            if r.deleted {
                let j = choose|j: int| 0 <= j < m.len() && m[j].key == r.key;
                assert(forall|j2: int|
                    0 <= j2 < m.len() ==> m.update(j, r)[j2].key == m[j2].key);
            }
        }
    }
}

/// Every record of the merge result is one of the input records.
pub proof fn lemma_merge_member(recs: Seq<FileKeyV>, j: int)
    requires
        0 <= j < spec_merge(recs).len(),
    ensures
        exists|i: int| 0 <= i < recs.len() && spec_merge(recs)[j] == recs[i],
    decreases recs.len(),
{
    if recs.len() > 0 {
        let pre = recs.drop_last();
        let r = recs.last();
        let m = spec_merge(pre);
        let m2 = spec_merge(recs);
        if has_key(m, r.key) && r.deleted {
            let j0 = choose|j0: int| 0 <= j0 < m.len() && m[j0].key == r.key;
            if j == j0 {
                assert(m2[j] == recs[recs.len() - 1]);
            } else {
                lemma_merge_member(pre, j);
                let i2 = choose|i2: int| 0 <= i2 < pre.len() && m[j] == pre[i2];
                assert(m2[j] == m[j]);
                assert(recs[i2] == pre[i2]);
            }
        } else if has_key(m, r.key) {
            lemma_merge_member(pre, j);
            let i2 = choose|i2: int| 0 <= i2 < pre.len() && m[j] == pre[i2];
            assert(recs[i2] == pre[i2]);
        } else {
            if j == m.len() {
                assert(m2[j] == recs[recs.len() - 1]);
            } else {
                lemma_merge_member(pre, j);
                let i2 = choose|i2: int| 0 <= i2 < pre.len() && m[j] == pre[i2];
                assert(recs[i2] == pre[i2]);
            }
        }
    }
}

/// The merge result carries key `k` exactly when some input does, and a
/// tombstone for `k` exactly when some input tombstone does.
pub proof fn lemma_merge_key(recs: Seq<FileKeyV>, k: Seq<u8>)
    ensures
        has_key(spec_merge(recs), k) <==> has_key(recs, k),
        has_tombstone(spec_merge(recs), k) <==> has_tombstone(recs, k),
    decreases recs.len(),
{
    if recs.len() > 0 {
        let pre = recs.drop_last();
        let r = recs.last();
        let m = spec_merge(pre);
        let m2 = spec_merge(recs);
        lemma_merge_key(pre, k);
        lemma_merge_key(pre, r.key);
        assert(r == recs[recs.len() - 1]);
        assert forall|i: int| 0 <= i < pre.len() implies pre[i] == recs[i] by {}
        if has_key(m, r.key) && r.deleted {
            let j0 = choose|j0: int| 0 <= j0 < m.len() && m[j0].key == r.key;
            assert(m2 == m.update(j0, r));
            if k == r.key {
                assert(m2[j0].key == k && m2[j0].deleted);
                assert(recs[recs.len() - 1].key == k && recs[recs.len() - 1].deleted);
            } else {
                if has_key(m2, k) {
                    let j = choose|j: int| 0 <= j < m2.len() && m2[j].key == k;
                    assert(m[j].key == k);
                }
                if has_key(m, k) {
                    let j = choose|j: int| 0 <= j < m.len() && m[j].key == k;
                    assert(m2[j].key == k);
                }
                if has_tombstone(m2, k) {
                    let j = choose|j: int| 0 <= j < m2.len() && m2[j].key == k && m2[j].deleted;
                    assert(m[j].key == k && m[j].deleted);
                }
                if has_tombstone(m, k) {
                    let j = choose|j: int| 0 <= j < m.len() && m[j].key == k && m[j].deleted;
                    assert(m2[j].key == k && m2[j].deleted);
                }
                if has_key(recs, k) {
                    let i = choose|i: int| 0 <= i < recs.len() && recs[i].key == k;
                    assert(pre[i].key == k);
                }
                if has_tombstone(recs, k) {
                    let i = choose|i: int|
                        0 <= i < recs.len() && recs[i].key == k && recs[i].deleted;
                    assert(pre[i].key == k && pre[i].deleted);
                }
                if has_key(pre, k) {
                    let i = choose|i: int| 0 <= i < pre.len() && pre[i].key == k;
                    assert(recs[i].key == k);
                }
                if has_tombstone(pre, k) {
                    let i = choose|i: int| 0 <= i < pre.len() && pre[i].key == k && pre[i].deleted;
                    assert(recs[i].key == k && recs[i].deleted);
                }
            }
        } else {
            if has_key(m, r.key) {
                assert(m2 == m);
            } else {
                assert(m2 == m.push(r));
            }
            if has_key(recs, k) {
                let i = choose|i: int| 0 <= i < recs.len() && recs[i].key == k;
                if i < pre.len() {
                    assert(pre[i].key == k);
                    let j = choose|j: int| 0 <= j < m.len() && m[j].key == k;
                    assert(m2[j].key == k);
                } else {
                    assert(recs[i] == r);
                    if has_key(m, r.key) {
                        let j = choose|j: int| 0 <= j < m.len() && m[j].key == r.key;
                        assert(m2[j].key == k);
                    } else {
                        assert(m2[m.len() as int].key == k);
                    }
                }
            }
            if has_key(m2, k) {
                let j = choose|j: int| 0 <= j < m2.len() && m2[j].key == k;
                if j < m.len() {
                    assert(m[j].key == k);
                } else {
                    assert(m2[j] == r);
                }
            }
            if has_key(m2, k) {
                if has_key(pre, k) {
                    let i = choose|i: int| 0 <= i < pre.len() && pre[i].key == k;
                    assert(recs[i].key == k);
                }
            }
            if has_tombstone(recs, k) {
                let i = choose|i: int| 0 <= i < recs.len() && recs[i].key == k && recs[i].deleted;
                if i < pre.len() {
                    assert(pre[i].key == k && pre[i].deleted);
                    let j = choose|j: int| 0 <= j < m.len() && m[j].key == k && m[j].deleted;
                    assert(m2[j].key == k && m2[j].deleted);
                } else {
                    assert(recs[i] == r);
                    assert(!has_key(m, r.key));
                    assert(m2[m.len() as int] == r);
                }
            }
            if has_tombstone(m2, k) {
                let j = choose|j: int| 0 <= j < m2.len() && m2[j].key == k && m2[j].deleted;
                if j < m.len() {
                    assert(m[j].key == k && m[j].deleted);
                    let i = choose|i: int| 0 <= i < pre.len() && pre[i].key == k && pre[i].deleted;
                    assert(recs[i].key == k && recs[i].deleted);
                } else {
                    assert(m2[j] == r);
                    assert(recs[recs.len() - 1].key == k && recs[recs.len() - 1].deleted);
                }
            }
        }
    }
}

/// Every survivor is untombstoned and comes from the merged mapping.
pub proof fn lemma_survivors_clean(m: Seq<FileKeyV>)
    ensures
        forall|j: int|
            0 <= j < spec_survivors(m).len() ==> !(#[trigger] spec_survivors(m)[j]).deleted,
        forall|j: int|
            0 <= j < spec_survivors(m).len() ==> exists|i: int|
                0 <= i < m.len() && #[trigger] spec_survivors(m)[j] == m[i],
    decreases m.len(),
{
    if m.len() > 0 {
        let pre = m.drop_last();
        lemma_survivors_clean(pre);
        assert forall|j: int|
            0 <= j < spec_survivors(pre).len() implies exists|i: int|
            0 <= i < m.len() && #[trigger] spec_survivors(pre)[j] == m[i] by {
            let i = choose|i: int| 0 <= i < pre.len() && spec_survivors(pre)[j] == pre[i];
            assert(m[i] == pre[i]);
        }
        if !m.last().deleted {
            assert(spec_survivors(m).last() == m[m.len() - 1]);
        }
    }
}

/// The surviving records carry key `k` exactly when the merged mapping holds
/// a non-tombstoned record for `k`.
pub proof fn lemma_survivors_key(m: Seq<FileKeyV>, k: Seq<u8>)
    ensures
        has_key(spec_survivors(m), k) <==> has_live(m, k),
    decreases m.len(),
{
    if m.len() > 0 {
        let pre = m.drop_last();
        let s = spec_survivors(m);
        lemma_survivors_key(pre, k);
        lemma_survivors_clean(m);
        if has_live(m, k) {
            let i = choose|i: int| 0 <= i < m.len() && m[i].key == k && !m[i].deleted;
            if i < pre.len() {
                assert(pre[i].key == k && !pre[i].deleted);
                let j = choose|j: int| 0 <= j < spec_survivors(pre).len()
                    && spec_survivors(pre)[j].key == k;
                if m.last().deleted {
                } else {
                    assert(s[j] == spec_survivors(pre)[j]);
                }
                assert(has_key(s, k));
            } else {
                assert(m[i] == m.last());
                assert(s.last().key == k);
            }
        }
        if has_key(s, k) {
            let j = choose|j: int| 0 <= j < s.len() && s[j].key == k;
            if m.last().deleted {
                assert(has_live(pre, k));
                let i = choose|i: int| 0 <= i < pre.len() && pre[i].key == k && !pre[i].deleted;
                assert(m[i].key == k && !m[i].deleted);
            } else {
                if j < s.len() - 1 {
                    assert(spec_survivors(pre)[j].key == k);
                    let i = choose|i: int|
                        0 <= i < pre.len() && pre[i].key == k && !pre[i].deleted;
                    assert(m[i].key == k && !m[i].deleted);
                } else {
                    assert(s[j] == m.last());
                    assert(m[m.len() - 1].key == k && !m[m.len() - 1].deleted);
                }
            }
        }
    }
}

/// Distinct keys stay distinct after dropping tombstones.
pub proof fn lemma_survivors_unique(m: Seq<FileKeyV>)
    requires
        keys_unique(m),
    ensures
        keys_unique(spec_survivors(m)),
    decreases m.len(),
{
    if m.len() > 0 {
        let pre = m.drop_last();
        assert forall|j1: int, j2: int| 0 <= j1 < j2 < pre.len() implies pre[j1].key
            != pre[j2].key by {
            assert(m[j1] == pre[j1] && m[j2] == pre[j2]);
        }
        lemma_survivors_unique(pre);
        lemma_survivors_clean(pre);
        if !m.last().deleted {
            let s = spec_survivors(m);
            assert forall|j1: int, j2: int| 0 <= j1 < j2 < s.len() implies s[j1].key
                != s[j2].key by {
                if j2 == s.len() - 1 {
                    let i = choose|i: int|
                        0 <= i < pre.len() && spec_survivors(pre)[j1] == pre[i];
                    assert(s[j1] == pre[i]);
                    assert(m[i] == pre[i]);
                    assert(m[i].key != m[m.len() - 1].key);
                    assert(s[j2] == m.last());
                }
            }
        }
    }
}

/// Tombstone absorption: the merged output keeps a record for key `k` iff
/// some input record carries `k` without a tombstone and no input record
/// carries a tombstone for `k`.
pub proof fn lemma_tombstone_absorption(recs: Seq<FileKeyV>, k: Seq<u8>)
    ensures
        has_key(spec_survivors(spec_merge(recs)), k) <==> (has_live(recs, k) && !has_tombstone(
            recs,
            k,
        )),
{
    let m = spec_merge(recs);
    lemma_merge_unique(recs);
    lemma_merge_key(recs, k);
    lemma_survivors_key(m, k);
    if has_live(m, k) {
        let i = choose|i: int| 0 <= i < m.len() && m[i].key == k && !m[i].deleted;
        if has_tombstone(m, k) {
            let j = choose|j: int| 0 <= j < m.len() && m[j].key == k && m[j].deleted;
            assert(i != j);
            assert(false);
        }
        assert(has_key(m, k));
    }
    if has_key(m, k) && !has_tombstone(m, k) {
        let i = choose|i: int| 0 <= i < m.len() && m[i].key == k;
        assert(m[i].key == k && !m[i].deleted);
    }
    if has_live(recs, k) && !has_tombstone(recs, k) {
        let i = choose|i: int| 0 <= i < recs.len() && recs[i].key == k && !recs[i].deleted;
        assert(has_key(recs, k));
    }
}

/// Merging records whose keys are unique and which hold no tombstones
/// reproduces them unchanged.
pub proof fn lemma_merge_of_clean(recs: Seq<FileKeyV>)
    requires
        keys_unique(recs),
        forall|i: int| 0 <= i < recs.len() ==> !(#[trigger] recs[i]).deleted,
    ensures
        spec_merge(recs) == recs,
    decreases recs.len(),
{
    if recs.len() > 0 {
        let pre = recs.drop_last();
        let r = recs.last();
        assert forall|i: int| 0 <= i < pre.len() implies pre[i] == recs[i] by {}
        lemma_merge_of_clean(pre);
        if has_key(pre, r.key) {
            let j = choose|j: int| 0 <= j < pre.len() && pre[j].key == r.key;
            assert(recs[j].key == recs[recs.len() - 1].key);
            assert(false);
        }
        assert(spec_merge(recs) =~= recs);
    }
}

/// Dropping tombstones from tombstone-free records changes nothing.
pub proof fn lemma_survivors_of_clean(m: Seq<FileKeyV>)
    requires
        forall|i: int| 0 <= i < m.len() ==> !(#[trigger] m[i]).deleted,
    ensures
        spec_survivors(m) == m,
    decreases m.len(),
{
    if m.len() > 0 {
        let pre = m.drop_last();
        assert forall|i: int| 0 <= i < pre.len() implies !(#[trigger] pre[i]).deleted by {
            assert(pre[i] == m[i]);
        }
        lemma_survivors_of_clean(pre);
        assert(spec_survivors(m) =~= m);
    }
}

/// Merging a published manifest again is the identity: the survivors of a
/// merge, fed back in as the only input, merge to themselves.
pub proof fn lemma_merge_idempotent(recs: Seq<FileKeyV>)
    ensures
        spec_merge(spec_survivors(spec_merge(recs))) == spec_survivors(spec_merge(recs)),
{
    let m = spec_merge(recs);
    lemma_merge_unique(recs);
    lemma_survivors_unique(m);
    lemma_survivors_clean(m);
    lemma_merge_of_clean(spec_survivors(m));
}

fn bytes_eq(a: &Vec<u8>, b: &Vec<u8>) -> (r: bool)
    ensures
        r == (a@ == b@),
{
    let r = *a == *b;
    proof {
        if r {
            assert(a@ =~= b@);
        } else {
            if a@ == b@ {
                assert(forall|i: int| 0 <= i < a@.len() ==> a@[i] == b@[i]);
                assert(false);
            }
        }
    }
    r
}

fn find_key(acc: &Vec<FileKey>, k: &Vec<u8>) -> (r: Option<usize>)
    ensures
        match r {
            Some(j) => j < acc@.len() && acc@[j as int]@.key == k@,
            None => forall|j: int| 0 <= j < acc@.len() ==> (#[trigger] acc@[j])@.key != k@,
        },
{
    let mut j: usize = 0;
    while j < acc.len()
        invariant
            0 <= j <= acc@.len(),
            forall|i: int| 0 <= i < j ==> (#[trigger] acc@[i])@.key != k@,
        decreases acc@.len() - j,
    {
        if bytes_eq(&acc[j].key, k) {
            return Some(j);
        }
        j += 1;
    }
    None
}

/// Fold records into the keyed mapping: first occurrence wins unless a
/// later record of the same key is a tombstone.
pub fn merge_records(recs: Vec<FileKey>) -> (r: Vec<FileKey>)
    ensures
        views(r@) == spec_merge(views(recs@)),
{
    let ghost all = views(recs@);
    let mut rest = recs;
    let mut acc: Vec<FileKey> = Vec::new();
    let ghost mut n: int = 0;
    proof {
        assert forall|i: int| 0 <= i < rest@.len() implies rest@[i]@ == all[n + i] by {
            assert(views(rest@)[i] == rest@[i]@);
        }
    }
    while rest.len() > 0
        invariant
            0 <= n <= all.len(),
            rest@.len() == all.len() - n,
            forall|i: int| 0 <= i < rest@.len() ==> (#[trigger] rest@[i])@ == all[n + i],
            views(acc@) == spec_merge(all.take(n)),
        decreases rest@.len(),
    {
        let ghost prev = rest@;
        let fk = rest.remove(0);
        proof {
            assert(fk@ == all[n]);
            assert(rest@ == prev.remove(0));
            assert forall|i: int| 0 <= i < rest@.len() implies (#[trigger] rest@[i])@ == all[n + 1
                + i] by {
                assert(rest@[i] == prev[i + 1]);
            }
            assert(all.take(n + 1).drop_last() =~= all.take(n));
            assert(all.take(n + 1).last() == all[n]);
            lemma_merge_unique(all.take(n));
        }
        let found = find_key(&acc, &fk.key);
        match found {
            Some(j) => {
                proof {
                    let m = spec_merge(all.take(n));
                    assert(m[j as int].key == fk@.key);
                    assert(has_key(m, fk@.key));
                }
                if fk.deleted {
                    let ghost m = spec_merge(all.take(n));
                    let ghost j0 = choose|j0: int| 0 <= j0 < m.len() && m[j0].key == fk@.key;
                    proof {
                        if j0 != j as int {
                            assert(m[j0].key == m[j as int].key);
                            assert(false);
                        }
                    }
                    acc.set(j, fk);
                    proof {
                        assert(views(acc@) =~= m.update(j as int, fk@));
                        assert(views(acc@) == spec_merge(all.take(n + 1)));
                    }
                } else {
                    proof {
                        assert(views(acc@) == spec_merge(all.take(n + 1)));
                    }
                }
            },
            None => {
                proof {
                    let m = spec_merge(all.take(n));
                    if has_key(m, fk@.key) {
                        let j0 = choose|j0: int| 0 <= j0 < m.len() && m[j0].key == fk@.key;
                        assert(acc@[j0]@.key == fk@.key);
                        assert(false);
                    }
                }
                acc.push(fk);
                proof {
                    assert(views(acc@) =~= spec_merge(all.take(n)).push(all[n]));
                }
            },
        }
        proof {
            n = n + 1;
        }
    }
    proof {
        assert(all.take(n) =~= all);
    }
    acc
}

/// Keep every record that is not a tombstone, in order.
pub fn drop_tombstones(m: Vec<FileKey>) -> (r: Vec<FileKey>)
    ensures
        views(r@) == spec_survivors(views(m@)),
{
    let ghost all = views(m@);
    let mut rest = m;
    let mut acc: Vec<FileKey> = Vec::new();
    let ghost mut n: int = 0;
    proof {
        assert forall|i: int| 0 <= i < rest@.len() implies rest@[i]@ == all[n + i] by {
            assert(views(rest@)[i] == rest@[i]@);
        }
    }
    while rest.len() > 0
        invariant
            0 <= n <= all.len(),
            rest@.len() == all.len() - n,
            forall|i: int| 0 <= i < rest@.len() ==> (#[trigger] rest@[i])@ == all[n + i],
            views(acc@) == spec_survivors(all.take(n)),
        decreases rest@.len(),
    {
        let ghost prev = rest@;
        let fk = rest.remove(0);
        proof {
            assert(fk@ == all[n]);
            assert(rest@ == prev.remove(0));
            assert forall|i: int| 0 <= i < rest@.len() implies (#[trigger] rest@[i])@ == all[n + 1
                + i] by {
                assert(rest@[i] == prev[i + 1]);
            }
            assert(all.take(n + 1).drop_last() =~= all.take(n));
            assert(all.take(n + 1).last() == all[n]);
        }
        if !fk.deleted {
            acc.push(fk);
            proof {
                assert(views(acc@) =~= spec_survivors(all.take(n)).push(all[n]));
            }
        }
        proof {
            n = n + 1;
        }
    }
    proof {
        assert(all.take(n) =~= all);
    }
    acc
}

} // verus!
