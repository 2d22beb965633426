//! The grouped mapping: an ordered association from date keys to the
//! records of each group, kept sorted by key ascending, with keys unique
//! and every group non-empty.

use crate::date::Date;
use vstd::prelude::*;

verus! {

/// The spec-level contents of a grouped mapping.
pub open spec fn groups_view<R: DeepView>(g: Seq<(Date, Vec<R>)>) -> Seq<(Date, Seq<R::V>)> {
    g.map_values(|p: (Date, Vec<R>)| (p.0, p.1.deep_view()))
}

/// Whether the group keys are strictly ascending (so also unique).
pub open spec fn sorted_groups<RV>(gs: Seq<(Date, Seq<RV>)>) -> bool {
    forall|i: int, j: int|
        0 <= i < j < gs.len() ==> (#[trigger] gs[i]).0.key() < (#[trigger] gs[j]).0.key()
}

/// Whether every group key is a valid date.
pub open spec fn group_keys_wf<RV>(gs: Seq<(Date, Seq<RV>)>) -> bool {
    forall|i: int| 0 <= i < gs.len() ==> (#[trigger] gs[i]).0.wf()
}

/// Whether every group holds at least one record.
pub open spec fn groups_nonempty<RV>(gs: Seq<(Date, Seq<RV>)>) -> bool {
    forall|i: int| 0 <= i < gs.len() ==> (#[trigger] gs[i]).1.len() > 0
}

/// The total number of records across all groups.
pub open spec fn groups_count<RV>(gs: Seq<(Date, Seq<RV>)>) -> int
    decreases gs.len(),
{
    if gs.len() == 0 {
        0
    } else {
        gs[0].1.len() + groups_count(gs.drop_first())
    }
}

/// The record count is never negative.
pub proof fn lemma_groups_count_nonneg<RV>(gs: Seq<(Date, Seq<RV>)>)
    ensures
        groups_count(gs) >= 0,
    decreases gs.len(),
{
    if gs.len() > 0 {
        lemma_groups_count_nonneg(gs.drop_first());
    }
}

/// The record count adds over concatenation.
pub proof fn lemma_groups_count_concat<RV>(a: Seq<(Date, Seq<RV>)>, b: Seq<(Date, Seq<RV>)>)
    ensures
        groups_count(a + b) == groups_count(a) + groups_count(b),
    decreases a.len(),
{
    if a.len() == 0 {
        assert(a + b =~= b);
    } else {
        assert((a + b).drop_first() =~= a.drop_first() + b);
        assert((a + b)[0] == a[0]);
        lemma_groups_count_concat(a.drop_first(), b);
    }
}

/// The record count of a prefix extends by the next group's size.
pub proof fn lemma_groups_count_take<RV>(gs: Seq<(Date, Seq<RV>)>, i: int)
    requires
        0 <= i < gs.len(),
    ensures
        groups_count(gs.take(i + 1)) == groups_count(gs.take(i)) + gs[i].1.len(),
        groups_count(gs.take(i + 1)) <= groups_count(gs),
{
    assert(gs.take(i + 1) =~= gs.take(i) + seq![gs[i]]);
    lemma_groups_count_concat(gs.take(i), seq![gs[i]]);
    assert(seq![gs[i]].drop_first() =~= Seq::<(Date, Seq<RV>)>::empty());
    assert(groups_count(Seq::<(Date, Seq<RV>)>::empty()) == 0);
    assert(groups_count(seq![gs[i]]) == gs[i].1.len());
    assert(gs =~= gs.take(i + 1) + gs.skip(i + 1));
    lemma_groups_count_concat(gs.take(i + 1), gs.skip(i + 1));
    lemma_groups_count_nonneg(gs.skip(i + 1));
}

/// Whether some group of `gs` holds the record `r`.
pub open spec fn in_groups<RV>(gs: Seq<(Date, Seq<RV>)>, r: RV) -> bool {
    exists|gi: int| 0 <= gi < gs.len() && #[trigger] gs[gi].1.contains(r)
}

/// What inserting `rec` under `key` yields: the record is appended to the
/// group with that key, or a fresh singleton group is placed at the sorted
/// position.
pub open spec fn spec_insert<RV>(gs: Seq<(Date, Seq<RV>)>, key: Date, rec: RV) -> Seq<
    (Date, Seq<RV>),
>
    decreases gs.len(),
{
    if gs.len() == 0 {
        seq![(key, seq![rec])]
    } else if key.key() < gs[0].0.key() {
        seq![(key, seq![rec])] + gs
    } else if key == gs[0].0 {
        seq![(gs[0].0, gs[0].1.push(rec))] + gs.drop_first()
    } else {
        seq![gs[0]] + spec_insert(gs.drop_first(), key, rec)
    }
}

/// Two valid dates with the same chronological key are the same date.
pub proof fn lemma_key_injective(a: Date, b: Date)
    requires
        a.wf(),
        b.wf(),
        a.key() == b.key(),
    ensures
        a == b,
{
}

/// Inserting skips past any scanned prefix of strictly smaller keys.
proof fn lemma_spec_insert_at<RV>(gs: Seq<(Date, Seq<RV>)>, key: Date, rec: RV, i: int)
    requires
        0 <= i <= gs.len(),
        forall|j: int| 0 <= j < i ==> (#[trigger] gs[j]).0.key() < key.key(),
    ensures
        spec_insert(gs, key, rec) == gs.take(i) + spec_insert(gs.skip(i), key, rec),
    decreases i,
{
    if i == 0 {
        assert(gs.skip(0) =~= gs);
        assert(gs.take(0) + spec_insert(gs, key, rec) =~= spec_insert(gs, key, rec));
    } else {
        assert(gs[0].0.key() < key.key());
        assert(key != gs[0].0);
        assert(forall|j: int|
            0 <= j < i - 1 ==> (#[trigger] gs.drop_first()[j]) == gs[j + 1]
                && gs[j + 1].0.key() < key.key());
        lemma_spec_insert_at(gs.drop_first(), key, rec, i - 1);
        assert(gs.drop_first().take(i - 1) =~= gs.take(i).drop_first());
        assert(gs.drop_first().skip(i - 1) =~= gs.skip(i));
        assert(seq![gs[0]] + (gs.take(i).drop_first() + spec_insert(gs.skip(i), key, rec))
            =~= gs.take(i) + spec_insert(gs.skip(i), key, rec));
    }
}

/// Insertion keeps the mapping well formed: keys stay sorted, unique and
/// valid, groups stay non-empty, the record count grows by one, and the
/// records afterwards are exactly the records before plus the new one.
pub proof fn lemma_spec_insert_wf<RV>(gs: Seq<(Date, Seq<RV>)>, key: Date, rec: RV)
    requires
        sorted_groups(gs),
        group_keys_wf(gs),
        groups_nonempty(gs),
        key.wf(),
    ensures
        sorted_groups(spec_insert(gs, key, rec)),
        group_keys_wf(spec_insert(gs, key, rec)),
        groups_nonempty(spec_insert(gs, key, rec)),
        groups_count(spec_insert(gs, key, rec)) == groups_count(gs) + 1,
        forall|r: RV| #[trigger] in_groups(spec_insert(gs, key, rec), r) <==> (in_groups(gs, r)
            || r == rec),
    decreases gs.len(),
{
    let ins = spec_insert(gs, key, rec);
    if gs.len() == 0 {
        assert(ins[0].1[0] == rec);
        assert(ins[0].1.contains(rec));
        assert(in_groups(ins, rec));
        assert(ins.drop_first() =~= Seq::<(Date, Seq<RV>)>::empty());
        assert(groups_count(Seq::<(Date, Seq<RV>)>::empty()) == 0);
        assert(groups_count(ins) == 1);
        assert forall|r: RV| in_groups(ins, r) implies in_groups(gs, r) || r == rec by {
            let gi = choose|gi: int| 0 <= gi < ins.len() && #[trigger] ins[gi].1.contains(r);
            let k = choose|k: int| 0 <= k < ins[gi].1.len() && ins[gi].1[k] == r;
            assert(r == rec);
        };
        assert(forall|r: RV| in_groups(gs, r) == false);
    } else if key.key() < gs[0].0.key() {
        assert(ins =~= seq![(key, seq![rec])] + gs);
        assert(forall|j: int| 1 <= j < ins.len() ==> ins[j] == gs[j - 1]);
        assert(ins[0].1[0] == rec);
        assert(ins[0].1.contains(rec));
        assert(in_groups(ins, rec));
        assert(ins.drop_first() =~= gs);
        assert forall|r: RV| in_groups(gs, r) implies in_groups(ins, r) by {
            let gi = choose|gi: int| 0 <= gi < gs.len() && #[trigger] gs[gi].1.contains(r);
            assert(ins[gi + 1].1.contains(r));
        };
        assert forall|r: RV| in_groups(ins, r) implies in_groups(gs, r) || r == rec by {
            let gi = choose|gi: int| 0 <= gi < ins.len() && #[trigger] ins[gi].1.contains(r);
            if gi == 0 {
                let k = choose|k: int| 0 <= k < ins[0].1.len() && ins[0].1[k] == r;
                assert(r == rec);
            } else {
                assert(gs[gi - 1].1.contains(r));
            }
        };
    } else if key == gs[0].0 {
        assert(ins =~= seq![(gs[0].0, gs[0].1.push(rec))] + gs.drop_first());
        assert(forall|j: int| 1 <= j < ins.len() ==> ins[j] == gs[j]);
        assert(ins[0].1.contains(rec)) by {
            assert(ins[0].1.last() == rec);
        }
        assert(in_groups(ins, rec));
        assert forall|r: RV| in_groups(gs, r) implies in_groups(ins, r) by {
            let gi = choose|gi: int| 0 <= gi < gs.len() && #[trigger] gs[gi].1.contains(r);
            if gi == 0 {
                let k = choose|k: int| 0 <= k < gs[0].1.len() && gs[0].1[k] == r;
                assert(ins[0].1[k] == r);
                assert(ins[0].1.contains(r));
            } else {
                assert(ins[gi].1.contains(r));
            }
        };
        assert forall|r: RV| in_groups(ins, r) implies in_groups(gs, r) || r == rec by {
            let gi = choose|gi: int| 0 <= gi < ins.len() && #[trigger] ins[gi].1.contains(r);
            if gi == 0 {
                let k = choose|k: int| 0 <= k < ins[0].1.len() && ins[0].1[k] == r;
                if k < gs[0].1.len() {
                    assert(gs[0].1[k] == r);
                    assert(gs[0].1.contains(r));
                } else {
                    assert(r == rec);
                }
            } else {
                assert(gs[gi].1.contains(r));
            }
        };
        assert(groups_count(ins) == groups_count(gs) + 1) by {
            assert(ins.drop_first() =~= gs.drop_first());
        }
    } else {
        assert(gs[0].0.key() <= key.key());
        lemma_spec_insert_wf(gs.drop_first(), key, rec);
        let sub = spec_insert(gs.drop_first(), key, rec);
        assert(ins =~= seq![gs[0]] + sub);
        assert(forall|j: int| 1 <= j < ins.len() ==> ins[j] == sub[j - 1]);
        assert(sorted_groups(gs.drop_first())) by {
            assert(forall|i: int, j: int|
                0 <= i < j < gs.len() - 1 ==> ((#[trigger] gs.drop_first()[i]),
                (#[trigger] gs.drop_first()[j])) == (gs[i + 1], gs[j + 1]));
        };
        assert(group_keys_wf(gs.drop_first()));
        assert(groups_nonempty(gs.drop_first()));
        assert(sorted_groups(ins)) by {
            if key.key() == gs[0].0.key() {
                lemma_key_injective(key, gs[0].0);
            }
            assert(gs[0].0.key() < key.key());
            lemma_spec_insert_keys(gs.drop_first(), key, rec);
            assert(forall|i: int|
                0 <= i < gs.len() - 1 ==> (#[trigger] gs.drop_first()[i]) == gs[i + 1]);
            assert(forall|j: int| 0 <= j < sub.len() ==> gs[0].0.key() < (#[trigger] sub[j]).0.key())
                by {
                assert(forall|j: int|
                    0 <= j < sub.len() ==> (in_key_set(gs.drop_first(), (#[trigger] sub[j]).0)
                        || sub[j].0 == key));
                assert(forall|k: Date|
                    in_key_set(gs.drop_first(), k) ==> gs[0].0.key() < k.key()) by {
                    assert(forall|i: int|
                        0 <= i < gs.drop_first().len() ==> gs[0].0.key() < (
                        #[trigger] gs.drop_first()[i]).0.key());
                };
            };
        };
        assert(groups_count(ins) == groups_count(gs) + 1) by {
            assert(ins.drop_first() =~= sub);
        }
        assert(in_groups(ins, rec)) by {
            assert(in_groups(spec_insert(gs.drop_first(), key, rec), rec));
            assert(in_groups(sub, rec));
            let sj = choose|sj: int| 0 <= sj < sub.len() && #[trigger] sub[sj].1.contains(rec);
            assert(ins[sj + 1].1.contains(rec));
        }
        assert forall|r: RV| in_groups(gs, r) implies in_groups(ins, r) by {
            let gi = choose|gi: int| 0 <= gi < gs.len() && #[trigger] gs[gi].1.contains(r);
            if gi == 0 {
                assert(ins[0].1.contains(r));
            } else {
                assert(gs.drop_first()[gi - 1].1.contains(r));
                assert(in_groups(gs.drop_first(), r));
                assert(in_groups(spec_insert(gs.drop_first(), key, rec), r));
                let sj = choose|sj: int|
                    0 <= sj < sub.len() && #[trigger] sub[sj].1.contains(r);
                assert(ins[sj + 1].1.contains(r));
            }
        };
        assert forall|r: RV| in_groups(ins, r) implies in_groups(gs, r) || r == rec by {
            let gi = choose|gi: int| 0 <= gi < ins.len() && #[trigger] ins[gi].1.contains(r);
            if gi == 0 {
                assert(gs[0].1.contains(r));
            } else {
                assert(sub[gi - 1].1.contains(r));
                assert(in_groups(sub, r));
                assert(in_groups(spec_insert(gs.drop_first(), key, rec), r));
                if in_groups(gs.drop_first(), r) {
                    let dj = choose|dj: int|
                        0 <= dj < gs.drop_first().len() && #[trigger] gs.drop_first()[dj]
                            .1.contains(r);
                    assert(gs[dj + 1].1.contains(r));
                }
            }
        };
    }
}

/// Whether some group of `gs` carries the key `k` (or the key is new).
pub open spec fn in_key_set<RV>(gs: Seq<(Date, Seq<RV>)>, k: Date) -> bool {
    exists|i: int| 0 <= i < gs.len() && (#[trigger] gs[i]).0 == k
}

/// Every key after insertion was a key before, or is the inserted key.
pub proof fn lemma_spec_insert_keys<RV>(gs: Seq<(Date, Seq<RV>)>, key: Date, rec: RV)
    ensures
        forall|j: int|
            0 <= j < spec_insert(gs, key, rec).len() ==> (in_key_set(
                gs,
                (#[trigger] spec_insert(gs, key, rec)[j]).0,
            ) || spec_insert(gs, key, rec)[j].0 == key),
    decreases gs.len(),
{
    let ins = spec_insert(gs, key, rec);
    if gs.len() == 0 {
    } else if key.key() < gs[0].0.key() {
        assert(forall|j: int| 1 <= j < ins.len() ==> (#[trigger] ins[j]) == gs[j - 1]);
        assert(forall|j: int|
            1 <= j < ins.len() ==> in_key_set(gs, (#[trigger] ins[j]).0));
    } else if key == gs[0].0 {
        assert(forall|j: int| 1 <= j < ins.len() ==> (#[trigger] ins[j]) == gs[j]);
        assert(forall|j: int|
            1 <= j < ins.len() ==> in_key_set(gs, (#[trigger] ins[j]).0));
    } else {
        lemma_spec_insert_keys(gs.drop_first(), key, rec);
        let sub = spec_insert(gs.drop_first(), key, rec);
        assert(forall|j: int| 1 <= j < ins.len() ==> (#[trigger] ins[j]) == sub[j - 1]);
        assert(forall|j: int|
            0 <= j < sub.len() && in_key_set(gs.drop_first(), (#[trigger] sub[j]).0)
                ==> in_key_set(gs, sub[j].0)) by {
            assert(forall|i: int|
                0 <= i < gs.len() - 1 ==> (#[trigger] gs.drop_first()[i]) == gs[i + 1]);
        };
        assert(in_key_set(gs, gs[0].0));
    }
}

/// Inserts `rec` under `key`, keeping groups sorted by key.
pub fn insert_grouped<R: DeepView>(groups: &mut Vec<(Date, Vec<R>)>, key: Date, rec: R)
    requires
        key.wf(),
        group_keys_wf(groups_view(old(groups)@)),
    ensures
        groups_view(final(groups)@) == spec_insert(groups_view(old(groups)@), key, rec.deep_view()),
{
    let ghost gv = groups_view(groups@);
    let n = groups.len();
    let mut i: usize = 0;
    proof {
        assert forall|j: int| 0 <= j < groups@.len() implies (#[trigger] groups@[j]).0.wf() by {
            assert(gv[j] == (groups@[j].0, groups@[j].1.deep_view()));
        };
    }
    while i < n && groups[i].0.lt(key)
        invariant
            groups_view(groups@) == gv,
            n == groups@.len(),
            n == gv.len(),
            i <= n,
            key.wf(),
            group_keys_wf(gv),
            forall|j: int| 0 <= j < n ==> (#[trigger] groups@[j]).0.wf(),
            forall|j: int| 0 <= j < i ==> (#[trigger] gv[j]).0.key() < key.key(),
        decreases n - i,
    {
        proof {
            assert(gv[i as int].0 == groups@[i as int].0);
        }
        i = i + 1;
    }
    proof {
        lemma_spec_insert_at(gv, key, rec.deep_view(), i as int);
        if i < n {
            assert(gv[i as int].0 == groups@[i as int].0);
        }
    }
    if i < n && groups[i].0.same(key) {
        let mut pair = groups.remove(i);
        pair.1.push(rec);
        groups.insert(i, pair);
        proof {
            let rv = rec.deep_view();
            let tail = gv.skip(i as int);
            assert(tail[0] == gv[i as int]);
            assert(spec_insert(tail, key, rv) == seq![(tail[0].0, tail[0].1.push(rv))]
                + tail.drop_first());
            assert(groups_view(groups@) =~= gv.take(i as int) + (seq![
                (tail[0].0, tail[0].1.push(rv)),
            ] + tail.drop_first())) by {
                assert(forall|k: int|
                    0 <= k < i ==> (#[trigger] groups@[k]) == old(groups)@[k]);
                assert(forall|k: int|
                    i < k < groups@.len() ==> (#[trigger] groups@[k]) == old(groups)@[k]);
                assert(groups@[i as int].0 == old(groups)@[i as int].0);
                assert(groups@[i as int].1.deep_view() =~= gv[i as int].1.push(rv));
            };
        }
    } else {
        let mut fresh: Vec<R> = Vec::new();
        fresh.push(rec);
        groups.insert(i, (key, fresh));
        proof {
            let rv = rec.deep_view();
            let tail = gv.skip(i as int);
            if i < n {
                assert(tail[0] == gv[i as int]);
                assert(key.key() <= gv[i as int].0.key());
                if key.key() == gv[i as int].0.key() {
                    lemma_key_injective(key, gv[i as int].0);
                }
                assert(key.key() < tail[0].0.key());
            }
            assert(spec_insert(tail, key, rv) == seq![(key, seq![rv])] + tail);
            assert(fresh.deep_view() =~= seq![rv]);
            assert(groups_view(groups@) =~= gv.take(i as int) + (seq![(key, seq![rv])] + tail))
                by {
                assert(forall|k: int|
                    0 <= k < i ==> (#[trigger] groups@[k]) == old(groups)@[k]);
                assert(forall|k: int|
                    i < k < groups@.len() ==> (#[trigger] groups@[k]) == old(groups)@[k - 1]);
                assert(groups@[i as int].0 == key);
                assert(groups@[i as int].1.deep_view() =~= seq![rv]);
            };
        }
    }
}

} // verus!
