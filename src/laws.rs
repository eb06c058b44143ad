use vstd::prelude::*;

use crate::keydir::is_compacted;
use crate::logstore::{is_compaction_of, lemma_log_round_trip};
use crate::record::RecordView;
use crate::replay::{apply, encode_lines, replay_spec, store_map};

verus! {

/// Replaying mutations leaves each key with the value of its latest `Set`, when no
/// `Remove` of the key follows it, and leaves the key absent when every `Set` of it is
/// followed by a `Remove`.
pub proof fn lemma_replay_latest(ops: Seq<RecordView>, k: Seq<char>)
    ensures
        forall|i: int, v: Seq<char>|
            0 <= i < ops.len() && ops[i] == RecordView::Put(k, v) && (forall|j: int|
                i < j < ops.len() ==> ops[j].key() != k) ==> replay_spec(ops).contains_key(k)
                && replay_spec(ops)[k] == v,
        (forall|i: int|
            0 <= i < ops.len() && ops[i] is Put && ops[i].key() == k ==> exists|j: int|
                i < j < ops.len() && ops[j] == RecordView::Remove(k)) ==> !replay_spec(
            ops,
        ).contains_key(k),
    decreases ops.len(),
{
    if ops.len() > 0 {
        let pre = ops.drop_last();
        let n = ops.len() - 1;
        lemma_replay_latest(pre, k);
        assert forall|i: int, v: Seq<char>|
            0 <= i < ops.len() && ops[i] == RecordView::Put(k, v) && (forall|j: int|
                i < j < ops.len() ==> ops[j].key() != k) implies replay_spec(ops).contains_key(k)
            && replay_spec(ops)[k] == v by {
            if i < n {
                assert(ops[n].key() != k);
                assert(pre[i] == RecordView::Put(k, v));
                assert forall|j: int| i < j < pre.len() implies pre[j].key() != k by {
                    assert(pre[j] == ops[j]);
                }
            }
        }
        if forall|i: int|
            0 <= i < ops.len() && ops[i] is Put && ops[i].key() == k ==> exists|j: int|
                i < j < ops.len() && ops[j] == RecordView::Remove(k) {
            if ops[n].key() == k {
                if ops[n] is Put {
                    assert(exists|j: int| n < j < ops.len() && ops[j] == RecordView::Remove(k));
                }
            } else {
                assert forall|i: int|
                    0 <= i < pre.len() && pre[i] is Put && pre[i].key() == k implies exists|j: int|
                    i < j < pre.len() && pre[j] == RecordView::Remove(k) by {
                    assert(ops[i] == pre[i]);
                    let j = choose|j: int| i < j < ops.len() && ops[j] == RecordView::Remove(k);
                    assert(j != n);
                    assert(pre[j] == ops[j]);
                }
            }
        }
    }
}

/// `logs` are the successive logs of a store that starts empty, where each call leaves the
/// log standing for the previous map with that call's mutation applied (`logs[i + 1]` after
/// `ops[i]`).
pub open spec fn is_run(logs: Seq<Seq<Seq<char>>>, ops: Seq<RecordView>) -> bool {
    &&& logs.len() == ops.len() + 1
    &&& store_map(logs[0]) == Some(Map::<Seq<char>, Seq<char>>::empty())
    &&& forall|i: int|
        #![trigger ops[i]]
        0 <= i < ops.len() ==> store_map(logs[i]) is Some && store_map(logs[i + 1]) == Some(
            apply(store_map(logs[i])->0, ops[i]),
        )
}

/// Over any run of a store (reads and refused removals count as mutations that change
/// nothing), a `get` of `k` on the final log finds the value of the latest `set(k, v)` not
/// followed by a `remove(k)`, and nothing otherwise.
pub proof fn lemma_get_returns_latest_set(
    logs: Seq<Seq<Seq<char>>>,
    ops: Seq<RecordView>,
    k: Seq<char>,
)
    requires
        is_run(logs, ops),
    ensures
        store_map(logs.last()) == Some(replay_spec(ops)),
        forall|i: int, v: Seq<char>|
            0 <= i < ops.len() && ops[i] == RecordView::Put(k, v) && (forall|j: int|
                i < j < ops.len() ==> ops[j].key() != k) ==> store_map(logs.last())->0.contains_key(k)
                && store_map(logs.last())->0[k] == v,
        (forall|i: int|
            0 <= i < ops.len() && ops[i] is Put && ops[i].key() == k ==> exists|j: int|
                i < j < ops.len() && ops[j] == RecordView::Remove(k)) ==> !store_map(
            logs.last(),
        )->0.contains_key(k),
{
    lemma_run_replays(logs, ops, ops.len() as int);
    assert(ops.take(ops.len() as int) =~= ops);
    lemma_replay_latest(ops, k);
}

proof fn lemma_run_replays(logs: Seq<Seq<Seq<char>>>, ops: Seq<RecordView>, n: int)
    requires
        is_run(logs, ops),
        0 <= n <= ops.len(),
    ensures
        store_map(logs[n]) == Some(replay_spec(ops.take(n))),
    decreases n,
{
    if n > 0 {
        lemma_run_replays(logs, ops, n - 1);
        assert(store_map(logs[n]) == Some(apply(store_map(logs[n - 1])->0, ops[n - 1])));
        assert(ops.take(n).drop_last() =~= ops.take(n - 1));
    } else {
        assert(ops.take(0) =~= Seq::<RecordView>::empty());
    }
}

proof fn lemma_compacted_members(rs: Seq<RecordView>)
    requires
        is_compacted(rs),
    ensures
        forall|k: Seq<char>|
            replay_spec(rs).contains_key(k) <==> exists|i: int| 0 <= i < rs.len() && rs[i].key() == k,
        forall|r: RecordView|
            rs.contains(r) <==> (r matches RecordView::Put(k, v) && replay_spec(rs).contains_key(k)
                && replay_spec(rs)[k] == v),
    decreases rs.len(),
{
    if rs.len() > 0 {
        let pre = rs.drop_last();
        let n = rs.len() - 1;
        assert(is_compacted(pre)) by {
            assert forall|a: int, b: int| 0 <= a < b < pre.len() implies pre[a].key() != pre[b].key() by {
                assert(rs[a] == pre[a] && rs[b] == pre[b]);
            }
        }
        lemma_compacted_members(pre);
        assert(rs[n] is Put);
        let kl = rs[n].key();
        assert forall|k: Seq<char>|
            replay_spec(rs).contains_key(k) <==> exists|i: int| 0 <= i < rs.len() && rs[i].key() == k by {
            if exists|i: int| 0 <= i < rs.len() && rs[i].key() == k {
                let i = choose|i: int| 0 <= i < rs.len() && rs[i].key() == k;
                if i < n {
                    assert(pre[i].key() == k);
                }
            }
            if replay_spec(pre).contains_key(k) {
                let i = choose|i: int| 0 <= i < pre.len() && pre[i].key() == k;
                assert(rs[i].key() == k);
            }
        }
        assert(!replay_spec(pre).contains_key(kl)) by {
            if replay_spec(pre).contains_key(kl) {
                let i = choose|i: int| 0 <= i < pre.len() && pre[i].key() == kl;
                assert(rs[i].key() == rs[n].key());
            }
        }
        assert forall|r: RecordView|
            rs.contains(r) <==> (r matches RecordView::Put(k, v) && replay_spec(rs).contains_key(k)
                && replay_spec(rs)[k] == v) by {
            if rs.contains(r) {
                let i = choose|i: int| 0 <= i < rs.len() && rs[i] == r;
                if i < n {
                    assert(pre[i] == r);
                    assert(pre.contains(r));
                    assert(r.key() != kl);
                }
            }
            if let RecordView::Put(k, v) = r {
                if replay_spec(rs).contains_key(k) && replay_spec(rs)[k] == v {
                    if k == kl {
                        assert(rs[n] == r);
                    } else {
                        assert(pre.contains(r));
                        let i = choose|i: int| 0 <= i < pre.len() && pre[i] == r;
                        assert(rs[i] == r);
                    }
                }
            }
        }
    }
}

/// Compacting twice with no mutation in between writes the same set of records both
/// times, all of them `Set` records: a compacted log read back and compacted again holds
/// exactly the records it held.
pub proof fn lemma_compaction_idempotent(
    first: Seq<Seq<char>>,
    second: Seq<Seq<char>>,
    m: Map<Seq<char>, Seq<char>>,
)
    requires
        is_compaction_of(first, m),
        is_compaction_of(second, store_map(first)->0),
    ensures
        decode_lines_set(first) == decode_lines_set(second),
        forall|r: RecordView| decode_lines_set(first).contains(r) ==> r is Put,
{
    let rs1 = crate::replay::decode_lines(first)->0;
    let rs2 = crate::replay::decode_lines(second)->0;
    lemma_compacted_members(rs1);
    lemma_compacted_members(rs2);
    assert(rs1.to_set() =~= rs2.to_set());
    assert forall|r: RecordView| decode_lines_set(first).contains(r) implies r is Put by {
        assert(rs1.contains(r));
    }
}

/// The set of records that a well-formed log holds, in no order.
pub open spec fn decode_lines_set(ls: Seq<Seq<char>>) -> Set<RecordView> {
    match crate::replay::decode_lines(ls) {
        Some(rs) => rs.to_set(),
        None => Set::empty(),
    }
}

/// What a store writes is what a reopened store reads: lines written for any records
/// decode to those records, so replaying them from disk rebuilds the same map.
pub proof fn lemma_reopen_round_trip(rs: Seq<RecordView>)
    ensures
        store_map(encode_lines(rs)) == Some(replay_spec(rs)),
{
    lemma_log_round_trip(rs);
}

} // verus!
