//! The transaction builder: grouping a batch by owner, resolving per-scheme
//! dependencies, computing the output split, and producing the canonical
//! unsigned transaction.

use vstd::prelude::*;

use crate::accounts::{AccountEntry, AccountMap};
use crate::bytesutil::{
    bytes_eq, lex_le, lex_le_bytes, lemma_lex_le_antisym, lemma_lex_le_total, lemma_lex_le_trans,
};
use crate::errors::{Error, Result};
use crate::lockgen::{lock_gen_aligned, LockGenerator};
use crate::molecule::{cell_dep_ser, script_fits, script_ser, serialize_cell_dep, serialize_script};
use crate::records::{clone_bytes, CellDep, CellOutput, InputInfo, LockScriptId, RawTransaction, Script};
use crate::selector::{input_views, sum_capacities, sum_capacities_checked};
use crate::BYTE_SHANNONS;
use vstd::multiset::Multiset;

verus! {

// ---------------------------------------------------------------------------
// Sorting by byte keys.
// ---------------------------------------------------------------------------

/// The mathematical values of a keyed sequence.
pub open spec fn pair_views<T: View>(s: Seq<(Vec<u8>, T)>) -> Seq<(Seq<u8>, T::V)> {
    s.map_values(|p: (Vec<u8>, T)| (p.0@, p.1@))
}

/// The mathematical values of the payloads of a keyed sequence.
pub open spec fn payload_views<T: View>(s: Seq<(Vec<u8>, T)>) -> Seq<T::V> {
    s.map_values(|p: (Vec<u8>, T)| p.1@)
}

/// Every input's owner hash appears in the owner list.
pub open spec fn owners_cover(hashes: Seq<Vec<u8>>, inputs: Seq<InputInfo>) -> bool {
    forall|i: int|
        0 <= i < inputs.len() ==> exists|j: int|
            0 <= j < hashes.len() && (#[trigger] inputs[i])@.cell_info.lock_hash == (
            #[trigger] hashes[j])@
}

/// Keys are in non-decreasing lexicographic order.
pub open spec fn pairs_sorted<T: View>(s: Seq<(Vec<u8>, T)>) -> bool {
    forall|i: int, j: int| 0 <= i < j < s.len() ==> lex_le((#[trigger] s[i]).0@, (#[trigger] s[j]).0@)
}

/// Sorts a keyed sequence by its byte keys, in non-decreasing lexicographic
/// order, preserving the multiset of key/payload values.
pub fn sort_pairs_by_key<T: View>(v: &mut Vec<(Vec<u8>, T)>)
    ensures
        final(v)@.len() == old(v)@.len(),
        pairs_sorted(final(v)@),
        pair_views(final(v)@).to_multiset() == pair_views(old(v)@).to_multiset(),
        payload_views(final(v)@).to_multiset() == payload_views(old(v)@).to_multiset(),
{
    let n = v.len();
    let mut i: usize = 1;
    while i < n
        invariant
            n == v@.len(),
            1 <= i,
            forall|a: int, b: int|
                0 <= a < b < i && b < n ==> lex_le((#[trigger] v@[a]).0@, (#[trigger] v@[b]).0@),
            pair_views(v@).to_multiset() == pair_views(old(v)@).to_multiset(),
            payload_views(v@).to_multiset() == payload_views(old(v)@).to_multiset(),
        decreases n - i,
    {
        let mut j: usize = i;
        while j > 0 && !lex_le_bytes(&v[j - 1].0, &v[j].0)
            invariant
                n == v@.len(),
                i < n,
                j <= i,
                forall|a: int, b: int|
                    0 <= a < b <= i && b < n && b != j ==> lex_le(
                        (#[trigger] v@[a]).0@,
                        (#[trigger] v@[b]).0@,
                    ),
                forall|b: int| j < b <= i ==> lex_le((#[trigger] v@[j as int]).0@, (v@[b]).0@),
                pair_views(v@).to_multiset() == pair_views(old(v)@).to_multiset(),
                payload_views(v@).to_multiset() == payload_views(old(v)@).to_multiset(),
            decreases j,
        {
            proof {
                lemma_lex_le_total(v@[j - 1].0@, v@[j as int].0@);
            }
            let ghost pre = v@;
            let x = v.remove(j);
            let ghost mid = v@;
            v.insert(j - 1, x);
            proof {
                broadcast use vstd::seq_lib::group_to_multiset_ensures;

                assert(pair_views(mid) =~= pair_views(pre).remove(j as int));
                assert(pair_views(v@) =~= pair_views(mid).insert(j - 1, (x.0@, x.1@)));
                assert(pair_views(pre)[j as int] == (x.0@, x.1@));
                assert(pair_views(pre).to_multiset().contains((x.0@, x.1@))) by {
                    assert(pair_views(pre).contains(pair_views(pre)[j as int]));
                }
                assert(pair_views(v@).to_multiset() =~= pair_views(pre).to_multiset());
                assert(payload_views(mid) =~= payload_views(pre).remove(j as int));
                assert(payload_views(v@) =~= payload_views(mid).insert(j - 1, x.1@));
                assert(payload_views(pre)[j as int] == x.1@);
                assert(payload_views(pre).to_multiset().contains(x.1@)) by {
                    assert(payload_views(pre).contains(payload_views(pre)[j as int]));
                }
                assert(payload_views(v@).to_multiset() =~= payload_views(pre).to_multiset());
                let s = v@;
                assert forall|a: int, b: int|
                    0 <= a < b <= i && b < n && b != j - 1 implies lex_le(
                    (#[trigger] s[a]).0@,
                    (#[trigger] s[b]).0@,
                ) by {
                    let oa: int = if a < j - 1 { a } else if a == j - 1 { j as int } else if a
                        == j { j - 1 } else { a };
                    let ob: int = if b < j - 1 { b } else if b == j { j - 1 } else { b };
                    assert(s[a] == pre[oa]);
                    assert(s[b] == pre[ob]);
                    if oa == j as int {
                        if ob > j {
                            assert(lex_le(pre[j as int].0@, pre[ob].0@));
                        } else {
                            assert(ob == j - 1);
                            assert(lex_le(pre[j as int].0@, pre[j - 1].0@));
                        }
                    } else if ob == j - 1 && oa < j - 1 {
                        assert(lex_le(pre[oa].0@, pre[j - 1].0@));
                    } else {
                        assert(lex_le(pre[oa].0@, pre[ob].0@));
                    }
                }
                assert forall|b: int| j - 1 < b <= i implies lex_le(
                    (s[j - 1]).0@,
                    (#[trigger] s[b]).0@,
                ) by {
                    let ob: int = if b == j { j - 1 } else { b };
                    assert(s[b] == pre[ob]);
                    assert(s[j - 1] == pre[j as int]);
                    if ob == j - 1 {
                        assert(lex_le(pre[j as int].0@, pre[j - 1].0@));
                    } else {
                        assert(lex_le(pre[j as int].0@, pre[ob].0@));
                    }
                }
            }
            j = j - 1;
        }
        proof {
            let s = v@;
            assert forall|a: int, b: int| 0 <= a < b <= i && b < n implies lex_le(
                (#[trigger] s[a]).0@,
                (#[trigger] s[b]).0@,
            ) by {
                if b == j && j > 0 {
                    if a < j - 1 {
                        assert(lex_le(s[a].0@, s[j - 1].0@));
                        lemma_lex_le_trans(s[a].0@, s[j - 1].0@, s[j as int].0@);
                    }
                } else if b == j && j == 0 {
                } else {
                    assert(lex_le(s[a].0@, s[b].0@));
                }
            }
        }
        i = i + 1;
    }
}

// ---------------------------------------------------------------------------
// Grouping a batch by owner.
// ---------------------------------------------------------------------------

/// Reorders a batch so that the first occurrence of each owner comes first
/// ("group leaders", ordered by lock hash), followed by the remaining
/// inputs, also ordered by lock hash; drains the given batch.
///
/// The returned owner list is strictly increasing, aligns one-to-one with
/// the leading inputs — which determines witness-slot order for the signer —
/// and covers every input's owner; the returned inputs are a permutation of
/// the batch.
pub fn prepare_inputs(total_inputs: &mut Vec<InputInfo>) -> (r: (Vec<Vec<u8>>, Vec<InputInfo>))
    ensures
        final(total_inputs)@.len() == 0,
        input_views(r.1@).to_multiset() == input_views(old(total_inputs)@).to_multiset(),
        r.1@.len() == old(total_inputs)@.len(),
        r.0@.len() <= r.1@.len(),
        forall|a: int, b: int|
            0 <= a < b < r.0@.len() ==> lex_le((#[trigger] r.0@[a])@, (#[trigger] r.0@[b])@) && (
            r.0@[a])@ != (r.0@[b])@,
        forall|i: int|
            0 <= i < r.0@.len() ==> (#[trigger] r.1@[i])@.cell_info.lock_hash == (r.0@[i])@,
        owners_cover(r.0@, r.1@),
        forall|a: int, b: int|
            r.0@.len() <= a < b < r.1@.len() ==> lex_le(
                (#[trigger] r.1@[a])@.cell_info.lock_hash,
                (#[trigger] r.1@[b])@.cell_info.lock_hash,
            ),
{
    let ghost orig = total_inputs@;
    let mut pairs: Vec<(Vec<u8>, InputInfo)> = Vec::new();
    proof {
        lemma_to_multiset_empty(payload_views(pairs@));
        assert(input_views(total_inputs@).to_multiset().add(
            payload_views(pairs@).to_multiset(),
        ) =~= input_views(orig).to_multiset());
    }
    while total_inputs.len() > 0
        invariant
            forall|m: int|
                0 <= m < pairs@.len() ==> (#[trigger] pairs@[m]).0@ == (
                pairs@[m]).1@.cell_info.lock_hash,
            input_views(total_inputs@).to_multiset().add(
                payload_views(pairs@).to_multiset(),
            ) == input_views(orig).to_multiset(),
            total_inputs@.len() + pairs@.len() == orig.len(),
        decreases total_inputs@.len(),
    {
        let ghost t_pre = total_inputs@;
        let ghost p_pre = pairs@;
        match total_inputs.pop() {
            Some(x) => {
                let key = clone_bytes(&x.cell_info.lock_hash);
                pairs.push((key, x));
                proof {
                    broadcast use vstd::seq_lib::group_to_multiset_ensures;

                    let e = t_pre[t_pre.len() - 1]@;
                    assert(input_views(total_inputs@) =~= input_views(t_pre).remove(
                        t_pre.len() - 1,
                    ));
                    assert(input_views(t_pre)[t_pre.len() - 1] == e);
                    assert(payload_views(pairs@) =~= payload_views(p_pre).push(e));
                    assert(input_views(total_inputs@).to_multiset() =~= input_views(
                        t_pre,
                    ).to_multiset().remove(e));
                    assert(payload_views(pairs@).to_multiset() =~= payload_views(
                        p_pre,
                    ).to_multiset().insert(e));
                    assert(input_views(t_pre).contains(e));
                    assert(input_views(t_pre).to_multiset().count(e) > 0);
                    assert(input_views(total_inputs@).to_multiset().add(
                        payload_views(pairs@).to_multiset(),
                    ) =~= input_views(t_pre).to_multiset().add(payload_views(p_pre).to_multiset()));
                }
            },
            None => {},
        }
    }
    let ghost pre_sort = pairs@;
    proof {
        lemma_to_multiset_empty(input_views(total_inputs@));
        assert(payload_views(pre_sort).to_multiset() =~= input_views(orig).to_multiset());
    }
    sort_pairs_by_key(&mut pairs);
    let ghost s0 = pairs@;
    let ghost n0 = s0.len();
    proof {
        broadcast use vstd::seq_lib::group_to_multiset_ensures;

        assert forall|m: int| 0 <= m < n0 implies (#[trigger] s0[m]).0@ == (
        s0[m]).1@.cell_info.lock_hash by {
            let pv = pair_views(s0)[m];
            assert(pair_views(s0).contains(pv));
            assert(pair_views(s0).to_multiset().count(pv) > 0);
            assert(pair_views(pre_sort).to_multiset().count(pv) > 0);
            assert(pair_views(pre_sort).contains(pv));
            let j = choose|j: int|
                0 <= j < pair_views(pre_sort).len() && pair_views(pre_sort)[j] == pv;
            assert(pre_sort[j].0@ == pre_sort[j].1@.cell_info.lock_hash);
        }
    }
    let mut lock_hashes: Vec<Vec<u8>> = Vec::new();
    let mut leaders: Vec<InputInfo> = Vec::new();
    let mut rest: Vec<InputInfo> = Vec::new();
    let ghost mut k: int = 0;
    let ghost mut owner_idx: Seq<int> = Seq::empty();
    proof {
        assert(pairs@ =~= s0.skip(0));
    }
    while pairs.len() > 0
        invariant
            0 <= k <= n0,
            n0 == s0.len(),
            pairs@ == s0.skip(k),
            pairs_sorted(s0),
            forall|m: int|
                0 <= m < n0 ==> (#[trigger] s0[m]).0@ == (s0[m]).1@.cell_info.lock_hash,
            lock_hashes@.len() == leaders@.len(),
            leaders@.len() + rest@.len() == k,
            forall|j: int|
                0 <= j < leaders@.len() ==> (#[trigger] leaders@[j])@.cell_info.lock_hash == (
                #[trigger] lock_hashes@[j])@,
            forall|a: int, b: int|
                0 <= a < b < lock_hashes@.len() ==> lex_le(
                    (#[trigger] lock_hashes@[a])@,
                    (#[trigger] lock_hashes@[b])@,
                ) && (lock_hashes@[a])@ != (lock_hashes@[b])@,
            k > 0 ==> lock_hashes@.len() > 0 && (lock_hashes@[lock_hashes@.len() - 1])@ == s0[k
                - 1].0@,
            forall|a: int, b: int|
                0 <= a < b < rest@.len() ==> lex_le(
                    (#[trigger] rest@[a])@.cell_info.lock_hash,
                    (#[trigger] rest@[b])@.cell_info.lock_hash,
                ),
            k > 0 ==> forall|m: int|
                0 <= m < rest@.len() ==> lex_le(
                    (#[trigger] rest@[m])@.cell_info.lock_hash,
                    s0[k - 1].0@,
                ),
            owner_idx.len() == rest@.len(),
            forall|m: int|
                0 <= m < rest@.len() ==> 0 <= #[trigger] owner_idx[m] < lock_hashes@.len() && (
                rest@[m])@.cell_info.lock_hash == (lock_hashes@[owner_idx[m]])@,
            input_views(leaders@).to_multiset().add(input_views(rest@).to_multiset()).add(
                payload_views(pairs@).to_multiset(),
            ) == payload_views(s0).to_multiset(),
        decreases pairs@.len(),
    {
        let ghost pre_pairs = pairs@;
        let p = pairs.remove(0);
        proof {
            broadcast use vstd::seq_lib::group_to_multiset_ensures;

            assert(pre_pairs[0] == s0[k]);
            assert(pairs@ =~= s0.skip(k + 1));
            assert(payload_views(pairs@) =~= payload_views(pre_pairs).remove(0));
            assert(payload_views(pre_pairs)[0] == s0[k].1@);
            assert(payload_views(pre_pairs).contains(payload_views(pre_pairs)[0]));
        }
        let is_first = if lock_hashes.len() == 0 {
            true
        } else {
            !bytes_eq(&lock_hashes[lock_hashes.len() - 1], &p.0)
        };
        if is_first {
            proof {
                if k > 0 {
                    assert(lex_le(s0[k - 1].0@, s0[k].0@));
                    let last = lock_hashes@.len() - 1;
                    assert forall|a: int|
                        0 <= a < lock_hashes@.len() implies lex_le(
                        (#[trigger] lock_hashes@[a])@,
                        p.0@,
                    ) && (lock_hashes@[a])@ != p.0@ by {
                        if a < last {
                            lemma_lex_le_trans(
                                lock_hashes@[a]@,
                                lock_hashes@[last]@,
                                p.0@,
                            );
                            if lock_hashes@[a]@ == p.0@ {
                                lemma_lex_le_antisym(lock_hashes@[last]@, p.0@);
                            }
                        }
                    }
                }
            }
            let ghost pre_leaders = leaders@;
            let ghost pre_hashes = lock_hashes@;
            lock_hashes.push(p.0);
            leaders.push(p.1);
            proof {
                broadcast use vstd::seq_lib::group_to_multiset_ensures;

                assert(input_views(leaders@) =~= input_views(pre_leaders).push(s0[k].1@));
                assert(input_views(leaders@).to_multiset() =~= input_views(
                    pre_leaders,
                ).to_multiset().insert(s0[k].1@));
                assert(payload_views(pairs@).to_multiset() =~= payload_views(
                    pre_pairs,
                ).to_multiset().remove(s0[k].1@));
                assert(payload_views(pre_pairs).to_multiset().count(s0[k].1@) > 0);
                assert(input_views(leaders@).to_multiset().add(
                    input_views(rest@).to_multiset(),
                ).add(payload_views(pairs@).to_multiset()) =~= payload_views(s0).to_multiset());
                if k > 0 {
                    assert forall|m: int|
                        0 <= m < rest@.len() implies lex_le(
                        (#[trigger] rest@[m])@.cell_info.lock_hash,
                        s0[(k + 1) - 1].0@,
                    ) by {
                        lemma_lex_le_trans(
                            rest@[m]@.cell_info.lock_hash,
                            s0[k - 1].0@,
                            s0[k as int].0@,
                        );
                    }
                }
            }
        } else {
            proof {
                assert(p.0@ == lock_hashes@[lock_hashes@.len() - 1]@);
            }
            let ghost pre_rest = rest@;
            rest.push(p.1);
            proof {
                owner_idx = owner_idx.push(lock_hashes@.len() - 1);
            }
            proof {
                broadcast use vstd::seq_lib::group_to_multiset_ensures;

                assert(input_views(rest@) =~= input_views(pre_rest).push(s0[k].1@));
                assert(input_views(rest@).to_multiset() =~= input_views(
                    pre_rest,
                ).to_multiset().insert(s0[k].1@));
                assert(payload_views(pairs@).to_multiset() =~= payload_views(
                    pre_pairs,
                ).to_multiset().remove(s0[k].1@));
                assert(payload_views(pre_pairs).to_multiset().count(s0[k].1@) > 0);
                assert(input_views(leaders@).to_multiset().add(
                    input_views(rest@).to_multiset(),
                ).add(payload_views(pairs@).to_multiset()) =~= payload_views(s0).to_multiset());
                let newm = rest@.len() - 1;
                assert(rest@[newm]@.cell_info.lock_hash == s0[k as int].0@);
                assert(rest@[newm]@.cell_info.lock_hash == lock_hashes@[lock_hashes@.len() - 1]@);
                lemma_lex_le_total(s0[k as int].0@, s0[k as int].0@);
                assert forall|a: int, b: int| 0 <= a < b < rest@.len() implies lex_le(
                    (#[trigger] rest@[a])@.cell_info.lock_hash,
                    (#[trigger] rest@[b])@.cell_info.lock_hash,
                ) by {
                    if b == newm {
                        assert(lex_le(rest@[a]@.cell_info.lock_hash, s0[k - 1].0@));
                        assert(lex_le(s0[k - 1].0@, s0[k as int].0@));
                        lemma_lex_le_trans(
                            rest@[a]@.cell_info.lock_hash,
                            s0[k - 1].0@,
                            s0[k as int].0@,
                        );
                    }
                }
                assert forall|m: int|
                    0 <= m < rest@.len() implies lex_le(
                    (#[trigger] rest@[m])@.cell_info.lock_hash,
                    s0[(k + 1) - 1].0@,
                ) by {
                    if m < newm {
                        lemma_lex_le_trans(
                            rest@[m]@.cell_info.lock_hash,
                            s0[k - 1].0@,
                            s0[k as int].0@,
                        );
                    }
                }
            }
        }
        proof {
            k = k + 1;
        }
    }
    proof {
        assert(s0.skip(n0 as int).len() == 0);
        assert(k == n0);
    }
    let mut inputs = leaders;
    let ghost leaders_final = inputs@;
    let ghost rest_final = rest@;
    let mut rest_moved = rest;
    inputs.append(&mut rest_moved);
    proof {
        broadcast use vstd::seq_lib::group_to_multiset_ensures;

        assert(input_views(leaders_final + rest_final) =~= input_views(leaders_final)
            + input_views(rest_final));
        vstd::seq_lib::lemma_multiset_commutative(input_views(leaders_final), input_views(rest_final));
        lemma_to_multiset_empty(payload_views(pairs@));
        assert(input_views(inputs@).to_multiset() == payload_views(s0).to_multiset());
        assert(input_views(orig).to_multiset() == payload_views(s0).to_multiset());
        let nl = leaders_final.len() as int;
        assert forall|i: int| 0 <= i < inputs@.len() implies exists|j: int|
            0 <= j < lock_hashes@.len() && (#[trigger] inputs@[i])@.cell_info.lock_hash == (
            #[trigger] lock_hashes@[j])@ by {
            assert(inputs@ =~= leaders_final + rest_final);
            if i < nl {
                assert(inputs@[i] == leaders_final[i]);
                assert((inputs@[i])@.cell_info.lock_hash == (lock_hashes@[i])@);
            } else {
                let m = i - nl;
                assert(inputs@[i] == rest_final[m]);
                let j = owner_idx[m];
                assert(0 <= j < lock_hashes@.len() && (inputs@[i])@.cell_info.lock_hash == (
                lock_hashes@[j])@);
            }
        }
        assert(owners_cover(lock_hashes@, inputs@));
        assert forall|a: int, b: int|
            lock_hashes@.len() <= a < b < inputs@.len() implies lex_le(
            (#[trigger] inputs@[a])@.cell_info.lock_hash,
            (#[trigger] inputs@[b])@.cell_info.lock_hash,
        ) by {
            assert(inputs@[a] == rest_final[a - nl]);
            assert(inputs@[b] == rest_final[b - nl]);
        }
    }
    (lock_hashes, inputs)
}

/// A key property stated of every pair survives any permutation: each pair
/// of the permuted sequence is a pair of the original.
proof fn lemma_pairs_key_prop_transfer<T: View>(
    pre: Seq<(Vec<u8>, T)>,
    post: Seq<(Vec<u8>, T)>,
    keyfn: spec_fn(T::V) -> Seq<u8>,
)
    requires
        pair_views(post).to_multiset() == pair_views(pre).to_multiset(),
        forall|j: int| 0 <= j < pre.len() ==> (#[trigger] pre[j]).0@ == keyfn(pre[j].1@),
    ensures
        forall|m: int| 0 <= m < post.len() ==> (#[trigger] post[m]).0@ == keyfn(post[m].1@),
{
    broadcast use vstd::seq_lib::group_to_multiset_ensures;

    assert forall|m: int| 0 <= m < post.len() implies (#[trigger] post[m]).0@ == keyfn(
        post[m].1@,
    ) by {
        let pv = pair_views(post)[m];
        assert(pair_views(post).contains(pv));
        assert(pair_views(post).to_multiset().count(pv) > 0);
        assert(pair_views(pre).contains(pv));
        let j = choose|j: int| 0 <= j < pair_views(pre).len() && pair_views(pre)[j] == pv;
        assert(pre[j].0@ == keyfn(pre[j].1@));
    }
}

/// A property stated of every payload survives any permutation: each
/// payload of the permuted sequence is a payload of the original.
proof fn lemma_payload_prop_transfer<T: View>(
    pre: Seq<(Vec<u8>, T)>,
    post: Seq<(Vec<u8>, T)>,
    prop: spec_fn(T::V) -> bool,
)
    requires
        payload_views(post).to_multiset() == payload_views(pre).to_multiset(),
        forall|j: int| 0 <= j < pre.len() ==> prop((#[trigger] pre[j]).1@),
    ensures
        forall|m: int| 0 <= m < post.len() ==> prop((#[trigger] post[m]).1@),
{
    broadcast use vstd::seq_lib::group_to_multiset_ensures;

    assert forall|m: int| 0 <= m < post.len() implies prop((#[trigger] post[m]).1@) by {
        let pv = payload_views(post)[m];
        assert(payload_views(post).contains(pv));
        assert(payload_views(post).to_multiset().count(pv) > 0);
        assert(payload_views(pre).contains(pv));
        let j = choose|j: int| 0 <= j < payload_views(pre).len() && payload_views(pre)[j] == pv;
        assert(prop(pre[j].1@));
    }
}

/// A sequence with no elements has the empty multiset.
proof fn lemma_to_multiset_empty<A>(s: Seq<A>)
    requires
        s.len() == 0,
    ensures
        s.to_multiset() == Multiset::<A>::empty(),
{
    broadcast use vstd::seq_lib::group_to_multiset_ensures;

    assert forall|e: A| s.to_multiset().count(e) == Multiset::<A>::empty().count(e) by {
        if s.to_multiset().count(e) > 0 {
            assert(s.contains(e));
        }
    }
    assert(s.to_multiset() =~= Multiset::<A>::empty());
}

/// The output count for a batch: the emitted value divided by the configured
/// per-output capacity, clamped to at least one and at most the ceiling.
pub open spec fn outputs_count_spec(limit: int, total: int, per: int, fee: int) -> int {
    let x = (total - fee) / per;
    if x == 0 {
        1
    } else if x < limit {
        x
    } else {
        limit
    }
}

/// Computes the output count from the batch's total capacity, the fee and
/// the per-output capacity.
pub fn calculate_outputs_count(
    outputs_limit: usize,
    total_shannons: u64,
    output_shannons: u64,
    fee_shannons: u64,
) -> (r: usize)
    requires
        fee_shannons <= total_shannons,
        output_shannons > 0,
        outputs_limit >= 1,
    ensures
        r == outputs_count_spec(
            outputs_limit as int,
            total_shannons as int,
            output_shannons as int,
            fee_shannons as int,
        ),
        1 <= r <= outputs_limit,
{
    let x = (total_shannons - fee_shannons) / output_shannons;
    if x == 0 {
        1
    } else if x < outputs_limit as u64 {
        x as usize
    } else {
        outputs_limit
    }
}

// ---------------------------------------------------------------------------
// Owner attribution, as spec-level lookups.
// ---------------------------------------------------------------------------

/// Whether some managed account carries the given lock hash.
pub open spec fn has_account(accts: Seq<AccountEntry>, h: Seq<u8>) -> bool {
    exists|i: int| 0 <= i < accts.len() && (#[trigger] accts[i]).lock_hash@ == h
}

/// The account with the given lock hash (meaningful under unique hashes).
pub open spec fn account_at(accts: Seq<AccountEntry>, h: Seq<u8>) -> AccountEntry {
    accts[choose|i: int| 0 <= i < accts.len() && (#[trigger] accts[i]).lock_hash@ == h]
}

/// Under unique hashes, any entry with the hash is the entry the lookup
/// names.
pub proof fn lemma_account_at(accts: Seq<AccountEntry>, i: int)
    requires
        forall|a: int, b: int|
            0 <= a < b < accts.len() ==> (#[trigger] accts[a]).lock_hash@ != (
            #[trigger] accts[b]).lock_hash@,
        0 <= i < accts.len(),
    ensures
        has_account(accts, accts[i].lock_hash@),
        account_at(accts, accts[i].lock_hash@) == accts[i],
{
    let h = accts[i].lock_hash@;
    assert(has_account(accts, h));
    let j = choose|j: int| 0 <= j < accts.len() && (#[trigger] accts[j]).lock_hash@ == h;
    if i != j {
        assert(accts[i].lock_hash@ != accts[j].lock_hash@);
    }
}

/// Every input of the batch is attributable to a managed account.
pub open spec fn all_owners_known(accts: Seq<AccountEntry>, inputs: Seq<InputInfo>) -> bool {
    forall|i: int|
        0 <= i < inputs.len() ==> has_account(
            accts,
            (#[trigger] inputs[i])@.cell_info.lock_hash,
        )
}

/// Whether one of the first `upto` inputs is owned by an account of the
/// scheme.
pub open spec fn scheme_present_upto(
    accts: Seq<AccountEntry>,
    inputs: Seq<InputInfo>,
    id: LockScriptId,
    upto: int,
) -> bool {
    exists|i: int|
        0 <= i < upto && i < inputs.len() && has_account(
            accts,
            (#[trigger] inputs[i])@.cell_info.lock_hash,
        ) && account_at(accts, inputs[i]@.cell_info.lock_hash).info.id == id
}

/// Whether some input of the batch is owned by an account of the scheme.
pub open spec fn scheme_present(
    accts: Seq<AccountEntry>,
    inputs: Seq<InputInfo>,
    id: LockScriptId,
) -> bool {
    scheme_present_upto(accts, inputs, id, inputs.len() as int)
}

// ---------------------------------------------------------------------------
// The per-scheme dependency table.
// ---------------------------------------------------------------------------

/// The auxiliary dependency lists, one per scheme.
pub struct LockDepsDict {
    entries: Vec<(LockScriptId, Vec<CellDep>)>,
}

impl LockDepsDict {
    pub closed spec fn entries_spec(self) -> Seq<(LockScriptId, Vec<CellDep>)> {
        self.entries@
    }

    /// Whether the scheme has a registered dependency list.
    pub open spec fn has_deps(self, id: LockScriptId) -> bool {
        exists|i: int| 0 <= i < self.entries_spec().len() && (#[trigger] self.entries_spec()[i]).0 == id
    }

    /// The scheme's dependency list (meaningful under unique scheme keys).
    pub open spec fn deps_of(self, id: LockScriptId) -> Seq<CellDep> {
        self.entries_spec()[choose|i: int|
            0 <= i < self.entries_spec().len() && (#[trigger] self.entries_spec()[i]).0 == id].1@
    }

    pub open spec fn wf(self) -> bool {
        &&& forall|a: int, b: int|
            0 <= a < b < self.entries_spec().len() ==> (#[trigger] self.entries_spec()[a]).0 != (
            #[trigger] self.entries_spec()[b]).0
        &&& forall|i: int, j: int|
            0 <= i < self.entries_spec().len() && 0 <= j < (
            #[trigger] self.entries_spec()[i]).1@.len() ==> (
            #[trigger] self.entries_spec()[i].1@[j]).wf()
    }

    pub fn new() -> (r: Self)
        ensures
            r.wf(),
            r.entries_spec().len() == 0,
    {
        LockDepsDict { entries: Vec::new() }
    }

    /// Registers a scheme's dependency list; the scheme must not already
    /// have one.
    pub fn insert(&mut self, id: LockScriptId, deps: Vec<CellDep>)
        requires
            old(self).wf(),
            !old(self).has_deps(id),
            forall|j: int| 0 <= j < deps@.len() ==> (#[trigger] deps@[j]).wf(),
        ensures
            final(self).wf(),
            final(self).has_deps(id),
            final(self).deps_of(id) == deps@,
            forall|other: LockScriptId|
                other != id ==> #[trigger] final(self).has_deps(other) == old(self).has_deps(
                    other,
                ) && (final(self).has_deps(other) ==> final(self).deps_of(other) == old(
                    self,
                ).deps_of(other)),
    {
        let ghost olds = old(self).entries_spec();
        self.entries.push((id, deps));
        proof {
            let s = self.entries_spec();
            let n = s.len() - 1;
            assert forall|a: int, b: int| 0 <= a < b < s.len() implies (#[trigger] s[a]).0 != (
            #[trigger] s[b]).0 by {
                if b < n {
                    assert(olds[a] == s[a] && olds[b] == s[b]);
                } else {
                    if s[a].0 == id {
                        assert(olds[a] == s[a]);
                        assert(old(self).has_deps(id));
                    }
                }
            }
            assert(s[n].0 == id);
            assert(self.has_deps(id));
            let j = choose|j: int| 0 <= j < s.len() && (#[trigger] s[j]).0 == id;
            if j != n {
                assert(s[j].0 != s[n].0);
            }
            assert(self.deps_of(id) == deps@);
            assert forall|other: LockScriptId| other != id implies #[trigger] self.has_deps(
                other,
            ) == old(self).has_deps(other) && (self.has_deps(other) ==> self.deps_of(other)
                == old(self).deps_of(other)) by {
                if old(self).has_deps(other) {
                    let m = choose|m: int|
                        0 <= m < olds.len() && (#[trigger] olds[m]).0 == other;
                    assert(s[m] == olds[m]);
                    assert(self.has_deps(other));
                }
                if self.has_deps(other) {
                    let m = choose|m: int| 0 <= m < s.len() && (#[trigger] s[m]).0 == other;
                    assert(m != n);
                    assert(olds[m] == s[m]);
                    assert(old(self).has_deps(other));
                    let m2 = choose|m2: int|
                        0 <= m2 < olds.len() && (#[trigger] olds[m2]).0 == other;
                    assert(s[m2] == olds[m2]);
                    if m != m2 {
                        assert(s[m].0 == s[m2].0);
                    }
                    assert(self.deps_of(other) == old(self).deps_of(other));
                }
            }
        }
    }

    /// The registered dependency list for a scheme, if any.
    pub fn deps_for(&self, id: LockScriptId) -> (r: Option<&Vec<CellDep>>)
        requires
            self.wf(),
        ensures
            match r {
                Some(v) => self.has_deps(id) && v@ == self.deps_of(id),
                None => !self.has_deps(id),
            },
    {
        let mut i: usize = 0;
        while i < self.entries.len()
            invariant
                self.wf(),
                i <= self.entries_spec().len(),
                forall|j: int| 0 <= j < i ==> (#[trigger] self.entries_spec()[j]).0 != id,
            decreases self.entries_spec().len() - i,
        {
            if self.entries[i].0 == id {
                proof {
                    assert(self.entries_spec()[i as int].0 == id);
                    assert(self.has_deps(id));
                    let j = choose|j: int|
                        0 <= j < self.entries_spec().len() && (
                        #[trigger] self.entries_spec()[j]).0 == id;
                    if j != i as int {
                        assert(self.entries_spec()[i as int].0 != self.entries_spec()[j].0);
                    }
                }
                return Some(&self.entries[i].1);
            }
            i = i + 1;
        }
        None
    }
}

// ---------------------------------------------------------------------------
// Deduplication of sorted dependency pairs.
// ---------------------------------------------------------------------------

/// Removes adjacent duplicates from a key-sorted dependency list: the kept
/// keys are strictly increasing, every kept pair keeps the stated payload
/// property and its key naming, and the returned table maps every input
/// position to a kept position with the same key.
fn dedup_sorted_dep_pairs(
    pairs: &Vec<(Vec<u8>, CellDep)>,
    Ghost(prop): Ghost<spec_fn(crate::records::CellDepV) -> bool>,
) -> (r: (Vec<(Vec<u8>, CellDep)>, Ghost<Seq<int>>))
    requires
        pairs_sorted(pairs@),
        forall|j: int|
            0 <= j < pairs@.len() ==> prop((#[trigger] pairs@[j]).1@) && (pairs@[j]).0@
                == cell_dep_ser((pairs@[j]).1@),
    ensures
        ({
            let (out, cover) = r;
            &&& forall|a: int, b: int|
                0 <= a < b < out@.len() ==> lex_le(
                    (#[trigger] out@[a]).0@,
                    (#[trigger] out@[b]).0@,
                ) && (out@[a]).0@ != (out@[b]).0@
            &&& forall|m: int|
                0 <= m < out@.len() ==> prop((#[trigger] out@[m]).1@) && (out@[m]).0@
                    == cell_dep_ser((out@[m]).1@)
            &&& cover@.len() == pairs@.len()
            &&& forall|j: int|
                0 <= j < pairs@.len() ==> 0 <= #[trigger] cover@[j] < out@.len() && (
                pairs@[j]).0@ == (out@[cover@[j]]).0@
        }),
{
    let mut out: Vec<(Vec<u8>, CellDep)> = Vec::new();
    let ghost mut cover_idx: Seq<int> = Seq::empty();
    let mut i: usize = 0;
    while i < pairs.len()
        invariant
            i <= pairs@.len(),
            pairs_sorted(pairs@),
            forall|j: int|
                0 <= j < pairs@.len() ==> prop((#[trigger] pairs@[j]).1@) && (pairs@[j]).0@
                    == cell_dep_ser((pairs@[j]).1@),
            out@.len() <= i,
            cover_idx.len() == i,
            forall|m: int|
                0 <= m < out@.len() ==> prop((#[trigger] out@[m]).1@) && (out@[m]).0@
                    == cell_dep_ser((out@[m]).1@),
            forall|j: int|
                0 <= j < i ==> 0 <= #[trigger] cover_idx[j] < out@.len() && (pairs@[j]).0@ == (
                out@[cover_idx[j]]).0@,
            forall|a: int, b: int|
                0 <= a < b < out@.len() ==> lex_le(
                    (#[trigger] out@[a]).0@,
                    (#[trigger] out@[b]).0@,
                ) && (out@[a]).0@ != (out@[b]).0@,
            i > 0 ==> out@.len() > 0 && (out@[out@.len() - 1]).0@ == pairs@[i - 1].0@,
        decreases pairs@.len() - i,
    {
        let is_new = if out.len() == 0 {
            true
        } else {
            !bytes_eq(&out[out.len() - 1].0, &pairs[i].0)
        };
        if is_new {
            let ghost pre_out = out@;
            proof {
                if i > 0 {
                    let last = pre_out.len() - 1;
                    assert(lex_le(pairs@[i - 1].0@, pairs@[i as int].0@));
                    assert forall|a: int|
                        0 <= a < pre_out.len() implies lex_le(
                        (#[trigger] pre_out[a]).0@,
                        pairs@[i as int].0@,
                    ) && (pre_out[a]).0@ != pairs@[i as int].0@ by {
                        if a < last {
                            lemma_lex_le_trans(
                                pre_out[a].0@,
                                pre_out[last].0@,
                                pairs@[i as int].0@,
                            );
                            if pre_out[a].0@ == pairs@[i as int].0@ {
                                lemma_lex_le_antisym(pre_out[last].0@, pairs@[i as int].0@);
                            }
                        }
                    }
                }
            }
            let key = clone_bytes(&pairs[i].0);
            let payload = pairs[i].1.duplicate();
            out.push((key, payload));
            proof {
                cover_idx = cover_idx.push(out@.len() - 1);
                let s = out@;
                let newm = s.len() - 1;
                assert(s[newm].0@ == pairs@[i as int].0@);
                assert(s[newm].1@ == pairs@[i as int].1@);
                assert forall|a: int, b: int| 0 <= a < b < s.len() implies lex_le(
                    (#[trigger] s[a]).0@,
                    (#[trigger] s[b]).0@,
                ) && (s[a]).0@ != (s[b]).0@ by {
                    assert(s[a] == pre_out[a]);
                    if b < newm {
                        assert(s[b] == pre_out[b]);
                    } else {
                        assert(lex_le(pre_out[a].0@, pairs@[i as int].0@) && pre_out[a].0@
                            != pairs@[i as int].0@);
                    }
                }
                assert forall|m: int| 0 <= m < s.len() implies prop((#[trigger] s[m]).1@) && (
                s[m]).0@ == cell_dep_ser((s[m]).1@) by {
                    if m < newm {
                        assert(s[m] == pre_out[m]);
                    } else {
                        assert(prop(pairs@[i as int].1@));
                    }
                }
            }
        } else {
            proof {
                cover_idx = cover_idx.push(out@.len() - 1);
            }
        }
        i = i + 1;
    }
    (out, Ghost(cover_idx))
}

// ---------------------------------------------------------------------------
// Output capacities.
// ---------------------------------------------------------------------------

/// The summed capacity of a transaction's outputs, as an unbounded integer.
pub open spec fn sum_outputs(s: Seq<crate::records::CellOutputV>) -> int
    decreases s.len(),
{
    if s.len() == 0 {
        0
    } else {
        s[0].capacity + sum_outputs(s.drop_first())
    }
}

/// A head value followed by a constant tail sums to head plus tail count
/// times the constant.
pub proof fn lemma_sum_outputs_shape(s: Seq<crate::records::CellOutputV>, c: int)
    requires
        s.len() >= 1,
        forall|i: int| 1 <= i < s.len() ==> (#[trigger] s[i]).capacity == c,
    ensures
        sum_outputs(s) == s[0].capacity + (s.len() - 1) * c,
    decreases s.len(),
{
    if s.len() == 1 {
        assert(s.drop_first().len() == 0);
        assert(sum_outputs(s.drop_first()) == 0);
        assert(sum_outputs(s) == s[0].capacity);
        assert((s.len() - 1) * c == 0) by (nonlinear_arith)
            requires
                s.len() == 1,
        ;
    } else {
        let t = s.drop_first();
        assert forall|i: int| 1 <= i < t.len() implies (#[trigger] t[i]).capacity == c by {
            assert(t[i] == s[i + 1]);
        }
        assert(t[0] == s[1]);
        lemma_sum_outputs_shape(t, c);
        assert(sum_outputs(s) == s[0].capacity + sum_outputs(t));
        assert(sum_outputs(t) == c + (t.len() - 1) * c);
        let n = s.len() as int;
        assert(c + (n - 2) * c == (n - 1) * c) by (nonlinear_arith);
        assert(sum_outputs(s) == s[0].capacity + (n - 1) * c);
    }
}

/// Scheme presence among the first `i + 1` inputs is presence among the
/// first `i`, or ownership of the `i`-th input by the scheme.
proof fn lemma_present_upto_step(
    accts: Seq<AccountEntry>,
    inputs: Seq<InputInfo>,
    id: LockScriptId,
    i: int,
)
    requires
        0 <= i < inputs.len(),
    ensures
        scheme_present_upto(accts, inputs, id, i + 1) == (scheme_present_upto(accts, inputs, id, i)
            || (has_account(accts, inputs[i]@.cell_info.lock_hash) && account_at(
            accts,
            inputs[i]@.cell_info.lock_hash,
        ).info.id == id)),
{
    if scheme_present_upto(accts, inputs, id, i + 1) {
        let w = choose|w: int|
            0 <= w < i + 1 && w < inputs.len() && has_account(
                accts,
                (#[trigger] inputs[w])@.cell_info.lock_hash,
            ) && account_at(accts, inputs[w]@.cell_info.lock_hash).info.id == id;
        if w < i {
            assert(scheme_present_upto(accts, inputs, id, i));
        }
    }
    if scheme_present_upto(accts, inputs, id, i) {
        let w = choose|w: int|
            0 <= w < i && w < inputs.len() && has_account(
                accts,
                (#[trigger] inputs[w])@.cell_info.lock_hash,
            ) && account_at(accts, inputs[w]@.cell_info.lock_hash).info.id == id;
        assert(scheme_present_upto(accts, inputs, id, i + 1));
    }
    if has_account(accts, inputs[i]@.cell_info.lock_hash) && account_at(
        accts,
        inputs[i]@.cell_info.lock_hash,
    ).info.id == id {
        assert(scheme_present_upto(accts, inputs, id, i + 1));
    }
}

// ---------------------------------------------------------------------------
// Building the unsigned transaction.
// ---------------------------------------------------------------------------

/// All the conditions under which a batch can be built: its total capacity
/// is representable and covers the fee, every input's owner is a managed
/// account, and every scheme that owns an input has a registered dependency
/// list.
pub open spec fn batch_buildable(
    inputs: Seq<InputInfo>,
    accounts: AccountMap,
    lock_deps: LockDepsDict,
    fee_shannons: u64,
) -> bool {
    &&& sum_capacities(inputs) <= u64::MAX
    &&& fee_shannons <= sum_capacities(inputs)
    &&& all_owners_known(accounts.entries_spec(), inputs)
    &&& scheme_present(accounts.entries_spec(), inputs, LockScriptId::Secp256K1Blake160)
        ==> lock_deps.has_deps(LockScriptId::Secp256K1Blake160)
    &&& scheme_present(accounts.entries_spec(), inputs, LockScriptId::PwLockK1Acpl)
        ==> lock_deps.has_deps(LockScriptId::PwLockK1Acpl)
}

/// Whether the serialized dependency is among a scheme's configured list.
pub open spec fn dep_in_scheme_list(lock_deps: LockDepsDict, id: LockScriptId, ser: Seq<u8>) -> bool {
    exists|j: int|
        0 <= j < lock_deps.deps_of(id).len() && cell_dep_ser(
            (#[trigger] lock_deps.deps_of(id)[j])@,
        ) == ser
}

/// Whether some dependency of the list has the given serialized bytes.
pub open spec fn deps_contain(ds: Seq<CellDep>, ser: Seq<u8>) -> bool {
    exists|q: int| 0 <= q < ds.len() && cell_dep_ser((#[trigger] ds[q])@) == ser
}

/// Whether the dependency comes from the configured list of a flagged
/// scheme.
pub open spec fn dep_from_flagged(
    has_secp: bool,
    has_pw: bool,
    lock_deps: LockDepsDict,
    dv: crate::records::CellDepV,
) -> bool {
    ||| (has_secp && lock_deps.has_deps(LockScriptId::Secp256K1Blake160) && dep_in_scheme_list(
        lock_deps,
        LockScriptId::Secp256K1Blake160,
        cell_dep_ser(dv),
    ))
    ||| (has_pw && lock_deps.has_deps(LockScriptId::PwLockK1Acpl) && dep_in_scheme_list(
        lock_deps,
        LockScriptId::PwLockK1Acpl,
        cell_dep_ser(dv),
    ))
}

/// Whether a scheme is flagged by the two presence flags.
pub open spec fn flagged(has_secp: bool, has_pw: bool, id: LockScriptId) -> bool {
    match id {
        LockScriptId::Secp256K1Blake160 => has_secp,
        LockScriptId::PwLockK1Acpl => has_pw,
    }
}

/// Attributes every input of the batch to its owning account and reports
/// which schemes own inputs; fails when some input has no managed owner.
#[verifier::loop_isolation(false)]
fn scan_owners(inputs_info: &Vec<InputInfo>, accounts: &AccountMap) -> (r: Result<(bool, bool)>)
    requires
        accounts.wf(),
    ensures
        ({
            let accts = accounts.entries_spec();
            match r {
                Ok(f) => {
                    &&& all_owners_known(accts, inputs_info@)
                    &&& f.0 == scheme_present(accts, inputs_info@, LockScriptId::Secp256K1Blake160)
                    &&& f.1 == scheme_present(accts, inputs_info@, LockScriptId::PwLockK1Acpl)
                },
                Err(e) => !all_owners_known(accts, inputs_info@) && e is Runtime,
            }
        }),
{
    let ghost accts = accounts.entries_spec();
    let n = inputs_info.len();
    let mut has_secp = false;
    let mut has_pw = false;
    let mut i: usize = 0;
    while i < n
        invariant
            i <= n,
            forall|j: int|
                0 <= j < i ==> has_account(accts, (#[trigger] inputs_info@[j])@.cell_info.lock_hash),
            has_secp == scheme_present_upto(
                accts,
                inputs_info@,
                LockScriptId::Secp256K1Blake160,
                i as int,
            ),
            has_pw == scheme_present_upto(accts, inputs_info@, LockScriptId::PwLockK1Acpl, i as int),
        decreases n - i,
    {
        match accounts.find_by_hash(&inputs_info[i].cell_info.lock_hash) {
            None => {
                proof {
                    assert(!has_account(accts, inputs_info@[i as int]@.cell_info.lock_hash));
                    assert(!all_owners_known(accts, inputs_info@));
                }
                return Err(Error::runtime("a lock script doesn't set".to_string()));
            },
            Some(entry) => {
                proof {
                    let w = choose|w: int|
                        0 <= w < accts.len() && entry == &accts[w] && entry.lock_hash@
                            == inputs_info@[i as int]@.cell_info.lock_hash;
                    lemma_account_at(accts, w);
                    lemma_present_upto_step(
                        accts,
                        inputs_info@,
                        LockScriptId::Secp256K1Blake160,
                        i as int,
                    );
                    lemma_present_upto_step(
                        accts,
                        inputs_info@,
                        LockScriptId::PwLockK1Acpl,
                        i as int,
                    );
                    assert(account_at(accts, inputs_info@[i as int]@.cell_info.lock_hash)
                        == accts[w]);
                }
                match entry.info.id {
                    LockScriptId::Secp256K1Blake160 => {
                        has_secp = true;
                    },
                    LockScriptId::PwLockK1Acpl => {
                        has_pw = true;
                    },
                }
            },
        }
        i = i + 1;
    }
    Ok((has_secp, has_pw))
}

/// Concatenates the dependency lists of the flagged schemes, then
/// deduplicates and sorts them by serialized bytes; fails when a flagged
/// scheme has no registered list.
#[verifier::rlimit(100)]
#[verifier::loop_isolation(false)]
fn resolve_cell_deps(has_secp: bool, has_pw: bool, lock_deps: &LockDepsDict) -> (r: Result<
    Vec<CellDep>,
>)
    requires
        lock_deps.wf(),
    ensures
        match r {
            Ok(ds) => {
                &&& (has_secp ==> lock_deps.has_deps(LockScriptId::Secp256K1Blake160))
                &&& (has_pw ==> lock_deps.has_deps(LockScriptId::PwLockK1Acpl))
                &&& forall|a: int, b: int|
                    0 <= a < b < ds@.len() ==> lex_le(
                        cell_dep_ser((#[trigger] ds@[a])@),
                        cell_dep_ser((#[trigger] ds@[b])@),
                    ) && cell_dep_ser((ds@[a])@) != cell_dep_ser((ds@[b])@)
                &&& forall|i: int|
                    0 <= i < ds@.len() ==> dep_from_flagged(
                        has_secp,
                        has_pw,
                        *lock_deps,
                        (#[trigger] ds@[i])@,
                    )
                &&& forall|id: LockScriptId, j: int|
                    flagged(has_secp, has_pw, id) && lock_deps.has_deps(id) && 0 <= j
                        < lock_deps.deps_of(id).len() ==> deps_contain(
                        ds@,
                        cell_dep_ser((#[trigger] lock_deps.deps_of(id)[j])@),
                    )
            },
            Err(e) => ((has_secp && !lock_deps.has_deps(LockScriptId::Secp256K1Blake160)) || (
            has_pw && !lock_deps.has_deps(LockScriptId::PwLockK1Acpl))) && e is Runtime,
        },
{
    let ghost dep_ok = |dv: crate::records::CellDepV|
        exists|id: LockScriptId, j: int|
            flagged(has_secp, has_pw, id) && lock_deps.has_deps(id) && 0 <= j
                < lock_deps.deps_of(id).len() && (#[trigger] lock_deps.deps_of(id)[j])@ == dv;
    let mut dep_pairs: Vec<(Vec<u8>, CellDep)> = Vec::new();
    let ghost mut secp_pos: Seq<int> = Seq::empty();
    let ghost mut pw_pos: Seq<int> = Seq::empty();
    if has_secp {
        match lock_deps.deps_for(LockScriptId::Secp256K1Blake160) {
            None => {
                return Err(Error::runtime("a lock script doesn't have cell deps".to_string()));
            },
            Some(list) => {
                let mut j: usize = 0;
                while j < list.len()
                    invariant
                        list@ == lock_deps.deps_of(LockScriptId::Secp256K1Blake160),
                        lock_deps.has_deps(LockScriptId::Secp256K1Blake160),
                        j <= list@.len(),
                        secp_pos.len() == j,
                        forall|m: int|
                            0 <= m < dep_pairs@.len() ==> (#[trigger] dep_pairs@[m]).0@
                                == cell_dep_ser((dep_pairs@[m]).1@) && dep_ok((dep_pairs@[m]).1@),
                        forall|t: int|
                            0 <= t < j ==> 0 <= #[trigger] secp_pos[t] < dep_pairs@.len() && (
                            dep_pairs@[secp_pos[t]]).0@ == cell_dep_ser((list@[t])@),
                    decreases list@.len() - j,
                {
                    let ser = serialize_cell_dep(&list[j]);
                    let dup = list[j].duplicate();
                    dep_pairs.push((ser, dup));
                    proof {
                        secp_pos = secp_pos.push(dep_pairs@.len() - 1);
                        assert((lock_deps.deps_of(LockScriptId::Secp256K1Blake160)[j as int])@
                            == (dep_pairs@[dep_pairs@.len() - 1]).1@);
                        assert(dep_ok((dep_pairs@[dep_pairs@.len() - 1]).1@));
                    }
                    j = j + 1;
                }
            },
        }
    }
    if has_pw {
        match lock_deps.deps_for(LockScriptId::PwLockK1Acpl) {
            None => {
                return Err(Error::runtime("a lock script doesn't have cell deps".to_string()));
            },
            Some(list) => {
                let mut j: usize = 0;
                while j < list.len()
                    invariant
                        list@ == lock_deps.deps_of(LockScriptId::PwLockK1Acpl),
                        lock_deps.has_deps(LockScriptId::PwLockK1Acpl),
                        j <= list@.len(),
                        pw_pos.len() == j,
                        has_secp ==> secp_pos.len() == lock_deps.deps_of(
                            LockScriptId::Secp256K1Blake160,
                        ).len(),
                        forall|m: int|
                            0 <= m < dep_pairs@.len() ==> (#[trigger] dep_pairs@[m]).0@
                                == cell_dep_ser((dep_pairs@[m]).1@) && dep_ok((dep_pairs@[m]).1@),
                        forall|t: int|
                            0 <= t < secp_pos.len() ==> 0 <= #[trigger] secp_pos[t]
                                < dep_pairs@.len() && (dep_pairs@[secp_pos[t]]).0@ == cell_dep_ser(
                                (lock_deps.deps_of(LockScriptId::Secp256K1Blake160)[t])@,
                            ),
                        forall|t: int|
                            0 <= t < j ==> 0 <= #[trigger] pw_pos[t] < dep_pairs@.len() && (
                            dep_pairs@[pw_pos[t]]).0@ == cell_dep_ser((list@[t])@),
                    decreases list@.len() - j,
                {
                    let ser = serialize_cell_dep(&list[j]);
                    let dup = list[j].duplicate();
                    dep_pairs.push((ser, dup));
                    proof {
                        pw_pos = pw_pos.push(dep_pairs@.len() - 1);
                        assert((lock_deps.deps_of(LockScriptId::PwLockK1Acpl)[j as int])@ == (
                        dep_pairs@[dep_pairs@.len() - 1]).1@);
                        assert(dep_ok((dep_pairs@[dep_pairs@.len() - 1]).1@));
                    }
                    j = j + 1;
                }
            },
        }
    }
    let ghost pre_sort_deps = dep_pairs@;
    sort_pairs_by_key(&mut dep_pairs);
    proof {
        lemma_pairs_key_prop_transfer(
            pre_sort_deps,
            dep_pairs@,
            |dv: crate::records::CellDepV| cell_dep_ser(dv),
        );
        lemma_payload_prop_transfer(pre_sort_deps, dep_pairs@, dep_ok);
    }
    let (deduped, cover) = dedup_sorted_dep_pairs(&dep_pairs, Ghost(dep_ok));
    let mut cell_deps: Vec<CellDep> = Vec::new();
    let mut m: usize = 0;
    while m < deduped.len()
        invariant
            m <= deduped@.len(),
            cell_deps@.len() == m,
            forall|t: int| 0 <= t < m ==> (#[trigger] cell_deps@[t])@ == (deduped@[t]).1@,
        decreases deduped@.len() - m,
    {
        cell_deps.push(deduped[m].1.duplicate());
        m = m + 1;
    }
    proof {
        assert forall|a: int, b: int| 0 <= a < b < cell_deps@.len() implies lex_le(
            cell_dep_ser((#[trigger] cell_deps@[a])@),
            cell_dep_ser((#[trigger] cell_deps@[b])@),
        ) && cell_dep_ser((cell_deps@[a])@) != cell_dep_ser((cell_deps@[b])@) by {
            assert((deduped@[a]).0@ == cell_dep_ser((deduped@[a]).1@));
            assert((deduped@[b]).0@ == cell_dep_ser((deduped@[b]).1@));
        }
        assert forall|q: int| 0 <= q < cell_deps@.len() implies dep_from_flagged(
            has_secp,
            has_pw,
            *lock_deps,
            (#[trigger] cell_deps@[q])@,
        ) by {
            assert(dep_ok((deduped@[q]).1@));
            let (id, w) = choose|id: LockScriptId, w: int|
                flagged(has_secp, has_pw, id) && lock_deps.has_deps(id) && 0 <= w
                    < lock_deps.deps_of(id).len() && (#[trigger] lock_deps.deps_of(id)[w])@ == (
                deduped@[q]).1@;
            assert(cell_dep_ser((lock_deps.deps_of(id)[w])@) == cell_dep_ser(
                (cell_deps@[q])@,
            ));
            assert(dep_in_scheme_list(*lock_deps, id, cell_dep_ser((cell_deps@[q])@)));
            match id {
                LockScriptId::Secp256K1Blake160 => {
                    assert(has_secp);
                },
                LockScriptId::PwLockK1Acpl => {
                    assert(has_pw);
                },
            }
        }
        assert forall|id: LockScriptId, j: int|
            flagged(has_secp, has_pw, id) && lock_deps.has_deps(id) && 0 <= j < lock_deps.deps_of(
                id,
            ).len() implies deps_contain(
            cell_deps@,
            cell_dep_ser((#[trigger] lock_deps.deps_of(id)[j])@),
        ) by {
            broadcast use vstd::seq_lib::group_to_multiset_ensures;

            let src: int = match id {
                LockScriptId::Secp256K1Blake160 => secp_pos[j],
                LockScriptId::PwLockK1Acpl => pw_pos[j],
            };
            assert(0 <= src < pre_sort_deps.len() && (pre_sort_deps[src]).0@ == cell_dep_ser(
                (lock_deps.deps_of(id)[j])@,
            ));
            let pv = pair_views(pre_sort_deps)[src];
            assert(pair_views(pre_sort_deps).contains(pv));
            assert(pair_views(pre_sort_deps).to_multiset().count(pv) > 0);
            assert(pair_views(dep_pairs@).contains(pv));
            let sj = choose|sj: int|
                0 <= sj < pair_views(dep_pairs@).len() && pair_views(dep_pairs@)[sj] == pv;
            assert((dep_pairs@[sj]).0@ == cell_dep_ser((lock_deps.deps_of(id)[j])@));
            let q = cover@[sj];
            assert(0 <= q < deduped@.len() && (dep_pairs@[sj]).0@ == (deduped@[q]).0@);
            assert((deduped@[q]).0@ == cell_dep_ser((deduped@[q]).1@));
            assert(cell_dep_ser((cell_deps@[q])@) == cell_dep_ser(
                (lock_deps.deps_of(id)[j])@,
            ));
            assert(deps_contain(cell_deps@, cell_dep_ser((lock_deps.deps_of(id)[j])@)));
        }
    }
    Ok(cell_deps)
}

/// Builds the output list: the first output carries the remainder capacity
/// and keeps its place; the rest carry the configured capacity and are
/// ordered by ascending serialized lock script.  Every lock is drawn over
/// the managed accounts.
#[verifier::loop_isolation(false)]
fn build_outputs(
    accounts: &AccountMap,
    lock_generator: &LockGenerator,
    outputs_count: usize,
    first_cap: u64,
    output_shannons: u64,
) -> (r: Result<Vec<CellOutput>>)
    requires
        accounts.wf(),
        lock_generator.wf(),
        lock_gen_aligned(*lock_generator, *accounts),
        outputs_count >= 1,
    ensures
        ({
            let accts = accounts.entries_spec();
            match r {
                Ok(outs) => {
                    &&& outs@.len() == outputs_count
                    &&& outs@[0]@.capacity == first_cap
                    &&& forall|i: int|
                        1 <= i < outs@.len() ==> (#[trigger] outs@[i])@.capacity
                            == output_shannons
                    &&& forall|i: int|
                        0 <= i < outs@.len() ==> exists|j: int|
                            0 <= j < accts.len() && (#[trigger] outs@[i])@.lock == (
                            #[trigger] accts[j]).info.script@
                    &&& forall|a: int, b: int|
                        1 <= a < b < outs@.len() ==> lex_le(
                            script_ser((#[trigger] outs@[a])@.lock),
                            script_ser((#[trigger] outs@[b])@.lock),
                        )
                },
                Err(_) => false,
            }
        }),
{
    let ghost accts = accounts.entries_spec();
    let ghost from_accounts = |sv: crate::records::ScriptV|
        exists|j: int| 0 <= j < accts.len() && (#[trigger] accts[j]).info.script@ == sv;
    let first_lock = match pick_destination(accounts, lock_generator) {
        Ok(s) => s,
        Err(e) => {
            return Err(e);
        },
    };
    proof {
        let j = choose|j: int|
            0 <= j < accts.len() && first_lock@ == (#[trigger] accts[j]).info.script@;
        assert(accts[j].info.script@ == first_lock@);
        assert(from_accounts(first_lock@));
    }
    let mut lock_pairs: Vec<(Vec<u8>, Script)> = Vec::new();
    let mut d: usize = 1;
    while d < outputs_count
        invariant
            d <= outputs_count,
            lock_pairs@.len() == d - 1,
            forall|t: int|
                0 <= t < lock_pairs@.len() ==> (#[trigger] lock_pairs@[t]).0@ == script_ser(
                    (lock_pairs@[t]).1@,
                ) && from_accounts((lock_pairs@[t]).1@),
        decreases outputs_count - d,
    {
        let script = match pick_destination(accounts, lock_generator) {
            Ok(s) => s,
            Err(e) => {
                return Err(e);
            },
        };
        proof {
            let j = choose|j: int|
                0 <= j < accts.len() && script@ == (#[trigger] accts[j]).info.script@;
            assert(accts[j].info.script@ == script@);
            assert(from_accounts(script@));
        }
        let key = match serialize_script(&script) {
            Ok(k) => k,
            Err(e) => {
                return Err(e);
            },
        };
        lock_pairs.push((key, script));
        d = d + 1;
    }
    let ghost pre_sort_locks = lock_pairs@;
    sort_pairs_by_key(&mut lock_pairs);
    proof {
        lemma_pairs_key_prop_transfer(
            pre_sort_locks,
            lock_pairs@,
            |sv: crate::records::ScriptV| script_ser(sv),
        );
        lemma_payload_prop_transfer(pre_sort_locks, lock_pairs@, from_accounts);
    }
    let mut outputs: Vec<CellOutput> = Vec::new();
    let ghost flv = first_lock@;
    outputs.push(CellOutput { capacity: first_cap, lock: first_lock });
    let mut m: usize = 0;
    while m < lock_pairs.len()
        invariant
            m <= lock_pairs@.len(),
            outputs@.len() == m + 1,
            forall|t: int|
                1 <= t < outputs@.len() ==> (#[trigger] outputs@[t]).capacity == output_shannons
                    && (outputs@[t]).lock@ == (lock_pairs@[t - 1]).1@,
            outputs@[0].capacity == first_cap,
            outputs@[0].lock@ == flv,
        decreases lock_pairs@.len() - m,
    {
        outputs.push(CellOutput { capacity: output_shannons, lock: lock_pairs[m].1.duplicate() });
        m = m + 1;
    }
    proof {
        assert forall|a: int, b: int| 1 <= a < b < outputs@.len() implies lex_le(
            script_ser((#[trigger] outputs@[a])@.lock),
            script_ser((#[trigger] outputs@[b])@.lock),
        ) by {
            assert((outputs@[a]).lock@ == (lock_pairs@[a - 1]).1@);
            assert((outputs@[b]).lock@ == (lock_pairs@[b - 1]).1@);
            assert(lex_le((lock_pairs@[a - 1]).0@, (lock_pairs@[b - 1]).0@));
        }
        assert forall|i: int| 0 <= i < outputs@.len() implies exists|j: int|
            0 <= j < accts.len() && (#[trigger] outputs@[i])@.lock == (
            #[trigger] accts[j]).info.script@ by {
            if i >= 1 {
                assert(from_accounts((lock_pairs@[i - 1]).1@));
            } else {
                assert(from_accounts(flv));
            }
        }
    }
    Ok(outputs)
}

/// Builds the unsigned transaction for a batch: inputs in batch order, the
/// dependency set resolved per scheme (deduplicated and sorted by serialized
/// bytes), and the outputs split as configured — the value divided into
/// equal outputs at the configured capacity, the remainder folded into the
/// first output so that capacity is conserved exactly, each output assigned
/// to a weighted-random managed account, and every output after the first
/// ordered by ascending serialized lock script.
#[verifier::rlimit(30)]
pub fn construct_raw_transaction(
    inputs_info: &Vec<InputInfo>,
    accounts: &AccountMap,
    lock_generator: &LockGenerator,
    lock_deps: &LockDepsDict,
    outputs_limit: usize,
    output_bytes: u32,
    fee_shannons: u64,
) -> (r: Result<RawTransaction>)
    requires
        accounts.wf(),
        lock_deps.wf(),
        lock_generator.wf(),
        lock_gen_aligned(*lock_generator, *accounts),
        outputs_limit >= 1,
        output_bytes >= 1,
    ensures
        ({
            let accts = accounts.entries_spec();
            let total = sum_capacities(inputs_info@);
            let per = output_bytes * (BYTE_SHANNONS as int);
            match r {
                Ok(tx) => {
                    &&& batch_buildable(inputs_info@, *accounts, *lock_deps, fee_shannons)
                    &&& tx@.inputs.len() == inputs_info@.len()
                    &&& forall|i: int|
                        0 <= i < inputs_info@.len() ==> tx@.inputs[i] == (
                        #[trigger] inputs_info@[i])@.out_point
                    &&& tx@.outputs.len() == outputs_count_spec(
                        outputs_limit as int,
                        total,
                        per,
                        fee_shannons as int,
                    )
                    &&& tx@.outputs[0].capacity == total - fee_shannons - (tx@.outputs.len() - 1)
                        * per
                    &&& forall|i: int|
                        1 <= i < tx@.outputs.len() ==> (#[trigger] tx@.outputs[i]).capacity == per
                    &&& sum_outputs(tx@.outputs) + fee_shannons == total
                    &&& forall|i: int|
                        0 <= i < tx@.outputs.len() ==> exists|j: int|
                            0 <= j < accts.len() && (#[trigger] tx@.outputs[i]).lock == (
                            #[trigger] accts[j]).info.script@
                    &&& forall|a: int, b: int|
                        1 <= a < b < tx@.outputs.len() ==> lex_le(
                            script_ser((#[trigger] tx@.outputs[a]).lock),
                            script_ser((#[trigger] tx@.outputs[b]).lock),
                        )
                    &&& forall|a: int, b: int|
                        0 <= a < b < tx@.cell_deps.len() ==> lex_le(
                            cell_dep_ser(#[trigger] tx@.cell_deps[a]),
                            cell_dep_ser(#[trigger] tx@.cell_deps[b]),
                        ) && cell_dep_ser(tx@.cell_deps[a]) != cell_dep_ser(tx@.cell_deps[b])
                    &&& forall|i: int|
                        0 <= i < tx@.cell_deps.len() ==> dep_from_flagged(
                            scheme_present(accts, inputs_info@, LockScriptId::Secp256K1Blake160),
                            scheme_present(accts, inputs_info@, LockScriptId::PwLockK1Acpl),
                            *lock_deps,
                            #[trigger] tx@.cell_deps[i],
                        )
                    &&& forall|id: LockScriptId, j: int|
                        scheme_present(accts, inputs_info@, id) && lock_deps.has_deps(id) && 0 <= j
                            < lock_deps.deps_of(id).len() ==> deps_contain(
                            tx.cell_deps@,
                            cell_dep_ser((#[trigger] lock_deps.deps_of(id)[j])@),
                        )
                },
                Err(e) => !batch_buildable(inputs_info@, *accounts, *lock_deps, fee_shannons),
            }
        }),
{
    let ghost accts = accounts.entries_spec();
    let (has_secp, has_pw) = match scan_owners(inputs_info, accounts) {
        Ok(f) => f,
        Err(e) => {
            return Err(e);
        },
    };
    let cell_deps = match resolve_cell_deps(has_secp, has_pw, lock_deps) {
        Ok(ds) => ds,
        Err(e) => {
            return Err(e);
        },
    };
    let total = match sum_capacities_checked(inputs_info) {
        Some(t) => t,
        None => {
            return Err(Error::runtime("total capacity overflowed".to_string()));
        },
    };
    if fee_shannons > total {
        return Err(Error::runtime("total capacity does not cover the fee".to_string()));
    }
    let output_shannons = (output_bytes as u64) * BYTE_SHANNONS;
    let outputs_count = calculate_outputs_count(outputs_limit, total, output_shannons, fee_shannons);
    proof {
        let t = (total - fee_shannons) as int;
        let per = output_shannons as int;
        let x = t / per;
        vstd::arithmetic::div_mod::lemma_fundamental_div_mod(t, per);
        assert(t == per * x + t % per);
        assert(outputs_count - 1 <= x);
        vstd::arithmetic::mul::lemma_mul_inequality(outputs_count - 1, x, per);
        assert((outputs_count - 1) * per <= x * per);
        vstd::arithmetic::mul::lemma_mul_is_commutative(x, per);
        assert((outputs_count - 1) * output_shannons <= total - fee_shannons);
    }
    let spent_rest = (outputs_count as u64 - 1) * output_shannons;
    let first_cap = total - fee_shannons - spent_rest;
    let outputs = match build_outputs(
        accounts,
        lock_generator,
        outputs_count,
        first_cap,
        output_shannons,
    ) {
        Ok(outs) => outs,
        Err(e) => {
            return Err(e);
        },
    };
    let n = inputs_info.len();
    let mut tx_inputs: Vec<crate::records::OutPoint> = Vec::new();
    let mut t: usize = 0;
    while t < n
        invariant
            n == inputs_info@.len(),
            t <= n,
            tx_inputs@.len() == t,
            forall|q: int|
                0 <= q < t ==> (#[trigger] tx_inputs@[q])@ == (inputs_info@[q])@.out_point,
        decreases n - t,
    {
        tx_inputs.push(inputs_info[t].out_point.duplicate());
        t = t + 1;
    }
    let tx = RawTransaction { cell_deps, inputs: tx_inputs, outputs };
    proof {
        assert(batch_buildable(inputs_info@, *accounts, *lock_deps, fee_shannons));
        assert forall|q: int| 0 <= q < inputs_info@.len() implies tx@.inputs[q] == (
        #[trigger] inputs_info@[q])@.out_point by {
            assert(tx@.inputs[q] == tx.inputs@[q]@);
        }
        assert(spent_rest as int == (outputs_count - 1) * (output_shannons as int));
        assert(output_shannons as int == output_bytes * (BYTE_SHANNONS as int));
        assert forall|i: int| 0 <= i < tx@.outputs.len() implies #[trigger] tx@.outputs[i]
            == tx.outputs@[i]@ by {}
        assert(tx@.outputs[0].capacity == first_cap);
        assert(tx@.outputs.len() == outputs_count as int);
        lemma_sum_outputs_shape(tx@.outputs, output_shannons as int);
        assert forall|i: int| 0 <= i < tx@.cell_deps.len() implies #[trigger] tx@.cell_deps[i]
            == tx.cell_deps@[i]@ by {}
        assert forall|id: LockScriptId, j: int|
            scheme_present(accts, inputs_info@, id) && lock_deps.has_deps(id) && 0 <= j
                < lock_deps.deps_of(id).len() implies deps_contain(
            tx.cell_deps@,
            cell_dep_ser((#[trigger] lock_deps.deps_of(id)[j])@),
        ) by {
            assert(flagged(has_secp, has_pw, id));
        }
    }
    Ok(tx)
}
/// Draws one destination account and returns a copy of its lock script.
fn pick_destination(accounts: &AccountMap, lock_generator: &LockGenerator) -> (r: Result<Script>)
    requires
        accounts.wf(),
        lock_generator.wf(),
        lock_gen_aligned(*lock_generator, *accounts),
    ensures
        match r {
            Ok(s) => exists|j: int|
                0 <= j < accounts.entries_spec().len() && s@ == (
                #[trigger] accounts.entries_spec()[j]).info.script@ && script_fits(s@),
            Err(_) => false,
        },
{
    let hash = lock_generator.generate();
    let ghost j = choose|j: int|
        0 <= j < lock_generator.items_spec().len() && hash@ == (
        #[trigger] lock_generator.items_spec()[j]).0@ && lock_generator.items_spec()[j].1 > 0;
    proof {
        assert(accounts.entries_spec()[j].lock_hash@ == hash@);
    }
    match accounts.find_by_hash(&hash) {
        Some(entry) => {
            proof {
                let w = choose|w: int|
                    0 <= w < accounts.entries_spec().len() && entry
                        == &accounts.entries_spec()[w] && entry.lock_hash@ == hash@;
                assert(accounts.entries_spec()[w].wf());
            }
            Ok(entry.info.script.duplicate())
        },
        None => {
            proof {
                assert(accounts.entries_spec()[j].lock_hash@ != hash@);
            }
            Err(Error::config("a destination account is missing".to_string()))
        },
    }
}

} // verus!
