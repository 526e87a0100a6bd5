//! Feerate-aware coin selection: greedy largest-first accumulation with the
//! fee estimate recomputed on every candidate added, an exact-match check
//! that avoids a change output, and a dust policy that absorbs an
//! uneconomical change output into the fee.

use vstd::prelude::*;

use crate::coin_store::{lemma_sum_push, lemma_sum_take_le, sum_coins};
use crate::types::{Coin, OutPoint, WalletError, MAX_FEERATE, MAX_MONEY};

verus! {

/// Virtual size of the fixed part of a transaction, in vbytes.
pub const BASE_VSIZE: u64 = 11;

/// Virtual size each input adds, in vbytes.
pub const INPUT_VSIZE: u64 = 68;

/// Virtual size each output adds, in vbytes.
pub const OUTPUT_VSIZE: u64 = 34;

/// Estimated virtual size of a transaction with the given input and output
/// counts, in vbytes.
pub open spec fn tx_vsize(n_in: int, n_out: int) -> int {
    BASE_VSIZE + INPUT_VSIZE * n_in + OUTPUT_VSIZE * n_out
}

/// Fee owed at `feerate` by a transaction of the given shape, in satoshis.
pub open spec fn fee_for(feerate: u64, n_in: int, n_out: int) -> int {
    feerate * tx_vsize(n_in, n_out)
}

/// Value below which a change output costs more than it is worth at this
/// feerate: the bytes it adds now plus the bytes spending it will add.
pub open spec fn spec_dust_threshold(feerate: u64) -> int {
    (INPUT_VSIZE + OUTPUT_VSIZE) * feerate
}

/// Executable counterpart of `spec_dust_threshold`.
pub fn dust_threshold(feerate: u64) -> (r: u64)
    requires
        feerate <= MAX_FEERATE,
    ensures
        r == spec_dust_threshold(feerate),
{
    let per_change: u64 = INPUT_VSIZE + OUTPUT_VSIZE;
    assert(per_change == 102);
    per_change * feerate
}

/// How many of the first `t` mask entries are set.
pub open spec fn count_true(m: Seq<bool>, t: int) -> int
    decreases t,
{
    if t <= 0 {
        0
    } else {
        count_true(m, t - 1) + if m[t - 1] {
            1int
        } else {
            0int
        }
    }
}

/// Total amount of the coins among the first `t` whose mask entry is set.
pub open spec fn sum_masked(s: Seq<Coin>, m: Seq<bool>, t: int) -> int
    decreases t,
{
    if t <= 0 {
        0
    } else {
        sum_masked(s, m, t - 1) + if m[t - 1] {
            s[t - 1].amount as int
        } else {
            0int
        }
    }
}

pub proof fn lemma_count_le(m: Seq<bool>, t: int)
    requires
        t >= 0,
    ensures
        0 <= count_true(m, t) <= t,
    decreases t,
{
    if t > 0 {
        lemma_count_le(m, t - 1);
    }
}

pub proof fn lemma_count_update(m: Seq<bool>, idx: int, t: int)
    requires
        0 <= idx < m.len(),
        idx < t <= m.len(),
        !m[idx],
    ensures
        count_true(m.update(idx, true), t) == count_true(m, t) + 1,
    decreases t,
{
    if t - 1 == idx {
        assert(forall|j: int| 0 <= j < t - 1 ==> m.update(idx, true)[j] == m[j]);
        lemma_count_frame(m, m.update(idx, true), t - 1);
    } else {
        lemma_count_update(m, idx, t - 1);
    }
}

/// Counts agree on a prefix where the masks agree.
pub proof fn lemma_count_frame(m1: Seq<bool>, m2: Seq<bool>, t: int)
    requires
        t >= 0,
        forall|j: int| 0 <= j < t ==> m1[j] == m2[j],
    ensures
        count_true(m1, t) == count_true(m2, t),
    decreases t,
{
    if t > 0 {
        lemma_count_frame(m1, m2, t - 1);
    }
}

/// Every entry set means a full count.
pub proof fn lemma_count_of_all_true(m: Seq<bool>, t: int)
    requires
        t >= 0,
        forall|j: int| 0 <= j < t ==> #[trigger] m[j],
    ensures
        count_true(m, t) == t,
    decreases t,
{
    if t > 0 {
        lemma_count_of_all_true(m, t - 1);
    }
}

/// A full count means every entry is set.
pub proof fn lemma_count_all_true(m: Seq<bool>, t: int)
    requires
        t >= 0,
        count_true(m, t) == t,
    ensures
        forall|j: int| 0 <= j < t ==> m[j],
    decreases t,
{
    if t > 0 {
        lemma_count_le(m, t - 1);
        assert(m[t - 1]);
        lemma_count_all_true(m, t - 1);
    }
}

pub proof fn lemma_sum_masked_frame(s: Seq<Coin>, m1: Seq<bool>, m2: Seq<bool>, t: int)
    requires
        t >= 0,
        forall|j: int| 0 <= j < t ==> m1[j] == m2[j],
    ensures
        sum_masked(s, m1, t) == sum_masked(s, m2, t),
    decreases t,
{
    if t > 0 {
        lemma_sum_masked_frame(s, m1, m2, t - 1);
    }
}

pub proof fn lemma_sum_masked_update(s: Seq<Coin>, m: Seq<bool>, idx: int, t: int)
    requires
        0 <= idx < m.len(),
        idx < t <= m.len(),
        !m[idx],
    ensures
        sum_masked(s, m.update(idx, true), t) == sum_masked(s, m, t) + s[idx].amount,
    decreases t,
{
    if t - 1 == idx {
        lemma_sum_masked_frame(s, m, m.update(idx, true), t - 1);
    } else {
        lemma_sum_masked_update(s, m, idx, t - 1);
    }
}

/// A masked sum is at least zero and at most the sum of the first `t` coins.
pub proof fn lemma_sum_masked_le(s: Seq<Coin>, m: Seq<bool>, t: int)
    requires
        0 <= t <= s.len(),
    ensures
        0 <= sum_masked(s, m, t) <= sum_coins(s.take(t)),
    decreases t,
{
    if t > 0 {
        lemma_sum_masked_le(s, m, t - 1);
        assert(s.take(t).drop_last() =~= s.take(t - 1));
        assert(sum_coins(s.take(t)) == sum_coins(s.take(t - 1)) + s[t - 1].amount);
    }
}

/// With every entry set the masked sum is the full sum.
pub proof fn lemma_sum_masked_all_true(s: Seq<Coin>, m: Seq<bool>, t: int)
    requires
        0 <= t <= s.len(),
        forall|j: int| 0 <= j < t ==> m[j],
    ensures
        sum_masked(s, m, t) == sum_coins(s.take(t)),
    decreases t,
{
    if t > 0 {
        lemma_sum_masked_all_true(s, m, t - 1);
        assert(s.take(t).drop_last() =~= s.take(t - 1));
        assert(sum_coins(s.take(t)) == sum_coins(s.take(t - 1)) + s[t - 1].amount);
    }
}

/// A positive feerate owes at least the virtual size in satoshis.
pub proof fn lemma_fee_lower(feerate: u64, n_in: int, n_out: int)
    requires
        feerate >= 1,
        n_in >= 0,
        n_out >= 0,
    ensures
        fee_for(feerate, n_in, n_out) >= tx_vsize(n_in, n_out) > 0,
{
    assert(feerate * tx_vsize(n_in, n_out) >= 1 * tx_vsize(n_in, n_out)) by (nonlinear_arith)
        requires
            feerate >= 1,
            tx_vsize(n_in, n_out) > 0,
    ;
}

/// The fee never exceeds this many satoshis when the feerate is in range
/// and the counts fit a machine word.
pub proof fn lemma_fee_upper(feerate: u64, n_in: int, n_out: int)
    requires
        feerate <= MAX_FEERATE,
        0 <= n_in < 0x1_0000_0000_0000_0000,
        0 <= n_out < 0x2_0000_0000_0000_0000,
    ensures
        0 <= fee_for(feerate, n_in, n_out) < 0x1_0000_0000_0000_0000_0000_0000,
{
    assert(tx_vsize(n_in, n_out) <= BASE_VSIZE + INPUT_VSIZE * 0x1_0000_0000_0000_0000
        + OUTPUT_VSIZE * 0x2_0000_0000_0000_0000);
    assert(feerate * tx_vsize(n_in, n_out) <= MAX_FEERATE * tx_vsize(n_in, n_out))
        by (nonlinear_arith)
        requires
            feerate <= MAX_FEERATE,
            tx_vsize(n_in, n_out) >= 0,
    ;
}

/// Executable fee computation for a transaction of the given shape.
pub fn fee_exec(feerate: u64, n_in: usize, n_out: usize, extra_out: usize) -> (r: u128)
    requires
        1 <= feerate <= MAX_FEERATE,
    ensures
        r == fee_for(feerate, n_in as int, n_out + extra_out),
        0 < r < 0x1_0000_0000_0000_0000_0000_0000,
{
    proof {
        lemma_fee_upper(feerate, n_in as int, n_out + extra_out);
        lemma_fee_lower(feerate, n_in as int, n_out + extra_out);
    }
    let vs: u128 = (BASE_VSIZE as u128) + (INPUT_VSIZE as u128) * (n_in as u128) + (
    OUTPUT_VSIZE as u128) * ((n_out as u128) + (extra_out as u128));
    (feerate as u128) * vs
}


/// The index the greedy pass picks next: the largest still-unused
/// candidate, scanning left to right with strict improvement, so the
/// first of equal amounts wins. `best` is the best index seen so far,
/// `s.len()` while none is.
pub open spec fn pick_from(s: Seq<Coin>, used: Seq<bool>, j: int, best: int) -> int
    decreases s.len() - j,
{
    if j < 0 || j >= s.len() {
        best
    } else if !used[j] && (best == s.len() || s[j].amount > s[best].amount) {
        pick_from(s, used, j + 1, j)
    } else {
        pick_from(s, used, j + 1, best)
    }
}

/// What the greedy pass returns once `k` coins are already selected as
/// `sel` (mask `used`, accumulated value `total`): the selected coins,
/// the change output value when one is worth creating, and the fee.
pub open spec fn greedy_from(
    cands: Seq<Coin>,
    dest_total: u64,
    n_dest: int,
    feerate: u64,
    used: Seq<bool>,
    sel: Seq<Coin>,
    total: int,
    k: nat,
) -> Option<(Seq<Coin>, Option<u64>, u64)>
    decreases cands.len() - k,
{
    if k >= cands.len() {
        if cands.len() > 0 && total >= dest_total + fee_for(feerate, cands.len() as int, n_dest) {
            Some((sel, None, (total - dest_total) as u64))
        } else {
            None
        }
    } else {
        let b = pick_from(cands, used, 0, cands.len() as int);
        let sel2 = sel.push(cands[b]);
        let total2 = total + cands[b].amount;
        let fee_nc = fee_for(feerate, k + 1 as int, n_dest);
        let fee_wc = fee_for(feerate, k + 1 as int, n_dest + 1);
        if total2 == dest_total + fee_nc {
            Some((sel2, None, (total2 - dest_total) as u64))
        } else if total2 >= dest_total + fee_wc {
            let change = total2 - dest_total - fee_wc;
            if change < spec_dust_threshold(feerate) {
                Some((sel2, None, (total2 - dest_total) as u64))
            } else {
                Some((sel2, Some(change as u64), fee_wc as u64))
            }
        } else {
            greedy_from(
                cands,
                dest_total,
                n_dest,
                feerate,
                used.update(b, true),
                sel2,
                total2,
                (k + 1) as nat,
            )
        }
    }
}

/// The one selection the greedy pass produces for these arguments: the
/// pass is a function, so the same candidates in the same order always
/// yield the same coins, change and fee.
pub open spec fn spec_selection(
    cands: Seq<Coin>,
    dest_total: u64,
    n_dest: int,
    feerate: u64,
) -> Option<(Seq<Coin>, Option<u64>, u64)> {
    greedy_from(
        cands,
        dest_total,
        n_dest,
        feerate,
        Seq::new(cands.len(), |i: int| false),
        Seq::empty(),
        0,
        0,
    )
}

/// The outcome of a selection pass: the coins to consume, the change output
/// value when one is worth creating, and the exact fee the transaction pays.
pub struct Selection {
    pub coins: Vec<Coin>,
    pub change_amount: Option<u64>,
    pub fee: u64,
}

/// The change value of a selection, zero when no change output exists.
pub open spec fn change_of(sel: Selection) -> int {
    match sel.change_amount {
        Some(a) => a as int,
        None => 0,
    }
}

/// Greedy largest-first selection over `candidates` to cover `dest_total`
/// satoshis across `n_dest` destination outputs plus the fee at `feerate`.
///
/// On success the consumed value exactly equals the destinations plus the
/// change plus the fee; with a change output the fee is exactly the feerate
/// times the estimated virtual size, and without one it is within a dust
/// threshold of it. Fails only when even every candidate together cannot
/// cover the destinations plus the fee of the resulting transaction.
#[verifier::rlimit(100)]
pub fn select_coins(candidates: &Vec<Coin>, dest_total: u64, n_dest: usize, feerate: u64) -> (r:
    Result<Selection, WalletError>)
    requires
        1 <= feerate <= MAX_FEERATE,
        n_dest >= 1,
        dest_total <= MAX_MONEY,
        sum_coins(candidates@) <= MAX_MONEY,
        forall|i: int, j: int|
            0 <= i < j < candidates@.len() ==> (#[trigger] candidates@[i]).outpoint != (
            #[trigger] candidates@[j]).outpoint,
    ensures
        match r {
            Ok(sel) => {
                &&& sel.coins@.len() >= 1
                &&& forall|a: int, b: int|
                    0 <= a < b < sel.coins@.len() ==> (#[trigger] sel.coins@[a]).outpoint != (
                    #[trigger] sel.coins@[b]).outpoint
                &&& forall|a: int|
                    0 <= a < sel.coins@.len() ==> candidates@.contains(#[trigger] sel.coins@[a])
                &&& sum_coins(sel.coins@) == dest_total + sel.fee + change_of(sel)
                &&& (sel.change_amount is Some ==> change_of(sel) >= spec_dust_threshold(feerate)
                    && sel.fee == fee_for(feerate, sel.coins@.len() as int, n_dest + 1))
                &&& (sel.change_amount is None ==> sel.fee >= fee_for(
                    feerate,
                    sel.coins@.len() as int,
                    n_dest as int,
                ) && sel.fee < fee_for(feerate, sel.coins@.len() as int, n_dest + 1)
                    + spec_dust_threshold(feerate))
                &&& Some((sel.coins@, sel.change_amount, sel.fee)) == spec_selection(
                    candidates@,
                    dest_total,
                    n_dest as int,
                    feerate,
                )
            },
            Err(e) => {
                &&& e is InsufficientFunds
                &&& sum_coins(candidates@) < dest_total + fee_for(
                    feerate,
                    candidates@.len() as int,
                    n_dest as int,
                )
                &&& spec_selection(candidates@, dest_total, n_dest as int, feerate) is None
            },
        },
{
    let n = candidates.len();
    let mut used: Vec<bool> = Vec::new();
    let mut i0: usize = 0;
    while i0 < n
        invariant
            i0 <= n,
            used@.len() == i0,
            forall|j: int| 0 <= j < i0 ==> !(#[trigger] used@[j]),
        decreases n - i0,
    {
        used.push(false);
        i0 = i0 + 1;
    }

    let mut sel: Vec<Coin> = Vec::new();
    let ghost mut idxs: Seq<int> = Seq::empty();
    let mut total: u128 = 0;
    let mut k: usize = 0;

    proof {
        lemma_count_zeros(used@, n as int);
        lemma_sum_masked_zeros(candidates@, used@, n as int);
        assert(used@ =~= Seq::new(n as nat, |i: int| false));
        assert(sel@ =~= Seq::<Coin>::empty());
    }

    while k < n
        invariant
            1 <= feerate <= MAX_FEERATE,
            n_dest >= 1,
            dest_total <= MAX_MONEY,
            sum_coins(candidates@) <= MAX_MONEY,
            forall|i: int, j: int|
                0 <= i < j < candidates@.len() ==> (#[trigger] candidates@[i]).outpoint != (
                #[trigger] candidates@[j]).outpoint,
            n == candidates@.len(),
            used@.len() == n,
            k <= n,
            count_true(used@, n as int) == k,
            total == sum_masked(candidates@, used@, n as int),
            total == sum_coins(sel@),
            total <= MAX_MONEY,
            sel@.len() == k,
            idxs.len() == k,
            forall|a: int|
                0 <= a < k ==> 0 <= #[trigger] idxs[a] < n && used@[idxs[a]] && sel@[a]
                    == candidates@[idxs[a]],
            forall|a: int, b: int| 0 <= a < b < k ==> idxs[a] != idxs[b],
            k >= 1 ==> total < dest_total + fee_for(feerate, k as int, n_dest + 1),
            greedy_from(
                candidates@,
                dest_total,
                n_dest as int,
                feerate,
                used@,
                sel@,
                total as int,
                k as nat,
            ) == spec_selection(candidates@, dest_total, n_dest as int, feerate),
        decreases n - k,
    {
        // pick the largest still-unused candidate (first one on a tie)
        let mut best: usize = n;
        let mut j: usize = 0;
        while j < n
            invariant
                n == candidates@.len(),
                used@.len() == n,
                j <= n,
                best <= n,
                best == n ==> forall|jj: int| 0 <= jj < j ==> used@[jj],
                best < n ==> !used@[best as int],
                pick_from(candidates@, used@, j as int, best as int) == pick_from(
                    candidates@,
                    used@,
                    0,
                    n as int,
                ),
            decreases n - j,
        {
            proof {
                assert(pick_from(candidates@, used@, j as int, best as int) == (if !used@[j as int]
                    && (best as int == n as int || candidates@[j as int].amount > candidates@[
                    best as int].amount) {
                    pick_from(candidates@, used@, j as int + 1, j as int)
                } else {
                    pick_from(candidates@, used@, j as int + 1, best as int)
                }));
            }
            if !used[j] && (best == n || candidates[j].amount > candidates[best].amount) {
                best = j;
            }
            j = j + 1;
        }
        proof {
            if best == n {
                lemma_count_of_all_true(used@, n as int);
                assert(false);
            }
            assert(pick_from(candidates@, used@, n as int, best as int) == best as int);
            assert(best as int == pick_from(candidates@, used@, 0, n as int));
        }
        let ghost g_used = used@;
        let ghost g_sel = sel@;
        let ghost g_total = total as int;
        let ghost g_k = k as nat;

        let c = candidates[best];
        proof {
            lemma_count_update(used@, best as int, n as int);
            lemma_sum_masked_update(candidates@, used@, best as int, n as int);
            lemma_sum_push(sel@, c);
            lemma_sum_masked_le(candidates@, used@.update(best as int, true), n as int);
            lemma_sum_take_le(candidates@, n as int);
            assert(candidates@.take(n as int) =~= candidates@);
        }
        used[best] = true;
        total = total + (c.amount as u128);
        sel.push(c);
        proof {
            idxs = idxs.push(best as int);
        }
        k = k + 1;

        let fee_nc = fee_exec(feerate, k, n_dest, 0);
        let fee_wc = fee_exec(feerate, k, n_dest, 1);
        let target = dest_total as u128;

        if total == target + fee_nc || total >= target + fee_wc {
            proof {
                assert(spec_selection(candidates@, dest_total, n_dest as int, feerate)
                    == greedy_from(
                    candidates@,
                    dest_total,
                    n_dest as int,
                    feerate,
                    g_used,
                    g_sel,
                    g_total,
                    g_k,
                ));
                lemma_fee_out_step(feerate, k as int, n_dest as int);
                assert forall|a: int, b: int|
                    0 <= a < b < sel@.len() implies (#[trigger] sel@[a]).outpoint != (
                #[trigger] sel@[b]).outpoint by {
                    assert(sel@[a] == candidates@[idxs[a]]);
                    assert(sel@[b] == candidates@[idxs[b]]);
                }
                assert forall|a: int| 0 <= a < sel@.len() implies candidates@.contains(
                    #[trigger] sel@[a],
                ) by {
                    assert(candidates@[idxs[a]] == sel@[a]);
                }
            }
            if total == target + fee_nc {
                let fee = (total - target) as u64;
                return Ok(Selection { coins: sel, change_amount: None, fee });
            }
            let change = total - target - fee_wc;
            let dust = dust_threshold(feerate) as u128;
            if change < dust {
                let fee = (total - target) as u64;
                return Ok(Selection { coins: sel, change_amount: None, fee });
            } else {
                return Ok(
                    Selection {
                        coins: sel,
                        change_amount: Some(change as u64),
                        fee: fee_wc as u64,
                    },
                );
            }
        }
        proof {
            assert(greedy_from(
                candidates@,
                dest_total,
                n_dest as int,
                feerate,
                used@,
                sel@,
                total as int,
                k as nat,
            ) == greedy_from(
                candidates@,
                dest_total,
                n_dest as int,
                feerate,
                g_used,
                g_sel,
                g_total,
                g_k,
            ));
        }
    }

    if n > 0 {
        proof {
            lemma_count_all_true(used@, n as int);
            lemma_sum_masked_all_true(candidates@, used@, n as int);
            assert(candidates@.take(n as int) =~= candidates@);
        }
        let fee_nc = fee_exec(feerate, n, n_dest, 0);
        let target = dest_total as u128;
        if total >= target + fee_nc {
            // every coin is consumed; the residual cannot pay for a change
            // output, so it is absorbed into the fee
            proof {
                lemma_fee_out_step(feerate, n as int, n_dest as int);
                assert forall|a: int, b: int|
                    0 <= a < b < sel@.len() implies (#[trigger] sel@[a]).outpoint != (
                #[trigger] sel@[b]).outpoint by {
                    assert(sel@[a] == candidates@[idxs[a]]);
                    assert(sel@[b] == candidates@[idxs[b]]);
                }
                assert forall|a: int| 0 <= a < sel@.len() implies candidates@.contains(
                    #[trigger] sel@[a],
                ) by {
                    assert(candidates@[idxs[a]] == sel@[a]);
                }
            }
            let fee = (total - target) as u64;
            return Ok(Selection { coins: sel, change_amount: None, fee });
        }
    } else {
        proof {
            assert(candidates@.take(0) =~= candidates@);
            lemma_fee_lower(feerate, 0, n_dest as int);
        }
    }
    Err(WalletError::InsufficientFunds)
}

/// An all-false mask counts zero.
pub proof fn lemma_count_zeros(m: Seq<bool>, t: int)
    requires
        t >= 0,
        forall|j: int| 0 <= j < t ==> !(#[trigger] m[j]),
    ensures
        count_true(m, t) == 0,
    decreases t,
{
    if t > 0 {
        lemma_count_zeros(m, t - 1);
    }
}

/// Adding an output raises the fee by at least the output's bytes.
pub proof fn lemma_fee_out_step(feerate: u64, n_in: int, n_out: int)
    requires
        feerate >= 1,
        n_in >= 0,
        n_out >= 0,
    ensures
        fee_for(feerate, n_in, n_out + 1) >= fee_for(feerate, n_in, n_out) + OUTPUT_VSIZE,
{
    assert(feerate * tx_vsize(n_in, n_out + 1) >= feerate * tx_vsize(n_in, n_out) + OUTPUT_VSIZE)
        by (nonlinear_arith)
        requires
            feerate >= 1,
            n_in >= 0,
            n_out >= 0,
    ;
}

/// An all-false mask sums zero.
pub proof fn lemma_sum_masked_zeros(s: Seq<Coin>, m: Seq<bool>, t: int)
    requires
        t >= 0,
        forall|j: int| 0 <= j < t ==> !(#[trigger] m[j]),
    ensures
        sum_masked(s, m, t) == 0,
    decreases t,
{
    if t > 0 {
        lemma_sum_masked_zeros(s, m, t - 1);
    }
}

} // verus!
