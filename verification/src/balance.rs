//! The fee and change balancer: the iterative fixed-point core.
//!
//! A candidate's fee depends on its size and script cost, its size depends
//! on the inputs selected, and the inputs needed depend on the fee. The
//! balancer resolves the cycle by bounded fixed-point iteration: assume a
//! fee, select inputs that cover it, price the resulting candidate, and
//! repeat until the priced fee equals the assumed fee, or the iteration
//! bound is exhausted, which is reported as divergence, never as a
//! best-effort transaction.

use vstd::prelude::*;
use crate::bytes::{bytes_clone, bytes_lt, spec_bytes_lt};
use crate::chain::{
    ExUnitsEntry, ProtocolParameters, RationalPrice, Redeemer, RedeemerTag, Utxo, UtxoRef,
    spec_find_units,
};
use crate::error::Error;
use crate::value::{
    Value, amount_in, assets_sum, lovelace_sum, mint_amount_in, value_add, value_clone,
};

verus! {

/// Protocol parameters after validation: every field the current request
/// needs, unwrapped; script-cost fields default to free when the request
/// runs no scripts.
#[derive(Clone, Copy, Debug)]
pub struct FeeParams {
    pub coefficient: u64,
    pub constant: u64,
    pub max_tx_size: u64,
    pub price_memory: RationalPrice,
    pub price_steps: RationalPrice,
    pub collateral_percentage: u64,
    pub max_collateral_inputs: u64,
}

impl FeeParams {
    /// Prices must be well-defined rationals.
    pub open spec fn wf(self) -> bool {
        self.price_memory.den > 0 && self.price_steps.den > 0
    }
}

/// Unwraps the parameters the request needs. The size-fee coefficients and
/// the size cap are always needed; execution prices and collateral limits
/// only when the candidate carries redeemers. Fails with the name of the
/// first absent needed parameter, in a fixed order.
pub fn validate_params(p: &ProtocolParameters, has_scripts: bool) -> (r: Result<FeeParams, Error>)
    ensures
        match r {
            Ok(fp) => {
                &&& fp.wf()
                &&& p.min_fee_coefficient == Some(fp.coefficient)
                &&& p.min_fee_constant == Some(fp.constant)
                &&& p.max_tx_size == Some(fp.max_tx_size)
                &&& has_scripts ==> {
                    &&& p.price_memory == Some(fp.price_memory)
                    &&& p.price_steps == Some(fp.price_steps)
                    &&& p.collateral_percentage == Some(fp.collateral_percentage)
                    &&& p.max_collateral_inputs == Some(fp.max_collateral_inputs)
                }
                &&& fee_params_consistent(fp, *p, has_scripts)
            },
            Err(e) => {
                &&& e matches Error::MissingProtocolParameter(_)
                &&& {
                    ||| p.min_fee_coefficient is None
                    ||| p.min_fee_constant is None
                    ||| p.max_tx_size is None
                    ||| (has_scripts && (p.price_memory is None || p.price_steps is None
                        || p.collateral_percentage is None || p.max_collateral_inputs is None))
                    ||| (has_scripts && (match p.price_memory {
                        Some(pm) => pm.den == 0,
                        None => false,
                    } || match p.price_steps {
                        Some(ps) => ps.den == 0,
                        None => false,
                    }))
                }
            },
        },
{
    let coefficient = match p.min_fee_coefficient {
        Some(v) => v,
        None => {
            return Err(Error::MissingProtocolParameter("min_fee_coefficient".to_owned()));
        },
    };
    let constant = match p.min_fee_constant {
        Some(v) => v,
        None => {
            return Err(Error::MissingProtocolParameter("min_fee_constant".to_owned()));
        },
    };
    let max_tx_size = match p.max_tx_size {
        Some(v) => v,
        None => {
            return Err(Error::MissingProtocolParameter("max_tx_size".to_owned()));
        },
    };
    if has_scripts {
        let price_memory = match p.price_memory {
            Some(v) => v,
            None => {
                return Err(Error::MissingProtocolParameter("price_memory".to_owned()));
            },
        };
        let price_steps = match p.price_steps {
            Some(v) => v,
            None => {
                return Err(Error::MissingProtocolParameter("price_steps".to_owned()));
            },
        };
        let collateral_percentage = match p.collateral_percentage {
            Some(v) => v,
            None => {
                return Err(Error::MissingProtocolParameter("collateral_percentage".to_owned()));
            },
        };
        let max_collateral_inputs = match p.max_collateral_inputs {
            Some(v) => v,
            None => {
                return Err(Error::MissingProtocolParameter("max_collateral_inputs".to_owned()));
            },
        };
        if price_memory.den == 0 || price_steps.den == 0 {
            return Err(Error::MissingProtocolParameter("execution_unit_prices".to_owned()));
        }
        Ok(
            FeeParams {
                coefficient,
                constant,
                max_tx_size,
                price_memory,
                price_steps,
                collateral_percentage,
                max_collateral_inputs,
            },
        )
    } else {
        Ok(
            FeeParams {
                coefficient,
                constant,
                max_tx_size,
                price_memory: RationalPrice { num: 0, den: 1 },
                price_steps: RationalPrice { num: 0, den: 1 },
                collateral_percentage: 0,
                max_collateral_inputs: 0,
            },
        )
    }
}

/// The validated parameters a snapshot admits: every needed field is
/// present and unwrapped, and the script-cost fields are the stated free
/// defaults when the request runs no scripts.
pub open spec fn fee_params_consistent(
    fp: FeeParams,
    p: ProtocolParameters,
    has_scripts: bool,
) -> bool {
    &&& fp.wf()
    &&& p.min_fee_coefficient == Some(fp.coefficient)
    &&& p.min_fee_constant == Some(fp.constant)
    &&& p.max_tx_size == Some(fp.max_tx_size)
    &&& has_scripts ==> {
        &&& p.price_memory == Some(fp.price_memory)
        &&& p.price_steps == Some(fp.price_steps)
        &&& p.collateral_percentage == Some(fp.collateral_percentage)
        &&& p.max_collateral_inputs == Some(fp.max_collateral_inputs)
    }
    &&& !has_scripts ==> {
        &&& fp.price_memory == RationalPrice { num: 0, den: 1 }
        &&& fp.price_steps == RationalPrice { num: 0, den: 1 }
        &&& fp.collateral_percentage == 0
        &&& fp.max_collateral_inputs == 0
    }
}

/// Input-selection order: wallet position `a` is drawn before `b` when it
/// holds more lovelace, with the output reference (lexicographic id, then
/// index) breaking ties, so selection is a function of the snapshot alone.
pub open spec fn spend_le(wallet: Seq<Utxo>, a: int, b: int) -> bool {
    let ua = wallet[a];
    let ub = wallet[b];
    ||| ua.value.lovelace > ub.value.lovelace
    ||| (ua.value.lovelace == ub.value.lovelace && spec_bytes_lt(
        ua.reference.tx_id@,
        ub.reference.tx_id@,
    ))
    ||| (ua.value.lovelace == ub.value.lovelace && ua.reference.tx_id@ == ub.reference.tx_id@
        && ua.reference.index <= ub.reference.index)
}

/// Decides [`spend_le`] for two wallet positions.
fn spend_le_exec(wallet: &Vec<Utxo>, a: usize, b: usize) -> (r: bool)
    requires
        a < wallet@.len(),
        b < wallet@.len(),
    ensures
        r == spend_le(wallet@, a as int, b as int),
{
    let ua = &wallet[a];
    let ub = &wallet[b];
    if ua.value.lovelace > ub.value.lovelace {
        true
    } else if ua.value.lovelace < ub.value.lovelace {
        false
    } else if bytes_lt(&ua.reference.tx_id, &ub.reference.tx_id) {
        true
    } else if crate::bytes::bytes_eq(&ua.reference.tx_id, &ub.reference.tx_id) {
        ua.reference.index <= ub.reference.index
    } else {
        false
    }
}

/// Inserts position `x` before the first position it precedes.
pub open spec fn insert_spend(wallet: Seq<Utxo>, x: int, s: Seq<int>) -> Seq<int>
    decreases s.len(),
{
    if s.len() == 0 {
        seq![x]
    } else if spend_le(wallet, x, s[0]) {
        seq![x] + s
    } else {
        seq![s[0]] + insert_spend(wallet, x, s.drop_first())
    }
}

/// Insertion sort of wallet positions by [`spend_le`].
pub open spec fn sort_spend(wallet: Seq<Utxo>, s: Seq<int>) -> Seq<int>
    decreases s.len(),
{
    if s.len() == 0 {
        Seq::empty()
    } else {
        insert_spend(wallet, s.last(), sort_spend(wallet, s.drop_last()))
    }
}

/// The wallet positions `0, 1, ..., n - 1` in wallet order.
pub open spec fn positions(n: int) -> Seq<int> {
    Seq::new(n as nat, |i: int| i)
}

/// The deterministic order in which wallet outputs are drawn for spending.
pub open spec fn spec_spend_order(wallet: Seq<Utxo>) -> Seq<int> {
    sort_spend(wallet, positions(wallet.len() as int))
}

/// Where the first admissible position is `idx`, insertion is a splice.
proof fn lemma_insert_spend_split(wallet: Seq<Utxo>, x: int, s: Seq<int>, idx: int)
    requires
        0 <= idx <= s.len(),
        forall|k: int| 0 <= k < idx ==> !spend_le(wallet, x, #[trigger] s[k]),
        idx < s.len() ==> spend_le(wallet, x, s[idx]),
    ensures
        insert_spend(wallet, x, s) == s.take(idx) + seq![x] + s.skip(idx),
    decreases idx,
{
    if idx == 0 {
        if s.len() == 0 {
            assert(insert_spend(wallet, x, s) =~= s.take(0) + seq![x] + s.skip(0));
        } else {
            assert(seq![x] + s =~= s.take(0) + seq![x] + s.skip(0));
        }
    } else {
        lemma_insert_spend_split(wallet, x, s.drop_first(), idx - 1);
        assert(s.drop_first().take(idx - 1) =~= s.take(idx).drop_first());
        assert(s.drop_first().skip(idx - 1) =~= s.skip(idx));
        assert(seq![s[0]] + (s.drop_first().take(idx - 1) + seq![x] + s.drop_first().skip(idx - 1))
            =~= s.take(idx) + seq![x] + s.skip(idx));
    }
}

/// Computes [`spec_spend_order`]: every wallet position once, sorted.
pub fn spend_order(wallet: &Vec<Utxo>) -> (r: Vec<usize>)
    ensures
        omap(r@) == spec_spend_order(wallet@),
        r@.len() == wallet@.len(),
        forall|k: int| 0 <= k < r@.len() ==> (#[trigger] r@[k]) < wallet@.len(),
{
    let ghost g0 = positions(wallet@.len() as int);
    let mut out: Vec<usize> = Vec::new();
    let mut i: usize = 0;
    proof {
        assert(omap(out@) =~= sort_spend(wallet@, g0.take(0)));
    }
    while i < wallet.len()
        invariant
            i <= wallet@.len(),
            g0 == positions(wallet@.len() as int),
            out@.len() == i,
            forall|k: int| 0 <= k < out@.len() ==> (#[trigger] out@[k]) < wallet@.len(),
            omap(out@) == sort_spend(wallet@, g0.take(i as int)),
        decreases wallet@.len() - i,
    {
        let ghost gout = omap(out@);
        let mut idx: usize = 0;
        while idx < out.len() && !spend_le_exec(wallet, i, out[idx])
            invariant
                i < wallet@.len(),
                idx <= out@.len(),
                forall|k: int| 0 <= k < out@.len() ==> (#[trigger] out@[k]) < wallet@.len(),
                gout == omap(out@),
                forall|k: int| 0 <= k < idx ==> !spend_le(wallet@, i as int, gout[k]),
            decreases out@.len() - idx,
        {
            proof {
                assert(gout[idx as int] == out@[idx as int] as int);
            }
            idx = idx + 1;
        }
        let ghost opre = out@;
        out.insert(idx, i);
        proof {
            if idx < opre.len() {
                assert(spend_le(wallet@, i as int, gout[idx as int]));
            }
            lemma_insert_spend_split(wallet@, i as int, gout, idx as int);
            assert(omap(out@) =~= gout.take(idx as int) + seq![i as int]
                + gout.skip(idx as int)) by {
                assert(out@ =~= opre.take(idx as int).push(i) + opre.skip(idx as int));
            }
            let t = g0.take(i as int + 1);
            assert(t.drop_last() =~= g0.take(i as int));
            assert(t.last() == g0[i as int]);
            assert(g0[i as int] == i as int);
            assert(omap(out@) == sort_spend(wallet@, g0.take(i as int + 1)));
        }
        i = i + 1;
    }
    proof {
        assert(g0.take(g0.len() as int) =~= g0);
    }
    out
}

/// The values of the first `k` outputs drawn in spending order.
pub open spec fn sel_values(wallet: Seq<Utxo>, order: Seq<int>, k: int) -> Seq<Value> {
    Seq::new(k as nat, |j: int| wallet[order[j]].value)
}

/// The references of the first `k` outputs drawn in spending order.
pub open spec fn sel_refs(wallet: Seq<Utxo>, order: Seq<int>, k: int) -> Seq<UtxoRef> {
    Seq::new(k as nat, |j: int| wallet[order[j]].reference)
}

/// A position vector as mathematical indices.
pub open spec fn omap(order: Seq<usize>) -> Seq<int> {
    order.map_values(|x: usize| x as int)
}

/// Sums the values of the first `k` selected inputs.
fn sum_selected(wallet: &Vec<Utxo>, order: &Vec<usize>, k: usize) -> (r: Result<Value, Error>)
    requires
        k <= order@.len(),
        forall|j: int| 0 <= j < order@.len() ==> (#[trigger] order@[j]) < wallet@.len(),
        forall|i: int| 0 <= i < wallet@.len() ==> (#[trigger] wallet@[i]).value.wf(),
    ensures
        ({
            let sv = sel_values(wallet@, omap(order@), k as int);
            match r {
                Ok(t) => {
                    &&& t.wf()
                    &&& t.lovelace == lovelace_sum(sv)
                    &&& forall|p: Seq<u8>, n: Seq<u8>| #[trigger] t.amount_of(p, n) == assets_sum(
                        sv,
                        p,
                        n,
                    )
                },
                Err(e) => {
                    &&& e matches Error::TransactionBuildError(_)
                    &&& (lovelace_sum(sv) > u64::MAX || exists|p: Seq<u8>, n: Seq<u8>|
                        #[trigger] assets_sum(sv, p, n) > u64::MAX)
                },
            }
        }),
{
    let ghost sv = sel_values(wallet@, omap(order@), k as int);
    let mut acc = Value::from_lovelace(0);
    let mut j: usize = 0;
    proof {
        assert(sv.take(0) =~= Seq::<Value>::empty());
        assert forall|p: Seq<u8>, n: Seq<u8>|
            #[trigger] amount_in(acc.assets@, p, n) == assets_sum(sv.take(0), p, n) by {
            assert(acc.amount_of(p, n) == 0);
        }
    }
    while j < k
        invariant
            j <= k,
            k <= order@.len(),
            forall|x: int| 0 <= x < order@.len() ==> (#[trigger] order@[x]) < wallet@.len(),
            forall|i: int| 0 <= i < wallet@.len() ==> (#[trigger] wallet@[i]).value.wf(),
            sv == sel_values(wallet@, omap(order@), k as int),
            acc.wf(),
            acc.lovelace == lovelace_sum(sv.take(j as int)),
            forall|p: Seq<u8>, n: Seq<u8>|
                #[trigger] amount_in(acc.assets@, p, n) == assets_sum(sv.take(j as int), p, n),
        decreases k - j,
    {
        let idx = order[j];
        proof {
            assert(omap(order@)[j as int] == order@[j as int] as int);
            assert(sv[j as int] == wallet@[order@[j as int] as int].value);
        }
        match value_add(&acc, &wallet[idx].value) {
            Some(t) => {
                proof {
                    assert forall|p: Seq<u8>, n: Seq<u8>|
                        #[trigger] amount_in(t.assets@, p, n) == assets_sum(
                            sv.take(j as int + 1),
                            p,
                            n,
                        ) by {
                        assert(t.amount_of(p, n) == acc.amount_of(p, n) + wallet@[order@[j as int] as int].value.amount_of(
                            p,
                            n,
                        ));
                        crate::value::lemma_value_sums_take_step(sv, j as int, p, n);
                    }
                    crate::value::lemma_value_sums_take_step(
                        sv,
                        j as int,
                        Seq::<u8>::empty(),
                        Seq::<u8>::empty(),
                    );
                }
                acc = t;
            },
            None => {
                proof {
                    if acc.lovelace + wallet@[order@[j as int] as int].value.lovelace > u64::MAX {
                        crate::value::lemma_value_sums_take_step(
                            sv,
                            j as int,
                            Seq::<u8>::empty(),
                            Seq::<u8>::empty(),
                        );
                        crate::value::lemma_value_sums_take_bound(
                            sv,
                            j as int + 1,
                            Seq::<u8>::empty(),
                            Seq::<u8>::empty(),
                        );
                    } else {
                        let (cp, cn): (Seq<u8>, Seq<u8>) = choose|p: Seq<u8>, n: Seq<u8>|
                            #[trigger] acc.amount_of(p, n) + wallet@[order@[j as int] as int].value.amount_of(
                                p,
                                n,
                            ) > u64::MAX;
                        crate::value::lemma_value_sums_take_step(sv, j as int, cp, cn);
                        crate::value::lemma_value_sums_take_bound(sv, j as int + 1, cp, cn);
                        assert(assets_sum(sv, cp, cn) > u64::MAX);
                    }
                }
                return Err(
                    Error::TransactionBuildError("selected input value out of range".to_owned()),
                );
            },
        }
        j = j + 1;
    }
    proof {
        assert(sv.take(k as int) =~= sv);
    }
    Ok(acc)
}

/// Size of the first `k` selected input references.
fn sel_refs_size(wallet: &Vec<Utxo>, order: &Vec<usize>, k: usize) -> (r: Option<u64>)
    requires
        k <= order@.len(),
        forall|j: int| 0 <= j < order@.len() ==> (#[trigger] order@[j]) < wallet@.len(),
    ensures
        ({
            let sr = sel_refs(wallet@, omap(order@), k as int);
            match r {
                Some(t) => t == crate::fees::sum_by(sr, crate::fees::ref_size_fn()),
                None => crate::fees::sum_by(sr, crate::fees::ref_size_fn()) > u64::MAX,
            }
        }),
{
    let ghost sr = sel_refs(wallet@, omap(order@), k as int);
    let ghost f = crate::fees::ref_size_fn();
    let mut acc: u64 = 0;
    let mut j: usize = 0;
    proof {
        assert(sr.take(0) =~= Seq::<UtxoRef>::empty());
    }
    while j < k
        invariant
            j <= k,
            k <= order@.len(),
            forall|x: int| 0 <= x < order@.len() ==> (#[trigger] order@[x]) < wallet@.len(),
            sr == sel_refs(wallet@, omap(order@), k as int),
            f == crate::fees::ref_size_fn(),
            acc == crate::fees::sum_by(sr.take(j as int), f),
        decreases k - j,
    {
        let idx = order[j];
        let item: u128 = 16 + wallet[idx].reference.tx_id.len() as u128;
        proof {
            assert(omap(order@)[j as int] == order@[j as int] as int);
            assert(sr[j as int] == wallet@[order@[j as int] as int].reference);
            crate::fees::lemma_sum_by_take_step(sr, f, j as int);
            assert(f(sr[j as int]) == crate::fees::spec_ref_size(sr[j as int]));
        }
        if item > (u64::MAX - acc) as u128 {
            proof {
                assert forall|x: int| 0 <= x < sr.len() implies f(#[trigger] sr[x]) >= 0 by {
                    assert(f(sr[x]) == crate::fees::spec_ref_size(sr[x]));
                }
                crate::fees::lemma_sum_by_take_bound(sr, f, j as int + 1);
            }
            return None;
        }
        acc = acc + (item as u64);
        j = j + 1;
    }
    proof {
        assert(sr.take(k as int) =~= sr);
    }
    Some(acc)
}

/// The change a candidate leaves: selected inputs plus the net mint, minus
/// the requested outputs, minus the fee. `None` when that is negative in
/// any asset or in lovelace, or out of range.
pub fn try_change(
    inputs_total: &Value,
    mints: &Vec<crate::value::MintAsset>,
    outputs_total: &Value,
    fee: u64,
) -> (r: Option<Value>)
    requires
        inputs_total.wf(),
        outputs_total.wf(),
        crate::value::distinct_mint_classes(mints@),
    ensures
        match r {
            Some(c) => {
                &&& c.wf()
                &&& c.lovelace == inputs_total.lovelace - outputs_total.lovelace - fee
                &&& forall|p: Seq<u8>, n: Seq<u8>|
                    #[trigger] c.amount_of(p, n) == inputs_total.amount_of(p, n) + mint_amount_in(
                        mints@,
                        p,
                        n,
                    ) - outputs_total.amount_of(p, n)
                &&& forall|p: Seq<u8>, n: Seq<u8>|
                    #[trigger] inputs_total.amount_of(p, n) + mint_amount_in(mints@, p, n)
                        <= u64::MAX
            },
            None => {
                ||| exists|p: Seq<u8>, n: Seq<u8>|
                    #[trigger] inputs_total.amount_of(p, n) + mint_amount_in(mints@, p, n)
                        - outputs_total.amount_of(p, n) < 0 || inputs_total.amount_of(p, n)
                        + mint_amount_in(mints@, p, n) > u64::MAX
                ||| inputs_total.lovelace - outputs_total.lovelace - fee < 0
            },
        },
{
    let minted = match crate::value::apply_mint(inputs_total, mints) {
        Some(v) => v,
        None => {
            proof {
                let (cp, cn): (Seq<u8>, Seq<u8>) = choose|p: Seq<u8>, n: Seq<u8>|
                    #[trigger] inputs_total.amount_of(p, n) + mint_amount_in(mints@, p, n) < 0
                        || inputs_total.amount_of(p, n) + mint_amount_in(mints@, p, n) > u64::MAX;
                if inputs_total.amount_of(cp, cn) + mint_amount_in(mints@, cp, cn) < 0 {
                    crate::value::lemma_amount_in_nonneg(outputs_total.assets@, cp, cn);
                    assert(inputs_total.amount_of(cp, cn) + mint_amount_in(mints@, cp, cn)
                        - outputs_total.amount_of(cp, cn) < 0);
                } else {
                    assert(inputs_total.amount_of(cp, cn) + mint_amount_in(mints@, cp, cn)
                        > u64::MAX);
                }
            }
            return None;
        },
    };
    let after_out = match crate::value::value_sub(&minted, outputs_total) {
        Some(v) => v,
        None => {
            proof {
                if minted.lovelace < outputs_total.lovelace {
                    assert(inputs_total.lovelace - outputs_total.lovelace - fee < 0);
                } else {
                    let (cp, cn): (Seq<u8>, Seq<u8>) = choose|p: Seq<u8>, n: Seq<u8>|
                        #[trigger] minted.amount_of(p, n) - outputs_total.amount_of(p, n) < 0;
                    assert(minted.amount_of(cp, cn) == inputs_total.amount_of(cp, cn)
                        + mint_amount_in(mints@, cp, cn));
                    assert(inputs_total.amount_of(cp, cn) + mint_amount_in(mints@, cp, cn)
                        - outputs_total.amount_of(cp, cn) < 0);
                }
            }
            return None;
        },
    };
    let change_lovelace = match after_out.lovelace.checked_sub(fee) {
        Some(l) => l,
        None => {
            proof {
                assert(after_out.lovelace == minted.lovelace - outputs_total.lovelace);
                assert(inputs_total.lovelace - outputs_total.lovelace - fee < 0);
            }
            return None;
        },
    };
    let c = Value { lovelace: change_lovelace, assets: after_out.assets };
    proof {
        assert(c.wf());
        assert forall|p: Seq<u8>, n: Seq<u8>|
            #[trigger] inputs_total.amount_of(p, n) + mint_amount_in(mints@, p, n)
                <= u64::MAX by {
            crate::value::lemma_amount_in_bounded(minted.assets@, p, n);
            assert(minted.amount_of(p, n) == inputs_total.amount_of(p, n) + mint_amount_in(
                mints@,
                p,
                n,
            ));
        }
        assert forall|p: Seq<u8>, n: Seq<u8>|
            #[trigger] c.amount_of(p, n) == inputs_total.amount_of(p, n) + mint_amount_in(
                mints@,
                p,
                n,
            ) - outputs_total.amount_of(p, n) by {
            assert(amount_in(c.assets@, p, n) == amount_in(after_out.assets@, p, n));
            assert(after_out.amount_of(p, n) == minted.amount_of(p, n) - outputs_total.amount_of(
                p,
                n,
            ));
            assert(minted.amount_of(p, n) == inputs_total.amount_of(p, n) + mint_amount_in(
                mints@,
                p,
                n,
            ));
        }
    }
    Some(c)
}

/// The required collateral for a fee: the protocol's percentage of it,
/// rounded up.
pub open spec fn spec_collateral_threshold(fee: u64, pct: u64) -> int {
    (fee * pct + 99) / 100
}

/// The first `k` inputs in spending order cover the requested outputs,
/// the net mint and `fee`: nothing goes negative and no class total
/// leaves the representable range.
pub open spec fn spec_covers(
    wallet: Seq<Utxo>,
    om: Seq<int>,
    k: int,
    mints: Seq<crate::value::MintAsset>,
    outputs_total: Value,
    fee: u64,
) -> bool {
    let sv = sel_values(wallet, om, k);
    &&& lovelace_sum(sv) - outputs_total.lovelace - fee >= 0
    &&& forall|p: Seq<u8>, n: Seq<u8>|
        #[trigger] assets_sum(sv, p, n) + mint_amount_in(mints, p, n) >= outputs_total.amount_of(
            p,
            n,
        )
    &&& forall|p: Seq<u8>, n: Seq<u8>|
        #[trigger] assets_sum(sv, p, n) + mint_amount_in(mints, p, n) <= u64::MAX
}

/// `c` holds exactly the change the first `k` inputs leave at `fee`.
pub open spec fn change_matches(
    c: Value,
    wallet: Seq<Utxo>,
    om: Seq<int>,
    k: int,
    mints: Seq<crate::value::MintAsset>,
    outputs_total: Value,
    fee: u64,
) -> bool {
    &&& c.wf()
    &&& c.lovelace == lovelace_sum(sel_values(wallet, om, k)) - outputs_total.lovelace - fee
    &&& forall|p: Seq<u8>, n: Seq<u8>|
        #[trigger] c.amount_of(p, n) == assets_sum(sel_values(wallet, om, k), p, n)
            + mint_amount_in(mints, p, n) - outputs_total.amount_of(p, n)
}

/// The fee the formula prices for a candidate of `k` inputs and change `c`.
pub open spec fn spec_priced_fee(
    wallet: Seq<Utxo>,
    om: Seq<int>,
    k: int,
    c: Value,
    mints: Seq<crate::value::MintAsset>,
    redeemers: Seq<Redeemer>,
    units: Seq<ExUnitsEntry>,
    fp: FeeParams,
    outputs: Seq<crate::request::OutputSpec>,
    change_address: crate::chain::Address,
    signers: Seq<Vec<u8>>,
    ref_inputs: Seq<UtxoRef>,
) -> int {
    crate::fees::spec_fee(
        fp.coefficient,
        fp.constant,
        crate::fees::spec_body_size(
            sel_refs(wallet, om, k),
            outputs,
            change_address,
            c,
            mints,
            signers,
            ref_inputs,
            redeemers,
        ),
        crate::fees::spec_script_fee(redeemers, units, fp.price_memory, fp.price_steps),
    )
}

/// When one balancing round may fail with a build error at assumed fee
/// `f`: the whole wallet's totals leave the representable range, or even
/// the whole wallet cannot cover outputs, mint and `f`, or the script cost
/// is out of range, or some candidate consistent with the balance at `f`
/// exceeds the size cap or prices past the fee range.
pub open spec fn spec_balance_failure(
    wallet: Seq<Utxo>,
    om: Seq<int>,
    mints: Seq<crate::value::MintAsset>,
    outputs_total: Value,
    redeemers: Seq<Redeemer>,
    units: Seq<ExUnitsEntry>,
    fp: FeeParams,
    outputs: Seq<crate::request::OutputSpec>,
    change_address: crate::chain::Address,
    signers: Seq<Vec<u8>>,
    ref_inputs: Seq<UtxoRef>,
    f: u64,
) -> bool {
    let full = om.len() as int;
    ||| lovelace_sum(sel_values(wallet, om, full)) > u64::MAX
    ||| exists|p: Seq<u8>, n: Seq<u8>|
        #[trigger] assets_sum(sel_values(wallet, om, full), p, n) > u64::MAX
    ||| !spec_covers(wallet, om, full, mints, outputs_total, f)
    ||| crate::fees::spec_script_fee(redeemers, units, fp.price_memory, fp.price_steps) > u64::MAX
    ||| exists|k: int, c: Value|
        #![trigger change_matches(c, wallet, om, k, mints, outputs_total, f)]
        0 <= k <= om.len() && change_matches(c, wallet, om, k, mints, outputs_total, f) && (
        crate::fees::spec_body_size(
            sel_refs(wallet, om, k),
            outputs,
            change_address,
            c,
            mints,
            signers,
            ref_inputs,
            redeemers,
        ) > fp.max_tx_size || spec_priced_fee(
            wallet,
            om,
            k,
            c,
            mints,
            redeemers,
            units,
            fp,
            outputs,
            change_address,
            signers,
            ref_inputs,
        ) > u64::MAX)
}

/// A fee the balancing loop can hold: the size-free seed, or the priced
/// fee of a candidate consistent with the balance at some earlier fee.
pub open spec fn spec_round_fee(
    f: u64,
    wallet: Seq<Utxo>,
    om: Seq<int>,
    mints: Seq<crate::value::MintAsset>,
    outputs_total: Value,
    redeemers: Seq<Redeemer>,
    units: Seq<ExUnitsEntry>,
    fp: FeeParams,
    outputs: Seq<crate::request::OutputSpec>,
    change_address: crate::chain::Address,
    signers: Seq<Vec<u8>>,
    ref_inputs: Seq<UtxoRef>,
) -> bool {
    ||| f == fp.constant
    ||| exists|f0: u64, k: int, c: Value|
        #![trigger change_matches(c, wallet, om, k, mints, outputs_total, f0)]
        0 <= k <= om.len() && change_matches(c, wallet, om, k, mints, outputs_total, f0) && f as int
            == spec_priced_fee(
            wallet,
            om,
            k,
            c,
            mints,
            redeemers,
            units,
            fp,
            outputs,
            change_address,
            signers,
            ref_inputs,
        )
}

/// Exhibits the size-or-fee-overflow disjunct of [`spec_balance_failure`].
proof fn lemma_witness_size_failure(
    wallet: Seq<Utxo>,
    om: Seq<int>,
    k: int,
    c: Value,
    mints: Seq<crate::value::MintAsset>,
    outputs_total: Value,
    redeemers: Seq<Redeemer>,
    units: Seq<ExUnitsEntry>,
    fp: FeeParams,
    outputs: Seq<crate::request::OutputSpec>,
    change_address: crate::chain::Address,
    signers: Seq<Vec<u8>>,
    ref_inputs: Seq<UtxoRef>,
    f: u64,
)
    requires
        0 <= k <= om.len(),
        change_matches(c, wallet, om, k, mints, outputs_total, f),
        crate::fees::spec_body_size(
            sel_refs(wallet, om, k),
            outputs,
            change_address,
            c,
            mints,
            signers,
            ref_inputs,
            redeemers,
        ) > fp.max_tx_size || spec_priced_fee(
            wallet,
            om,
            k,
            c,
            mints,
            redeemers,
            units,
            fp,
            outputs,
            change_address,
            signers,
            ref_inputs,
        ) > u64::MAX,
    ensures
        spec_balance_failure(
            wallet,
            om,
            mints,
            outputs_total,
            redeemers,
            units,
            fp,
            outputs,
            change_address,
            signers,
            ref_inputs,
            f,
        ),
{
}

/// The candidate the balancer converged on: selected inputs with their
/// values, collateral, the fixed-point fee, and the change left over.
#[derive(Debug)]
pub struct BalancedCandidate {
    pub inputs: Vec<UtxoRef>,
    pub input_values: Vec<Value>,
    pub collateral: Vec<UtxoRef>,
    pub fee: u64,
    pub change: Value,
}

/// One balancing round's outcome: the candidate converged, or the priced
/// fee differed from the assumed one and iteration continues there.
#[derive(Debug)]
pub enum IterOutcome {
    Converged(BalancedCandidate),
    Continue(u64, usize),
}

/// The references of the first `k` selected inputs, as concrete values.
fn materialize_refs(wallet: &Vec<Utxo>, order: &Vec<usize>, k: usize) -> (r: Vec<UtxoRef>)
    requires
        k <= order@.len(),
        forall|j: int| 0 <= j < order@.len() ==> (#[trigger] order@[j]) < wallet@.len(),
    ensures
        r@.len() == k,
        forall|j: int|
            0 <= j < k ==> (#[trigger] r@[j]).tx_id@ == sel_refs(wallet@, omap(order@), k as int)[j].tx_id@
                && r@[j].index == sel_refs(wallet@, omap(order@), k as int)[j].index,
{
    let mut out: Vec<UtxoRef> = Vec::new();
    let mut j: usize = 0;
    while j < k
        invariant
            j <= k,
            k <= order@.len(),
            forall|x: int| 0 <= x < order@.len() ==> (#[trigger] order@[x]) < wallet@.len(),
            out@.len() == j,
            forall|x: int|
                0 <= x < j ==> (#[trigger] out@[x]).tx_id@
                    == wallet@[order@[x] as int].reference.tx_id@ && out@[x].index
                    == wallet@[order@[x] as int].reference.index,
        decreases k - j,
    {
        let idx = order[j];
        out.push(
            UtxoRef {
                tx_id: bytes_clone(&wallet[idx].reference.tx_id),
                index: wallet[idx].reference.index,
            },
        );
        j = j + 1;
    }
    proof {
        assert forall|j2: int| 0 <= j2 < k implies (#[trigger] out@[j2]).tx_id@ == sel_refs(
            wallet@,
            omap(order@),
            k as int,
        )[j2].tx_id@ && out@[j2].index == sel_refs(wallet@, omap(order@), k as int)[j2].index by {
            assert(omap(order@)[j2] == order@[j2] as int);
            assert(sel_refs(wallet@, omap(order@), k as int)[j2]
                == wallet@[order@[j2] as int].reference);
        }
    }
    out
}

/// The values of the first `k` selected inputs, as concrete values.
fn materialize_values(wallet: &Vec<Utxo>, order: &Vec<usize>, k: usize) -> (r: Vec<Value>)
    requires
        k <= order@.len(),
        forall|j: int| 0 <= j < order@.len() ==> (#[trigger] order@[j]) < wallet@.len(),
        forall|i: int| 0 <= i < wallet@.len() ==> (#[trigger] wallet@[i]).value.wf(),
    ensures
        r@.len() == k,
        forall|j: int| 0 <= j < k ==> (#[trigger] r@[j]).wf(),
        forall|j: int|
            0 <= j < k ==> (#[trigger] r@[j]).lovelace == sel_values(
                wallet@,
                omap(order@),
                k as int,
            )[j].lovelace,
        forall|j: int, p: Seq<u8>, n: Seq<u8>|
            0 <= j < k ==> #[trigger] amount_in(r@[j].assets@, p, n) == amount_in(
                sel_values(wallet@, omap(order@), k as int)[j].assets@,
                p,
                n,
            ),
{
    let mut out: Vec<Value> = Vec::new();
    let mut j: usize = 0;
    while j < k
        invariant
            j <= k,
            k <= order@.len(),
            forall|x: int| 0 <= x < order@.len() ==> (#[trigger] order@[x]) < wallet@.len(),
            forall|i: int| 0 <= i < wallet@.len() ==> (#[trigger] wallet@[i]).value.wf(),
            out@.len() == j,
            forall|x: int| 0 <= x < j ==> (#[trigger] out@[x]).wf(),
            forall|x: int|
                0 <= x < j ==> (#[trigger] out@[x]).lovelace
                    == wallet@[order@[x] as int].value.lovelace,
            forall|x: int, p: Seq<u8>, n: Seq<u8>|
                0 <= x < j ==> #[trigger] amount_in(out@[x].assets@, p, n) == amount_in(
                    wallet@[order@[x] as int].value.assets@,
                    p,
                    n,
                ),
        decreases k - j,
    {
        let idx = order[j];
        let v = value_clone(&wallet[idx].value);
        proof {
            assert forall|p: Seq<u8>, n: Seq<u8>|
                #[trigger] amount_in(v.assets@, p, n) == amount_in(
                    wallet@[order@[j as int] as int].value.assets@,
                    p,
                    n,
                ) by {
                assert(v.amount_of(p, n) == wallet@[order@[j as int] as int].value.amount_of(p, n));
            }
        }
        out.push(v);
        j = j + 1;
    }
    proof {
        assert forall|j2: int, p: Seq<u8>, n: Seq<u8>| 0 <= j2 < k implies #[trigger] amount_in(
            out@[j2].assets@,
            p,
            n,
        ) == amount_in(sel_values(wallet@, omap(order@), k as int)[j2].assets@, p, n) by {
            assert(omap(order@)[j2] == order@[j2] as int);
            assert(sel_values(wallet@, omap(order@), k as int)[j2]
                == wallet@[order@[j2] as int].value);
        }
        assert forall|j2: int| 0 <= j2 < k implies (#[trigger] out@[j2]).lovelace == sel_values(
            wallet@,
            omap(order@),
            k as int,
        )[j2].lovelace by {
            assert(omap(order@)[j2] == order@[j2] as int);
        }
    }
    out
}


/// Everything that holds of a converged candidate: its inputs are the
/// deterministic spending prefix, value is conserved exactly, every
/// redeemer has execution units, the fee is the fixed point of the fee
/// formula on the candidate itself, and the collateral is the
/// deterministic selection for that fee.
pub open spec fn spec_converged(
    c: BalancedCandidate,
    wallet: Seq<Utxo>,
    order: Seq<usize>,
    mints: Seq<crate::value::MintAsset>,
    outputs_total: Value,
    redeemers: Seq<Redeemer>,
    units: Seq<ExUnitsEntry>,
    fp: FeeParams,
    outputs: Seq<crate::request::OutputSpec>,
    change_address: crate::chain::Address,
    signers: Seq<Vec<u8>>,
    ref_inputs: Seq<UtxoRef>,
) -> bool {
    let k = c.inputs@.len() as int;
    let om = omap(order);
    &&& k <= order.len()
    &&& c.input_values@.len() == k
    &&& forall|j: int|
        0 <= j < k ==> (#[trigger] c.inputs@[j]).tx_id@ == sel_refs(wallet, om, k)[j].tx_id@
            && c.inputs@[j].index == sel_refs(wallet, om, k)[j].index
    &&& forall|j: int| 0 <= j < k ==> (#[trigger] c.input_values@[j]).wf()
    &&& forall|j: int|
        0 <= j < k ==> (#[trigger] c.input_values@[j]).lovelace == sel_values(
            wallet,
            om,
            k,
        )[j].lovelace
    &&& forall|j: int, p: Seq<u8>, n: Seq<u8>|
        0 <= j < k ==> #[trigger] amount_in(c.input_values@[j].assets@, p, n) == amount_in(
            sel_values(wallet, om, k)[j].assets@,
            p,
            n,
        )
    &&& c.change.wf()
    &&& lovelace_sum(c.input_values@) == outputs_total.lovelace + c.fee + c.change.lovelace
    &&& forall|p: Seq<u8>, n: Seq<u8>|
        #[trigger] assets_sum(c.input_values@, p, n) + mint_amount_in(mints, p, n)
            == outputs_total.amount_of(p, n) + c.change.amount_of(p, n)
    &&& forall|x: int|
        0 <= x < redeemers.len() ==> spec_find_units(
            units,
            (#[trigger] redeemers[x]).tag,
            redeemers[x].index,
        ) is Some
    &&& c.fee as int == crate::fees::spec_fee(
        fp.coefficient,
        fp.constant,
        crate::fees::spec_body_size(
            sel_refs(wallet, om, k),
            outputs,
            change_address,
            c.change,
            mints,
            signers,
            ref_inputs,
            redeemers,
        ),
        crate::fees::spec_script_fee(redeemers, units, fp.price_memory, fp.price_steps),
    )
    &&& redeemers.len() == 0 ==> c.collateral@.len() == 0
    &&& redeemers.len() > 0 ==> {
        let t = spec_collateral_threshold(c.fee, fp.collateral_percentage);
        &&& t <= u64::MAX
        &&& crate::collateral::spec_select_collateral(
            wallet,
            sel_refs(wallet, om, k),
            t as u64,
            fp.max_collateral_inputs,
        ) matches Some(g)
        &&& c.collateral@.len() == g.len()
        &&& c.collateral@.len() <= fp.max_collateral_inputs
        &&& crate::collateral::cand_sum(g) >= t
        &&& forall|x: int|
            0 <= x < g.len() ==> (#[trigger] c.collateral@[x]).tx_id@ == g[x].1
                && c.collateral@[x].index == g[x].2
        &&& forall|x: int|
            0 <= x < c.collateral@.len() ==> !crate::collateral::spent_contains(
                sel_refs(wallet, om, k),
                (#[trigger] c.collateral@[x]).tx_id@,
                c.collateral@[x].index,
            )
    }
}

/// One balancing round at an assumed fee: select inputs that cover it,
/// price the resulting candidate, select collateral, and either converge
/// (the priced fee equals the assumed one) or report the fee to assume
/// next. Every step is deterministic in its arguments.
pub fn balance_iteration(
    wallet: &Vec<Utxo>,
    order: &Vec<usize>,
    mints: &Vec<crate::value::MintAsset>,
    outputs_total: &Value,
    redeemers: &Vec<Redeemer>,
    units: &Vec<ExUnitsEntry>,
    fp: &FeeParams,
    outputs: &Vec<crate::request::OutputSpec>,
    change_address: &crate::chain::Address,
    signers: &Vec<Vec<u8>>,
    ref_inputs: &Vec<UtxoRef>,
    assumed_fee: u64,
    k_start: usize,
) -> (r: Result<IterOutcome, Error>)
    requires
        fp.wf(),
        k_start <= order@.len(),
        forall|j: int| 0 <= j < order@.len() ==> (#[trigger] order@[j]) < wallet@.len(),
        forall|i: int| 0 <= i < wallet@.len() ==> (#[trigger] wallet@[i]).value.wf(),
        outputs_total.wf(),
        crate::value::distinct_mint_classes(mints@),
    ensures
        match r {
            Ok(o) => match o {
                IterOutcome::Converged(c) => {
                    &&& c.fee == assumed_fee
                    &&& k_start <= c.inputs@.len() as int
                    &&& spec_covers(
                        wallet@,
                        omap(order@),
                        c.inputs@.len() as int,
                        mints@,
                        *outputs_total,
                        assumed_fee,
                    )
                    &&& forall|k3: int|
                        k_start <= k3 < c.inputs@.len() ==> !spec_covers(
                            wallet@,
                            omap(order@),
                            k3,
                            mints@,
                            *outputs_total,
                            assumed_fee,
                        )
                    &&& spec_converged(
                        c,
                        wallet@,
                        order@,
                        mints@,
                        *outputs_total,
                        redeemers@,
                        units@,
                        *fp,
                        outputs@,
                        *change_address,
                        signers@,
                        ref_inputs@,
                    )
                },
                IterOutcome::Continue(f2, k2) => {
                    &&& k_start <= k2 <= order@.len()
                    &&& spec_covers(
                        wallet@,
                        omap(order@),
                        k2 as int,
                        mints@,
                        *outputs_total,
                        assumed_fee,
                    )
                    &&& forall|k3: int|
                        k_start <= k3 < k2 ==> !spec_covers(
                            wallet@,
                            omap(order@),
                            k3,
                            mints@,
                            *outputs_total,
                            assumed_fee,
                        )
                    &&& exists|c: Value|
                        #![trigger change_matches(
                            c,
                            wallet@,
                            omap(order@),
                            k2 as int,
                            mints@,
                            *outputs_total,
                            assumed_fee,
                        )]
                        change_matches(
                            c,
                            wallet@,
                            omap(order@),
                            k2 as int,
                            mints@,
                            *outputs_total,
                            assumed_fee,
                        ) && f2 as int == spec_priced_fee(
                            wallet@,
                            omap(order@),
                            k2 as int,
                            c,
                            mints@,
                            redeemers@,
                            units@,
                            *fp,
                            outputs@,
                            *change_address,
                            signers@,
                            ref_inputs@,
                        )
                    &&& f2 != assumed_fee
                },
            },
            Err(e) => match e {
                Error::MissingExUnits(tag, idx) => exists|x: int|
                    0 <= x < redeemers@.len() && (#[trigger] redeemers@[x]).tag == tag
                        && redeemers@[x].index == idx && spec_find_units(units@, tag, idx) is None,
                Error::MissingCollateral => {
                    &&& redeemers@.len() > 0
                    &&& exists|k: int, c: Value|
                        #![trigger change_matches(
                            c,
                            wallet@,
                            omap(order@),
                            k,
                            mints@,
                            *outputs_total,
                            assumed_fee,
                        )]
                        0 <= k <= order@.len() && change_matches(
                            c,
                            wallet@,
                            omap(order@),
                            k,
                            mints@,
                            *outputs_total,
                            assumed_fee,
                        ) && spec_priced_fee(
                            wallet@,
                            omap(order@),
                            k,
                            c,
                            mints@,
                            redeemers@,
                            units@,
                            *fp,
                            outputs@,
                            *change_address,
                            signers@,
                            ref_inputs@,
                        ) == assumed_fee as int && (spec_collateral_threshold(
                            assumed_fee,
                            fp.collateral_percentage,
                        ) > u64::MAX || crate::collateral::spec_select_collateral(
                            wallet@,
                            sel_refs(wallet@, omap(order@), k),
                            spec_collateral_threshold(assumed_fee, fp.collateral_percentage) as u64,
                            fp.max_collateral_inputs,
                        ) is None)
                },
                Error::TransactionBuildError(_) => spec_balance_failure(
                    wallet@,
                    omap(order@),
                    mints@,
                    *outputs_total,
                    redeemers@,
                    units@,
                    *fp,
                    outputs@,
                    *change_address,
                    signers@,
                    ref_inputs@,
                    assumed_fee,
                ),
                _ => false,
            },
        },
{
    let ghost om = omap(order@);
    // Select inputs until they cover the outputs, the mint and the
    // assumed fee.
    let mut k = k_start;
    let mut change_opt: Option<Value> = None;
    loop
        invariant
            k_start <= k <= order@.len(),
            om == omap(order@),
            forall|j: int| 0 <= j < order@.len() ==> (#[trigger] order@[j]) < wallet@.len(),
            forall|i: int| 0 <= i < wallet@.len() ==> (#[trigger] wallet@[i]).value.wf(),
            outputs_total.wf(),
            crate::value::distinct_mint_classes(mints@),
            forall|k2: int|
                k_start <= k2 < k ==> !spec_covers(
                    wallet@,
                    om,
                    k2,
                    mints@,
                    *outputs_total,
                    assumed_fee,
                ),
        ensures
            k_start <= k <= order@.len(),
            forall|k2: int|
                k_start <= k2 < k ==> !spec_covers(
                    wallet@,
                    om,
                    k2,
                    mints@,
                    *outputs_total,
                    assumed_fee,
                ),
            forall|p: Seq<u8>, n: Seq<u8>|
                #[trigger] assets_sum(sel_values(wallet@, om, k as int), p, n) + mint_amount_in(
                    mints@,
                    p,
                    n,
                ) <= u64::MAX,
            match change_opt {
                Some(c) => {
                    &&& c.wf()
                    &&& c.lovelace == lovelace_sum(sel_values(wallet@, om, k as int))
                        - outputs_total.lovelace - assumed_fee
                    &&& forall|p: Seq<u8>, n: Seq<u8>|
                        #[trigger] c.amount_of(p, n) == assets_sum(
                            sel_values(wallet@, om, k as int),
                            p,
                            n,
                        ) + mint_amount_in(mints@, p, n) - outputs_total.amount_of(p, n)
                },
                None => false,
            },
        decreases order@.len() - k,
    {
        let inputs_total = match sum_selected(wallet, order, k) {
            Ok(t) => t,
            Err(e) => {
                proof {
                    let svk = sel_values(wallet@, om, k as int);
                    let svf = sel_values(wallet@, om, order@.len() as int);
                    assert(svk =~= svf.take(k as int));
                    if lovelace_sum(svk) > u64::MAX {
                        crate::value::lemma_value_sums_take_bound(
                            svf,
                            k as int,
                            Seq::<u8>::empty(),
                            Seq::<u8>::empty(),
                        );
                    } else {
                        let (cp, cn): (Seq<u8>, Seq<u8>) = choose|p: Seq<u8>, n: Seq<u8>|
                            #[trigger] assets_sum(svk, p, n) > u64::MAX;
                        crate::value::lemma_value_sums_take_bound(svf, k as int, cp, cn);
                        assert(assets_sum(svf, cp, cn) > u64::MAX);
                    }
                }
                return Err(e);
            },
        };
        match try_change(&inputs_total, mints, outputs_total, assumed_fee) {
            Some(c) => {
                proof {
                    assert forall|p: Seq<u8>, n: Seq<u8>|
                        #[trigger] c.amount_of(p, n) == assets_sum(
                            sel_values(wallet@, om, k as int),
                            p,
                            n,
                        ) + mint_amount_in(mints@, p, n) - outputs_total.amount_of(p, n) by {
                        assert(c.amount_of(p, n) == inputs_total.amount_of(p, n) + mint_amount_in(
                            mints@,
                            p,
                            n,
                        ) - outputs_total.amount_of(p, n));
                        assert(inputs_total.amount_of(p, n) == assets_sum(
                            sel_values(wallet@, om, k as int),
                            p,
                            n,
                        ));
                    }
                }
                proof {
                    assert(c.wf());
                    assert(inputs_total.lovelace == lovelace_sum(
                        sel_values(wallet@, om, k as int),
                    ));
                    assert(c.lovelace == lovelace_sum(sel_values(wallet@, om, k as int))
                        - outputs_total.lovelace - assumed_fee);
                    assert forall|p: Seq<u8>, n: Seq<u8>|
                        #[trigger] assets_sum(sel_values(wallet@, om, k as int), p, n)
                            + mint_amount_in(mints@, p, n) <= u64::MAX by {
                        assert(inputs_total.amount_of(p, n) + mint_amount_in(mints@, p, n)
                            <= u64::MAX);
                        assert(inputs_total.amount_of(p, n) == assets_sum(
                            sel_values(wallet@, om, k as int),
                            p,
                            n,
                        ));
                    }
                }
                change_opt = Some(c);
                break;
            },
            None => {
                proof {
                    assert(!spec_covers(wallet@, om, k as int, mints@, *outputs_total, assumed_fee))
                        by {
                        let sv = sel_values(wallet@, om, k as int);
                        if inputs_total.lovelace - outputs_total.lovelace - assumed_fee < 0 {
                            assert(lovelace_sum(sv) - outputs_total.lovelace - assumed_fee < 0);
                        } else {
                            let (cp, cn): (Seq<u8>, Seq<u8>) = choose|p: Seq<u8>, n: Seq<u8>|
                                #[trigger] inputs_total.amount_of(p, n) + mint_amount_in(
                                    mints@,
                                    p,
                                    n,
                                ) - outputs_total.amount_of(p, n) < 0 || inputs_total.amount_of(
                                    p,
                                    n,
                                ) + mint_amount_in(mints@, p, n) > u64::MAX;
                            assert(inputs_total.amount_of(cp, cn) == assets_sum(sv, cp, cn));
                            if spec_covers(
                                wallet@,
                                om,
                                k as int,
                                mints@,
                                *outputs_total,
                                assumed_fee,
                            ) {
                                assert(assets_sum(sv, cp, cn) + mint_amount_in(mints@, cp, cn)
                                    >= outputs_total.amount_of(cp, cn));
                                assert(assets_sum(sv, cp, cn) + mint_amount_in(mints@, cp, cn)
                                    <= u64::MAX);
                                assert(false);
                            }
                        }
                    }
                }
                if k == order.len() {
                    proof {
                        assert(om.len() == order@.len());
                        assert(!spec_covers(
                            wallet@,
                            om,
                            om.len() as int,
                            mints@,
                            *outputs_total,
                            assumed_fee,
                        ));
                    }
                    return Err(
                        Error::TransactionBuildError(
                            "insufficient funds in wallet for requested outputs and fee".to_owned(),
                        ),
                    );
                }
                k = k + 1;
            },
        }
    }
    let change = match change_opt {
        Some(c) => c,
        None => {
            return Err(Error::TransactionBuildError("input selection left no change".to_owned()));
        },
    };
    proof {
        assert forall|p: Seq<u8>, n: Seq<u8>|
            #[trigger] assets_sum(sel_values(wallet@, om, k as int), p, n) + mint_amount_in(
                mints@,
                p,
                n,
            ) >= outputs_total.amount_of(p, n) by {
            crate::value::lemma_amount_in_nonneg(change.assets@, p, n);
            assert(change.amount_of(p, n) == assets_sum(sel_values(wallet@, om, k as int), p, n)
                + mint_amount_in(mints@, p, n) - outputs_total.amount_of(p, n));
        }
        assert(spec_covers(wallet@, om, k as int, mints@, *outputs_total, assumed_fee));
        assert(change_matches(change, wallet@, om, k as int, mints@, *outputs_total, assumed_fee));
    }
    // Price the candidate's size.
    let in_sz = match sel_refs_size(wallet, order, k) {
        Some(t) => t,
        None => {
            proof {
                crate::fees::lemma_body_size_parts_nonneg(
                    sel_refs(wallet@, om, k as int),
                    outputs@,
                    *change_address,
                    change,
                    mints@,
                    signers@,
                    ref_inputs@,
                    redeemers@,
                );
                lemma_witness_size_failure(
                    wallet@,
                    om,
                    k as int,
                    change,
                    mints@,
                    *outputs_total,
                    redeemers@,
                    units@,
                    *fp,
                    outputs@,
                    *change_address,
                    signers@,
                    ref_inputs@,
                    assumed_fee,
                );
            }
            return Err(Error::TransactionBuildError("candidate size out of range".to_owned()));
        },
    };
    let out_sz = match crate::fees::outputs_size(outputs) {
        Some(t) => t,
        None => {
            proof {
                crate::fees::lemma_body_size_parts_nonneg(
                    sel_refs(wallet@, om, k as int),
                    outputs@,
                    *change_address,
                    change,
                    mints@,
                    signers@,
                    ref_inputs@,
                    redeemers@,
                );
                lemma_witness_size_failure(
                    wallet@,
                    om,
                    k as int,
                    change,
                    mints@,
                    *outputs_total,
                    redeemers@,
                    units@,
                    *fp,
                    outputs@,
                    *change_address,
                    signers@,
                    ref_inputs@,
                    assumed_fee,
                );
            }
            return Err(Error::TransactionBuildError("candidate size out of range".to_owned()));
        },
    };
    let chg_sz = match crate::fees::change_output_size(change_address, &change) {
        Some(t) => t,
        None => {
            proof {
                crate::fees::lemma_body_size_parts_nonneg(
                    sel_refs(wallet@, om, k as int),
                    outputs@,
                    *change_address,
                    change,
                    mints@,
                    signers@,
                    ref_inputs@,
                    redeemers@,
                );
                lemma_witness_size_failure(
                    wallet@,
                    om,
                    k as int,
                    change,
                    mints@,
                    *outputs_total,
                    redeemers@,
                    units@,
                    *fp,
                    outputs@,
                    *change_address,
                    signers@,
                    ref_inputs@,
                    assumed_fee,
                );
            }
            return Err(Error::TransactionBuildError("candidate size out of range".to_owned()));
        },
    };
    let mint_sz = match crate::fees::mints_size(mints) {
        Some(t) => t,
        None => {
            proof {
                crate::fees::lemma_body_size_parts_nonneg(
                    sel_refs(wallet@, om, k as int),
                    outputs@,
                    *change_address,
                    change,
                    mints@,
                    signers@,
                    ref_inputs@,
                    redeemers@,
                );
                lemma_witness_size_failure(
                    wallet@,
                    om,
                    k as int,
                    change,
                    mints@,
                    *outputs_total,
                    redeemers@,
                    units@,
                    *fp,
                    outputs@,
                    *change_address,
                    signers@,
                    ref_inputs@,
                    assumed_fee,
                );
            }
            return Err(Error::TransactionBuildError("candidate size out of range".to_owned()));
        },
    };
    let sig_sz = match crate::fees::signers_size(signers) {
        Some(t) => t,
        None => {
            proof {
                crate::fees::lemma_body_size_parts_nonneg(
                    sel_refs(wallet@, om, k as int),
                    outputs@,
                    *change_address,
                    change,
                    mints@,
                    signers@,
                    ref_inputs@,
                    redeemers@,
                );
                lemma_witness_size_failure(
                    wallet@,
                    om,
                    k as int,
                    change,
                    mints@,
                    *outputs_total,
                    redeemers@,
                    units@,
                    *fp,
                    outputs@,
                    *change_address,
                    signers@,
                    ref_inputs@,
                    assumed_fee,
                );
            }
            return Err(Error::TransactionBuildError("candidate size out of range".to_owned()));
        },
    };
    let ri_sz = match crate::fees::refs_size(ref_inputs) {
        Some(t) => t,
        None => {
            proof {
                crate::fees::lemma_body_size_parts_nonneg(
                    sel_refs(wallet@, om, k as int),
                    outputs@,
                    *change_address,
                    change,
                    mints@,
                    signers@,
                    ref_inputs@,
                    redeemers@,
                );
                lemma_witness_size_failure(
                    wallet@,
                    om,
                    k as int,
                    change,
                    mints@,
                    *outputs_total,
                    redeemers@,
                    units@,
                    *fp,
                    outputs@,
                    *change_address,
                    signers@,
                    ref_inputs@,
                    assumed_fee,
                );
            }
            return Err(Error::TransactionBuildError("candidate size out of range".to_owned()));
        },
    };
    let rd_sz = match crate::fees::redeemers_size(redeemers) {
        Some(t) => t,
        None => {
            proof {
                crate::fees::lemma_body_size_parts_nonneg(
                    sel_refs(wallet@, om, k as int),
                    outputs@,
                    *change_address,
                    change,
                    mints@,
                    signers@,
                    ref_inputs@,
                    redeemers@,
                );
                lemma_witness_size_failure(
                    wallet@,
                    om,
                    k as int,
                    change,
                    mints@,
                    *outputs_total,
                    redeemers@,
                    units@,
                    *fp,
                    outputs@,
                    *change_address,
                    signers@,
                    ref_inputs@,
                    assumed_fee,
                );
            }
            return Err(Error::TransactionBuildError("candidate size out of range".to_owned()));
        },
    };
    let total128: u128 = 58 + in_sz as u128 + out_sz as u128 + chg_sz as u128 + mint_sz as u128
        + sig_sz as u128 + ri_sz as u128 + rd_sz as u128;
    let ghost size_spec = crate::fees::spec_body_size(
        sel_refs(wallet@, om, k as int),
        outputs@,
        *change_address,
        change,
        mints@,
        signers@,
        ref_inputs@,
        redeemers@,
    );
    proof {
        assert(total128 == size_spec);
    }
    if total128 > fp.max_tx_size as u128 {
        proof {
            lemma_witness_size_failure(
                wallet@,
                om,
                k as int,
                change,
                mints@,
                *outputs_total,
                redeemers@,
                units@,
                *fp,
                outputs@,
                *change_address,
                signers@,
                ref_inputs@,
                assumed_fee,
            );
        }
        return Err(
            Error::TransactionBuildError("transaction size exceeds protocol maximum".to_owned()),
        );
    }
    let size = total128 as u64;
    // Price the scripts and the whole fee.
    let sfee = match crate::fees::script_fee(redeemers, units, fp.price_memory, fp.price_steps) {
        Ok(t) => t,
        Err(e) => {
            proof {
                match e {
                    Error::TransactionBuildError(_) => {
                        assert(spec_balance_failure(
                            wallet@,
                            om,
                            mints@,
                            *outputs_total,
                            redeemers@,
                            units@,
                            *fp,
                            outputs@,
                            *change_address,
                            signers@,
                            ref_inputs@,
                            assumed_fee,
                        ));
                    },
                    _ => {},
                }
            }
            return Err(e);
        },
    };
    proof {
        assert((fp.coefficient as u128) * (size as u128) <= (u64::MAX as u128) * (u64::MAX as u128))
            by (nonlinear_arith)
            requires
                fp.coefficient as u128 <= u64::MAX as u128,
                size as u128 <= u64::MAX as u128,
        ;
    }
    let fee128: u128 = (fp.coefficient as u128) * (size as u128) + fp.constant as u128
        + sfee as u128;
    let ghost priced_spec = spec_priced_fee(
        wallet@,
        om,
        k as int,
        change,
        mints@,
        redeemers@,
        units@,
        *fp,
        outputs@,
        *change_address,
        signers@,
        ref_inputs@,
    );
    proof {
        assert(priced_spec == fee128);
    }
    if fee128 > u64::MAX as u128 {
        proof {
            lemma_witness_size_failure(
                wallet@,
                om,
                k as int,
                change,
                mints@,
                *outputs_total,
                redeemers@,
                units@,
                *fp,
                outputs@,
                *change_address,
                signers@,
                ref_inputs@,
                assumed_fee,
            );
        }
        return Err(Error::TransactionBuildError("fee out of range".to_owned()));
    }
    let priced_fee = fee128 as u64;
    if priced_fee != assumed_fee {
        proof {
            assert(change_matches(
                change,
                wallet@,
                om,
                k as int,
                mints@,
                *outputs_total,
                assumed_fee,
            ) && priced_fee as int == spec_priced_fee(
                wallet@,
                om,
                k as int,
                change,
                mints@,
                redeemers@,
                units@,
                *fp,
                outputs@,
                *change_address,
                signers@,
                ref_inputs@,
            ));
        }
        return Ok(IterOutcome::Continue(priced_fee, k));
    }
    // Select collateral for the now-final fee.
    let spent = materialize_refs(wallet, order, k);
    let collateral: Vec<UtxoRef> = if redeemers.len() > 0 {
        proof {
            assert((priced_fee as u128) * (fp.collateral_percentage as u128) <= (u64::MAX as u128)
                * (u64::MAX as u128))
                by (nonlinear_arith)
                requires
                    priced_fee as u128 <= u64::MAX as u128,
                    fp.collateral_percentage as u128 <= u64::MAX as u128,
            ;
        }
        let thr128: u128 = ((priced_fee as u128) * (fp.collateral_percentage as u128) + 99) / 100;
        if thr128 > u64::MAX as u128 {
            proof {
                assert(change_matches(
                    change,
                    wallet@,
                    om,
                    k as int,
                    mints@,
                    *outputs_total,
                    assumed_fee,
                ) && spec_priced_fee(
                    wallet@,
                    om,
                    k as int,
                    change,
                    mints@,
                    redeemers@,
                    units@,
                    *fp,
                    outputs@,
                    *change_address,
                    signers@,
                    ref_inputs@,
                ) == assumed_fee as int);
                assert(spec_collateral_threshold(assumed_fee, fp.collateral_percentage)
                    > u64::MAX);
            }
            return Err(Error::MissingCollateral);
        }
        let threshold = thr128 as u64;
        proof {
            assert(threshold as int == spec_collateral_threshold(
                priced_fee,
                fp.collateral_percentage,
            ));
            crate::collateral::lemma_select_spent_congruent(
                wallet@,
                spent@,
                sel_refs(wallet@, om, k as int),
                threshold,
                fp.max_collateral_inputs,
            );
        }
        match crate::collateral::select_collateral(
            wallet,
            &spent,
            threshold,
            fp.max_collateral_inputs,
        ) {
            Ok(sel) => sel,
            Err(_) => {
                proof {
                    assert(change_matches(
                        change,
                        wallet@,
                        om,
                        k as int,
                        mints@,
                        *outputs_total,
                        assumed_fee,
                    ) && spec_priced_fee(
                        wallet@,
                        om,
                        k as int,
                        change,
                        mints@,
                        redeemers@,
                        units@,
                        *fp,
                        outputs@,
                        *change_address,
                        signers@,
                        ref_inputs@,
                    ) == assumed_fee as int);
                    assert(crate::collateral::spec_select_collateral(
                        wallet@,
                        sel_refs(wallet@, om, k as int),
                        spec_collateral_threshold(assumed_fee, fp.collateral_percentage) as u64,
                        fp.max_collateral_inputs,
                    ) is None);
                }
                return Err(Error::MissingCollateral);
            },
        }
    } else {
        Vec::new()
    };
    let input_values = materialize_values(wallet, order, k);
    let c = BalancedCandidate {
        inputs: spent,
        input_values,
        collateral,
        fee: priced_fee,
        change,
    };
    proof {
        let sv = sel_values(wallet@, om, k as int);
        crate::value::lemma_value_sums_congruent(c.input_values@, sv, Seq::<u8>::empty(), Seq::<u8>::empty());
        assert forall|p: Seq<u8>, n: Seq<u8>|
            #[trigger] assets_sum(c.input_values@, p, n) + mint_amount_in(mints@, p, n)
                == outputs_total.amount_of(p, n) + c.change.amount_of(p, n) by {
            crate::value::lemma_value_sums_congruent(c.input_values@, sv, p, n);
        }
        assert forall|x: int|
            0 <= x < c.collateral@.len() implies !crate::collateral::spent_contains(
            sel_refs(wallet@, om, k as int),
            (#[trigger] c.collateral@[x]).tx_id@,
            c.collateral@[x].index,
        ) by {
            if crate::collateral::spent_contains(
                sel_refs(wallet@, om, k as int),
                c.collateral@[x].tx_id@,
                c.collateral@[x].index,
            ) {
                let w = choose|w: int|
                    0 <= w < sel_refs(wallet@, om, k as int).len() && crate::chain::ref_matches(
                        #[trigger] sel_refs(wallet@, om, k as int)[w],
                        c.collateral@[x].tx_id@,
                        c.collateral@[x].index,
                    );
                assert(crate::chain::ref_matches(
                    spent@[w],
                    c.collateral@[x].tx_id@,
                    c.collateral@[x].index,
                ));
            }
        }
    }
    Ok(IterOutcome::Converged(c))
}

/// Balances to a fixed point under a hard iteration cap: seeds the fee
/// with the size-free lower bound, re-prices until the assumed and priced
/// fees agree, and reports divergence, carrying the exhausted bound, when
/// they never do. This loop is the only iteration in a build, so every
/// build terminates.
pub fn balance(
    wallet: &Vec<Utxo>,
    order: &Vec<usize>,
    mints: &Vec<crate::value::MintAsset>,
    outputs_total: &Value,
    redeemers: &Vec<Redeemer>,
    units: &Vec<ExUnitsEntry>,
    fp: &FeeParams,
    outputs: &Vec<crate::request::OutputSpec>,
    change_address: &crate::chain::Address,
    signers: &Vec<Vec<u8>>,
    ref_inputs: &Vec<UtxoRef>,
    max_iterations: u64,
) -> (r: Result<BalancedCandidate, Error>)
    requires
        fp.wf(),
        max_iterations >= 1,
        forall|j: int| 0 <= j < order@.len() ==> (#[trigger] order@[j]) < wallet@.len(),
        forall|i: int| 0 <= i < wallet@.len() ==> (#[trigger] wallet@[i]).value.wf(),
        outputs_total.wf(),
        crate::value::distinct_mint_classes(mints@),
    ensures
        match r {
            Ok(c) => {
                &&& spec_converged(
                    c,
                    wallet@,
                    order@,
                    mints@,
                    *outputs_total,
                    redeemers@,
                    units@,
                    *fp,
                    outputs@,
                    *change_address,
                    signers@,
                    ref_inputs@,
                )
                &&& spec_covers(
                    wallet@,
                    omap(order@),
                    c.inputs@.len() as int,
                    mints@,
                    *outputs_total,
                    c.fee,
                )
            },
            Err(e) => match e {
                Error::MissingExUnits(tag, idx) => exists|x: int|
                    0 <= x < redeemers@.len() && (#[trigger] redeemers@[x]).tag == tag
                        && redeemers@[x].index == idx && spec_find_units(units@, tag, idx) is None,
                Error::MissingCollateral => {
                    &&& redeemers@.len() > 0
                    &&& exists|f: u64, k: int, c: Value|
                        #![trigger change_matches(
                            c,
                            wallet@,
                            omap(order@),
                            k,
                            mints@,
                            *outputs_total,
                            f,
                        )]
                        0 <= k <= order@.len() && spec_round_fee(
                            f,
                            wallet@,
                            omap(order@),
                            mints@,
                            *outputs_total,
                            redeemers@,
                            units@,
                            *fp,
                            outputs@,
                            *change_address,
                            signers@,
                            ref_inputs@,
                        ) && change_matches(
                            c,
                            wallet@,
                            omap(order@),
                            k,
                            mints@,
                            *outputs_total,
                            f,
                        ) && spec_priced_fee(
                            wallet@,
                            omap(order@),
                            k,
                            c,
                            mints@,
                            redeemers@,
                            units@,
                            *fp,
                            outputs@,
                            *change_address,
                            signers@,
                            ref_inputs@,
                        ) == f as int && (spec_collateral_threshold(f, fp.collateral_percentage)
                            > u64::MAX || crate::collateral::spec_select_collateral(
                            wallet@,
                            sel_refs(wallet@, omap(order@), k),
                            spec_collateral_threshold(f, fp.collateral_percentage) as u64,
                            fp.max_collateral_inputs,
                        ) is None)
                },
                Error::BalancingDiverged(b) => {
                    &&& b == max_iterations
                    &&& exists|f: u64, k: int, c: Value|
                        #![trigger change_matches(
                            c,
                            wallet@,
                            omap(order@),
                            k,
                            mints@,
                            *outputs_total,
                            f,
                        )]
                        0 <= k <= order@.len() && change_matches(
                            c,
                            wallet@,
                            omap(order@),
                            k,
                            mints@,
                            *outputs_total,
                            f,
                        ) && spec_priced_fee(
                            wallet@,
                            omap(order@),
                            k,
                            c,
                            mints@,
                            redeemers@,
                            units@,
                            *fp,
                            outputs@,
                            *change_address,
                            signers@,
                            ref_inputs@,
                        ) != f
                },
                Error::TransactionBuildError(_) => exists|f: u64|
                    #![trigger spec_balance_failure(
                        wallet@,
                        omap(order@),
                        mints@,
                        *outputs_total,
                        redeemers@,
                        units@,
                        *fp,
                        outputs@,
                        *change_address,
                        signers@,
                        ref_inputs@,
                        f,
                    )]
                    spec_round_fee(
                        f,
                        wallet@,
                        omap(order@),
                        mints@,
                        *outputs_total,
                        redeemers@,
                        units@,
                        *fp,
                        outputs@,
                        *change_address,
                        signers@,
                        ref_inputs@,
                    ) && spec_balance_failure(
                        wallet@,
                        omap(order@),
                        mints@,
                        *outputs_total,
                        redeemers@,
                        units@,
                        *fp,
                        outputs@,
                        *change_address,
                        signers@,
                        ref_inputs@,
                        f,
                    ),
                _ => false,
            },
        },
{
    let mut assumed_fee: u64 = fp.constant;
    let mut k: usize = 0;
    let mut iter: u64 = 0;
    while iter < max_iterations
        invariant
            iter <= max_iterations,
            k <= order@.len(),
            fp.wf(),
            forall|j: int| 0 <= j < order@.len() ==> (#[trigger] order@[j]) < wallet@.len(),
            forall|i: int| 0 <= i < wallet@.len() ==> (#[trigger] wallet@[i]).value.wf(),
            outputs_total.wf(),
            crate::value::distinct_mint_classes(mints@),
            spec_round_fee(
                assumed_fee,
                wallet@,
                omap(order@),
                mints@,
                *outputs_total,
                redeemers@,
                units@,
                *fp,
                outputs@,
                *change_address,
                signers@,
                ref_inputs@,
            ),
            iter > 0 ==> exists|f: u64, k2: int, c: Value|
                #![trigger change_matches(
                    c,
                    wallet@,
                    omap(order@),
                    k2,
                    mints@,
                    *outputs_total,
                    f,
                )]
                0 <= k2 <= order@.len() && change_matches(
                    c,
                    wallet@,
                    omap(order@),
                    k2,
                    mints@,
                    *outputs_total,
                    f,
                ) && spec_priced_fee(
                    wallet@,
                    omap(order@),
                    k2,
                    c,
                    mints@,
                    redeemers@,
                    units@,
                    *fp,
                    outputs@,
                    *change_address,
                    signers@,
                    ref_inputs@,
                ) != f,
        decreases max_iterations - iter,
    {
        let ghost round_fee = assumed_fee;
        match balance_iteration(
            wallet,
            order,
            mints,
            outputs_total,
            redeemers,
            units,
            fp,
            outputs,
            change_address,
            signers,
            ref_inputs,
            assumed_fee,
            k,
        ) {
            Ok(IterOutcome::Converged(c)) => {
                return Ok(c);
            },
            Ok(IterOutcome::Continue(f2, k2)) => {
                proof {
                    let c = choose|c: Value|
                        #![trigger change_matches(
                            c,
                            wallet@,
                            omap(order@),
                            k2 as int,
                            mints@,
                            *outputs_total,
                            round_fee,
                        )]
                        change_matches(
                            c,
                            wallet@,
                            omap(order@),
                            k2 as int,
                            mints@,
                            *outputs_total,
                            round_fee,
                        ) && f2 as int == spec_priced_fee(
                            wallet@,
                            omap(order@),
                            k2 as int,
                            c,
                            mints@,
                            redeemers@,
                            units@,
                            *fp,
                            outputs@,
                            *change_address,
                            signers@,
                            ref_inputs@,
                        );
                    assert(change_matches(
                        c,
                        wallet@,
                        omap(order@),
                        k2 as int,
                        mints@,
                        *outputs_total,
                        round_fee,
                    ));
                    assert(spec_priced_fee(
                        wallet@,
                        omap(order@),
                        k2 as int,
                        c,
                        mints@,
                        redeemers@,
                        units@,
                        *fp,
                        outputs@,
                        *change_address,
                        signers@,
                        ref_inputs@,
                    ) != round_fee as int);
                }
                assumed_fee = f2;
                k = k2;
            },
            Err(e) => {
                return Err(e);
            },
        }
        iter = iter + 1;
    }
    Err(Error::BalancingDiverged(max_iterations))
}

/// The candidate's redeemers: one per mint, tagged by the mint purpose at
/// the mint's position, then the request's explicit script invocations.
pub fn gather_redeemers(
    mints: &Vec<crate::value::MintAsset>,
    mint_redeemers: &Vec<Vec<u8>>,
    invocations: &Vec<crate::request::ScriptInvocation>,
) -> (r: Vec<Redeemer>)
    requires
        mint_redeemers@.len() == mints@.len(),
        mints@.len() <= u64::MAX,
    ensures
        r@.len() == mints@.len() + invocations@.len(),
        forall|i: int|
            0 <= i < mints@.len() ==> (#[trigger] r@[i]).tag == RedeemerTag::Mint && r@[i].index
                == i && r@[i].data@ == mint_redeemers@[i]@,
        forall|i: int|
            0 <= i < invocations@.len() ==> (#[trigger] r@[mints@.len() + i]).tag
                == invocations@[i].tag && r@[mints@.len() + i].index == invocations@[i].index
                && r@[mints@.len() + i].data@ == invocations@[i].redeemer@,
{
    let mut out: Vec<Redeemer> = Vec::new();
    let mut i: usize = 0;
    while i < mints.len()
        invariant
            i <= mints@.len(),
            mints@.len() <= u64::MAX,
            mint_redeemers@.len() == mints@.len(),
            out@.len() == i,
            forall|x: int|
                0 <= x < i ==> (#[trigger] out@[x]).tag == RedeemerTag::Mint && out@[x].index == x
                    && out@[x].data@ == mint_redeemers@[x]@,
        decreases mints@.len() - i,
    {
        out.push(
            Redeemer {
                tag: RedeemerTag::Mint,
                index: i as u64,
                data: bytes_clone(&mint_redeemers[i]),
            },
        );
        i = i + 1;
    }
    let mut j: usize = 0;
    while j < invocations.len()
        invariant
            j <= invocations@.len(),
            mints@.len() <= u64::MAX,
            out@.len() == mints@.len() + j,
            forall|x: int|
                0 <= x < mints@.len() ==> (#[trigger] out@[x]).tag == RedeemerTag::Mint
                    && out@[x].index == x && out@[x].data@ == mint_redeemers@[x]@,
            forall|x: int|
                0 <= x < j ==> (#[trigger] out@[mints@.len() + x]).tag == invocations@[x].tag
                    && out@[mints@.len() + x].index == invocations@[x].index && out@[mints@.len()
                    + x].data@ == invocations@[x].redeemer@,
        decreases invocations@.len() - j,
    {
        let inv = &invocations[j];
        out.push(
            Redeemer { tag: inv.tag, index: inv.index, data: bytes_clone(&inv.redeemer) },
        );
        j = j + 1;
    }
    out
}

/// The values the request's outputs ask for, in request order.
pub open spec fn out_values(outputs: Seq<crate::request::OutputSpec>) -> Seq<Value> {
    Seq::new(outputs.len(), |i: int| outputs[i].value)
}

/// Sums the values of the requested outputs.
pub fn sum_output_values(outputs: &Vec<crate::request::OutputSpec>) -> (r: Result<Value, Error>)
    requires
        forall|i: int| 0 <= i < outputs@.len() ==> (#[trigger] outputs@[i]).value.wf(),
    ensures
        match r {
            Ok(t) => {
                &&& t.wf()
                &&& t.lovelace == lovelace_sum(out_values(outputs@))
                &&& forall|p: Seq<u8>, n: Seq<u8>| #[trigger] t.amount_of(p, n) == assets_sum(
                    out_values(outputs@),
                    p,
                    n,
                )
            },
            Err(e) => {
                &&& e matches Error::TransactionBuildError(_)
                &&& (lovelace_sum(out_values(outputs@)) > u64::MAX || exists|
                    p: Seq<u8>,
                    n: Seq<u8>,
                |
                    #[trigger] assets_sum(out_values(outputs@), p, n) > u64::MAX)
            },
        },
{
    let ghost sv = out_values(outputs@);
    let mut acc = Value::from_lovelace(0);
    let mut j: usize = 0;
    proof {
        assert(sv.take(0) =~= Seq::<Value>::empty());
        assert forall|p: Seq<u8>, n: Seq<u8>|
            #[trigger] amount_in(acc.assets@, p, n) == assets_sum(sv.take(0), p, n) by {
            assert(acc.amount_of(p, n) == 0);
        }
    }
    while j < outputs.len()
        invariant
            j <= outputs@.len(),
            forall|i: int| 0 <= i < outputs@.len() ==> (#[trigger] outputs@[i]).value.wf(),
            sv == out_values(outputs@),
            acc.wf(),
            acc.lovelace == lovelace_sum(sv.take(j as int)),
            forall|p: Seq<u8>, n: Seq<u8>|
                #[trigger] amount_in(acc.assets@, p, n) == assets_sum(sv.take(j as int), p, n),
        decreases outputs@.len() - j,
    {
        proof {
            assert(sv[j as int] == outputs@[j as int].value);
        }
        match value_add(&acc, &outputs[j].value) {
            Some(t) => {
                proof {
                    assert forall|p: Seq<u8>, n: Seq<u8>|
                        #[trigger] amount_in(t.assets@, p, n) == assets_sum(
                            sv.take(j as int + 1),
                            p,
                            n,
                        ) by {
                        assert(t.amount_of(p, n) == acc.amount_of(p, n)
                            + outputs@[j as int].value.amount_of(p, n));
                        crate::value::lemma_value_sums_take_step(sv, j as int, p, n);
                    }
                    crate::value::lemma_value_sums_take_step(
                        sv,
                        j as int,
                        Seq::<u8>::empty(),
                        Seq::<u8>::empty(),
                    );
                }
                acc = t;
            },
            None => {
                proof {
                    if acc.lovelace + outputs@[j as int].value.lovelace > u64::MAX {
                        crate::value::lemma_value_sums_take_step(
                            sv,
                            j as int,
                            Seq::<u8>::empty(),
                            Seq::<u8>::empty(),
                        );
                        crate::value::lemma_value_sums_take_bound(
                            sv,
                            j as int + 1,
                            Seq::<u8>::empty(),
                            Seq::<u8>::empty(),
                        );
                    } else {
                        let (cp, cn): (Seq<u8>, Seq<u8>) = choose|p: Seq<u8>, n: Seq<u8>|
                            #[trigger] acc.amount_of(p, n) + outputs@[j as int].value.amount_of(
                                p,
                                n,
                            ) > u64::MAX;
                        crate::value::lemma_value_sums_take_step(sv, j as int, cp, cn);
                        crate::value::lemma_value_sums_take_bound(sv, j as int + 1, cp, cn);
                        assert(assets_sum(sv, cp, cn) > u64::MAX);
                    }
                }
                return Err(
                    Error::TransactionBuildError("requested output value out of range".to_owned()),
                );
            },
        }
        j = j + 1;
    }
    proof {
        assert(sv.take(outputs@.len() as int) =~= sv);
    }
    Ok(acc)
}

} // verus!
