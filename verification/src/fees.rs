//! The fee model: a deterministic size measure of the candidate body, and
//! the fee formula `a * size + b + script cost`, with script cost priced
//! per execution unit at rational prices, rounded up.
//!
//! The size measure is the library's own canonical encoding length: every
//! field contributes its byte length plus a fixed-width length prefix or
//! discriminant, so the measure is a function of the candidate alone.

use vstd::prelude::*;
use crate::chain::{Address, ExUnitsEntry, RationalPrice, Redeemer, UtxoRef, spec_find_units};
use crate::error::Error;
use crate::request::OutputSpec;
use crate::value::{Asset, MintAsset, Value};

verus! {

/// Sum of `f` over the elements of `s`.
pub open spec fn sum_by<T>(s: Seq<T>, f: spec_fn(T) -> int) -> int
    decreases s.len(),
{
    if s.len() == 0 {
        0
    } else {
        f(s[0]) + sum_by(s.drop_first(), f)
    }
}

pub proof fn lemma_sum_by_push<T>(s: Seq<T>, f: spec_fn(T) -> int, x: T)
    ensures
        sum_by(s.push(x), f) == sum_by(s, f) + f(x),
    decreases s.len(),
{
    let t = s.push(x);
    if s.len() == 0 {
        assert(t[0] == x);
        assert(t.drop_first() =~= Seq::<T>::empty());
        assert(sum_by(t.drop_first(), f) == 0);
    } else {
        assert(t[0] == s[0]);
        assert(t.drop_first() =~= s.drop_first().push(x));
        lemma_sum_by_push(s.drop_first(), f, x);
    }
}

pub proof fn lemma_sum_by_take_step<T>(s: Seq<T>, f: spec_fn(T) -> int, i: int)
    requires
        0 <= i < s.len(),
    ensures
        sum_by(s.take(i + 1), f) == sum_by(s.take(i), f) + f(s[i]),
{
    assert(s.take(i + 1) =~= s.take(i).push(s[i]));
    lemma_sum_by_push(s.take(i), f, s[i]);
}

pub proof fn lemma_sum_by_nonneg<T>(s: Seq<T>, f: spec_fn(T) -> int)
    requires
        forall|k: int| 0 <= k < s.len() ==> f(#[trigger] s[k]) >= 0,
    ensures
        sum_by(s, f) >= 0,
    decreases s.len(),
{
    if s.len() > 0 {
        assert(forall|k: int|
            0 <= k < s.drop_first().len() ==> f(#[trigger] s.drop_first()[k]) == f(s[k + 1]));
        lemma_sum_by_nonneg(s.drop_first(), f);
    }
}

/// A sum over a whole sequence of non-negative terms is at least the sum
/// over a prefix.
pub proof fn lemma_sum_by_take_bound<T>(s: Seq<T>, f: spec_fn(T) -> int, i: int)
    requires
        0 <= i <= s.len(),
        forall|k: int| 0 <= k < s.len() ==> f(#[trigger] s[k]) >= 0,
    ensures
        sum_by(s.take(i), f) <= sum_by(s, f),
    decreases s.len() - i,
{
    if i == s.len() {
        assert(s.take(i) =~= s);
    } else {
        lemma_sum_by_take_step(s, f, i);
        lemma_sum_by_take_bound(s, f, i + 1);
    }
}

/// Size of one input or collateral reference.
pub open spec fn spec_ref_size(r: UtxoRef) -> int {
    8 + r.tx_id@.len() as int + 8
}

/// Size of one asset entry in a value.
pub open spec fn spec_asset_size(a: Asset) -> int {
    8 + a.policy@.len() as int + 8 + a.name@.len() as int + 8
}

/// Size of a multi-asset value.
pub open spec fn spec_value_size(v: Value) -> int {
    8 + 8 + sum_by(v.assets@, asset_size_fn())
}

/// Size of an address.
pub open spec fn spec_address_size(a: Address) -> int {
    1 + 8 + a.payment@.len() as int + (match a.stake {
        Some(s) => 8 + s@.len() as int,
        None => 1,
    })
}

/// Size of an output, its datum included.
pub open spec fn spec_output_size(o: OutputSpec) -> int {
    spec_address_size(o.address) + spec_value_size(o.value) + (match o.datum {
        Some(crate::chain::OutputDatum::DatumHash(h)) => 1 + 8 + h@.len() as int,
        Some(crate::chain::OutputDatum::InlineDatum(d)) => 1 + 8 + d@.len() as int,
        None => 1,
    })
}

/// Size of one mint entry.
pub open spec fn spec_mint_size(m: MintAsset) -> int {
    8 + m.policy@.len() as int + 8 + m.name@.len() as int + 8
}

/// Size of one required-signer key hash.
pub open spec fn spec_signer_size(s: Vec<u8>) -> int {
    8 + s@.len() as int
}

/// Size of one redeemer with its attached execution units.
pub open spec fn spec_redeemer_size(r: Redeemer) -> int {
    1 + 8 + 8 + r.data@.len() as int + 16
}

/// The reference-size summand, named so every use is the same function.
pub open spec fn ref_size_fn() -> spec_fn(UtxoRef) -> int {
    |r: UtxoRef| spec_ref_size(r)
}

/// The asset-size summand.
pub open spec fn asset_size_fn() -> spec_fn(Asset) -> int {
    |a: Asset| spec_asset_size(a)
}

/// The output-size summand.
pub open spec fn output_size_fn() -> spec_fn(OutputSpec) -> int {
    |o: OutputSpec| spec_output_size(o)
}

/// The mint-size summand.
pub open spec fn mint_size_fn() -> spec_fn(MintAsset) -> int {
    |m: MintAsset| spec_mint_size(m)
}

/// The signer-size summand.
pub open spec fn signer_size_fn() -> spec_fn(Vec<u8>) -> int {
    |s: Vec<u8>| spec_signer_size(s)
}

/// The redeemer-size summand.
pub open spec fn redeemer_size_fn() -> spec_fn(Redeemer) -> int {
    |r: Redeemer| spec_redeemer_size(r)
}

/// The candidate body's size: a fixed header (fee, validity interval and
/// the collateral allowance included) plus every listed component, the
/// change output counted as its address, its value and a datum marker.
pub open spec fn spec_body_size(
    inputs: Seq<UtxoRef>,
    outputs: Seq<OutputSpec>,
    change_address: Address,
    change: Value,
    mints: Seq<MintAsset>,
    signers: Seq<Vec<u8>>,
    ref_inputs: Seq<UtxoRef>,
    redeemers: Seq<Redeemer>,
) -> int {
    58 + sum_by(inputs, ref_size_fn()) + sum_by(outputs, output_size_fn()) + spec_address_size(
        change_address,
    ) + spec_value_size(change) + 1 + sum_by(mints, mint_size_fn()) + sum_by(
        signers,
        signer_size_fn(),
    ) + sum_by(ref_inputs, ref_size_fn()) + sum_by(redeemers, redeemer_size_fn())
}

/// `num / den` of `units`, rounded up; the script-cost rounding the
/// protocol prescribes.
pub open spec fn spec_price(units: u64, p: RationalPrice) -> int {
    (units * p.num + (p.den - 1)) / (p.den as int)
}

/// Cost of one redeemer's execution units at the given prices. Zero when
/// no units are listed for it; completeness is checked separately.
pub open spec fn spec_redeemer_cost(
    r: Redeemer,
    units: Seq<ExUnitsEntry>,
    pm: RationalPrice,
    ps: RationalPrice,
) -> int {
    match spec_find_units(units, r.tag, r.index) {
        Some(e) => spec_price(e.memory, pm) + spec_price(e.steps, ps),
        None => 0,
    }
}

/// The redeemer-cost summand at fixed units and prices.
pub open spec fn cost_fn(units: Seq<ExUnitsEntry>, pm: RationalPrice, ps: RationalPrice) -> spec_fn(
    Redeemer,
) -> int {
    |r: Redeemer| spec_redeemer_cost(r, units, pm, ps)
}

/// Total script cost of the candidate's redeemers.
pub open spec fn spec_script_fee(
    redeemers: Seq<Redeemer>,
    units: Seq<ExUnitsEntry>,
    pm: RationalPrice,
    ps: RationalPrice,
) -> int {
    sum_by(redeemers, cost_fn(units, pm, ps))
}

/// The full fee of a candidate of size `size`:
/// `a * size + b + script cost`.
pub open spec fn spec_fee(a: u64, b: u64, size: int, script_fee: int) -> int {
    a * size + b + script_fee
}

/// Adds a component to a running size, `None` past the representable range.
fn size_add(acc: u64, part: u128) -> (r: Option<u64>)
    ensures
        match r {
            Some(t) => t == acc + part,
            None => acc + part > u64::MAX,
        },
{
    if part > (u64::MAX - acc) as u128 {
        None
    } else {
        Some(acc + (part as u64))
    }
}

/// Total size of a list of references, `None` past the range.
pub fn refs_size(s: &Vec<UtxoRef>) -> (r: Option<u64>)
    ensures
        match r {
            Some(t) => t == sum_by(s@, ref_size_fn()),
            None => sum_by(s@, ref_size_fn()) > u64::MAX,
        },
{
    let ghost f = ref_size_fn();
    let mut acc: u64 = 0;
    let mut i: usize = 0;
    proof {
        assert(s@.take(0) =~= Seq::<UtxoRef>::empty());
    }
    while i < s.len()
        invariant
            i <= s@.len(),
            f == ref_size_fn(),
            acc == sum_by(s@.take(i as int), f),
        decreases s@.len() - i,
    {
        let item: u128 = 16 + s[i].tx_id.len() as u128;
        proof {
            lemma_sum_by_take_step(s@, f, i as int);
            assert(f(s@[i as int]) == spec_ref_size(s@[i as int]));
        }
        match size_add(acc, item) {
            Some(t) => {
                acc = t;
            },
            None => {
                proof {
                    assert forall|k: int| 0 <= k < s@.len() implies f(#[trigger] s@[k]) >= 0 by {
                        assert(f(s@[k]) == spec_ref_size(s@[k]));
                    }
                    lemma_sum_by_take_bound(s@, f, i as int + 1);
                }
                return None;
            },
        }
        i = i + 1;
    }
    proof {
        assert(s@.take(s@.len() as int) =~= s@);
    }
    Some(acc)
}

/// Size of a value's asset entries, `None` past the range.
fn assets_size(s: &Vec<Asset>) -> (r: Option<u64>)
    ensures
        match r {
            Some(t) => t == sum_by(s@, asset_size_fn()),
            None => sum_by(s@, asset_size_fn()) > u64::MAX,
        },
{
    let ghost f = asset_size_fn();
    let mut acc: u64 = 0;
    let mut i: usize = 0;
    proof {
        assert(s@.take(0) =~= Seq::<Asset>::empty());
    }
    while i < s.len()
        invariant
            i <= s@.len(),
            f == asset_size_fn(),
            acc == sum_by(s@.take(i as int), f),
        decreases s@.len() - i,
    {
        let item: u128 = 24 + s[i].policy.len() as u128 + s[i].name.len() as u128;
        proof {
            lemma_sum_by_take_step(s@, f, i as int);
            assert(f(s@[i as int]) == spec_asset_size(s@[i as int]));
        }
        match size_add(acc, item) {
            Some(t) => {
                acc = t;
            },
            None => {
                proof {
                    assert forall|k: int| 0 <= k < s@.len() implies f(#[trigger] s@[k]) >= 0 by {
                        assert(f(s@[k]) == spec_asset_size(s@[k]));
                    }
                    lemma_sum_by_take_bound(s@, f, i as int + 1);
                }
                return None;
            },
        }
        i = i + 1;
    }
    proof {
        assert(s@.take(s@.len() as int) =~= s@);
    }
    Some(acc)
}

/// Size of one output, `None` past the range.
pub fn output_size(o: &OutputSpec) -> (r: Option<u64>)
    ensures
        match r {
            Some(t) => t == spec_output_size(*o),
            None => spec_output_size(*o) > u64::MAX,
        },
{
    let addr: u128 = 9 + o.address.payment.len() as u128 + (match &o.address.stake {
        Some(sk) => 8 + sk.len() as u128,
        None => 1,
    });
    let datum: u128 = match &o.datum {
        Some(crate::chain::OutputDatum::DatumHash(h)) => 9 + h.len() as u128,
        Some(crate::chain::OutputDatum::InlineDatum(d)) => 9 + d.len() as u128,
        None => 1,
    };
    let assets = match assets_size(&o.value.assets) {
        Some(t) => t,
        None => {
            proof {
                let f = asset_size_fn();
                assert forall|k: int|
                    0 <= k < o.value.assets@.len() implies f(#[trigger] o.value.assets@[k])
                    >= 0 by {
                    assert(f(o.value.assets@[k]) == spec_asset_size(o.value.assets@[k]));
                }
                lemma_sum_by_nonneg(o.value.assets@, f);
            }
            return None;
        },
    };
    match size_add(assets, addr + datum + 16) {
        Some(t) => Some(t),
        None => {
            proof {
                let f = asset_size_fn();
                assert forall|k: int|
                    0 <= k < o.value.assets@.len() implies f(#[trigger] o.value.assets@[k]) >= 0 by {
                    assert(f(o.value.assets@[k]) == spec_asset_size(o.value.assets@[k]));
                }
                lemma_sum_by_nonneg(o.value.assets@, f);
            }
            None
        },
    }
}

/// Total size of a list of outputs, `None` past the range.
pub fn outputs_size(s: &Vec<OutputSpec>) -> (r: Option<u64>)
    ensures
        match r {
            Some(t) => t == sum_by(s@, output_size_fn()),
            None => sum_by(s@, output_size_fn()) > u64::MAX,
        },
{
    let ghost f = output_size_fn();
    let mut acc: u64 = 0;
    let mut i: usize = 0;
    proof {
        assert(s@.take(0) =~= Seq::<OutputSpec>::empty());
    }
    while i < s.len()
        invariant
            i <= s@.len(),
            f == output_size_fn(),
            acc == sum_by(s@.take(i as int), f),
        decreases s@.len() - i,
    {
        proof {
            lemma_sum_by_take_step(s@, f, i as int);
            assert(f(s@[i as int]) == spec_output_size(s@[i as int]));
            assert forall|k: int| 0 <= k < s@.len() implies f(#[trigger] s@[k]) >= 0 by {
                assert(f(s@[k]) == spec_output_size(s@[k]));
                let g = asset_size_fn();
                assert forall|j: int|
                    0 <= j < s@[k].value.assets@.len() implies g(#[trigger] s@[k].value.assets@[j])
                    >= 0 by {
                    assert(g(s@[k].value.assets@[j]) == spec_asset_size(s@[k].value.assets@[j]));
                }
                lemma_sum_by_nonneg(s@[k].value.assets@, g);
            }
        }
        let item = match output_size(&s[i]) {
            Some(t) => t,
            None => {
                proof {
                    lemma_sum_by_take_bound(s@, f, i as int + 1);
                }
                return None;
            },
        };
        match size_add(acc, item as u128) {
            Some(t) => {
                acc = t;
            },
            None => {
                proof {
                    lemma_sum_by_take_bound(s@, f, i as int + 1);
                }
                return None;
            },
        }
        i = i + 1;
    }
    proof {
        assert(s@.take(s@.len() as int) =~= s@);
    }
    Some(acc)
}

/// Total size of the mint listing, `None` past the range.
pub fn mints_size(s: &Vec<MintAsset>) -> (r: Option<u64>)
    ensures
        match r {
            Some(t) => t == sum_by(s@, mint_size_fn()),
            None => sum_by(s@, mint_size_fn()) > u64::MAX,
        },
{
    let ghost f = mint_size_fn();
    let mut acc: u64 = 0;
    let mut i: usize = 0;
    proof {
        assert(s@.take(0) =~= Seq::<MintAsset>::empty());
    }
    while i < s.len()
        invariant
            i <= s@.len(),
            f == mint_size_fn(),
            acc == sum_by(s@.take(i as int), f),
        decreases s@.len() - i,
    {
        let item: u128 = 24 + s[i].policy.len() as u128 + s[i].name.len() as u128;
        proof {
            lemma_sum_by_take_step(s@, f, i as int);
            assert(f(s@[i as int]) == spec_mint_size(s@[i as int]));
        }
        match size_add(acc, item) {
            Some(t) => {
                acc = t;
            },
            None => {
                proof {
                    assert forall|k: int| 0 <= k < s@.len() implies f(#[trigger] s@[k]) >= 0 by {
                        assert(f(s@[k]) == spec_mint_size(s@[k]));
                    }
                    lemma_sum_by_take_bound(s@, f, i as int + 1);
                }
                return None;
            },
        }
        i = i + 1;
    }
    proof {
        assert(s@.take(s@.len() as int) =~= s@);
    }
    Some(acc)
}

/// Total size of the required-signer listing, `None` past the range.
pub fn signers_size(s: &Vec<Vec<u8>>) -> (r: Option<u64>)
    ensures
        match r {
            Some(t) => t == sum_by(s@, signer_size_fn()),
            None => sum_by(s@, signer_size_fn()) > u64::MAX,
        },
{
    let ghost f = signer_size_fn();
    let mut acc: u64 = 0;
    let mut i: usize = 0;
    proof {
        assert(s@.take(0) =~= Seq::<Vec<u8>>::empty());
    }
    while i < s.len()
        invariant
            i <= s@.len(),
            f == signer_size_fn(),
            acc == sum_by(s@.take(i as int), f),
        decreases s@.len() - i,
    {
        let item: u128 = 8 + s[i].len() as u128;
        proof {
            lemma_sum_by_take_step(s@, f, i as int);
            assert(f(s@[i as int]) == spec_signer_size(s@[i as int]));
        }
        match size_add(acc, item) {
            Some(t) => {
                acc = t;
            },
            None => {
                proof {
                    assert forall|k: int| 0 <= k < s@.len() implies f(#[trigger] s@[k]) >= 0 by {
                        assert(f(s@[k]) == spec_signer_size(s@[k]));
                    }
                    lemma_sum_by_take_bound(s@, f, i as int + 1);
                }
                return None;
            },
        }
        i = i + 1;
    }
    proof {
        assert(s@.take(s@.len() as int) =~= s@);
    }
    Some(acc)
}

/// Total size of the redeemer listing, `None` past the range.
pub fn redeemers_size(s: &Vec<Redeemer>) -> (r: Option<u64>)
    ensures
        match r {
            Some(t) => t == sum_by(s@, redeemer_size_fn()),
            None => sum_by(s@, redeemer_size_fn()) > u64::MAX,
        },
{
    let ghost f = redeemer_size_fn();
    let mut acc: u64 = 0;
    let mut i: usize = 0;
    proof {
        assert(s@.take(0) =~= Seq::<Redeemer>::empty());
    }
    while i < s.len()
        invariant
            i <= s@.len(),
            f == redeemer_size_fn(),
            acc == sum_by(s@.take(i as int), f),
        decreases s@.len() - i,
    {
        let item: u128 = 33 + s[i].data.len() as u128;
        proof {
            lemma_sum_by_take_step(s@, f, i as int);
            assert(f(s@[i as int]) == spec_redeemer_size(s@[i as int]));
        }
        match size_add(acc, item) {
            Some(t) => {
                acc = t;
            },
            None => {
                proof {
                    assert forall|k: int| 0 <= k < s@.len() implies f(#[trigger] s@[k]) >= 0 by {
                        assert(f(s@[k]) == spec_redeemer_size(s@[k]));
                    }
                    lemma_sum_by_take_bound(s@, f, i as int + 1);
                }
                return None;
            },
        }
        i = i + 1;
    }
    proof {
        assert(s@.take(s@.len() as int) =~= s@);
    }
    Some(acc)
}

/// Size the change output contributes: its address, its value, and a
/// datum marker.
pub fn change_output_size(addr: &Address, change: &Value) -> (r: Option<u64>)
    ensures
        match r {
            Some(t) => t == spec_address_size(*addr) + spec_value_size(*change) + 1,
            None => spec_address_size(*addr) + spec_value_size(*change) + 1 > u64::MAX,
        },
{
    let a: u128 = 9 + addr.payment.len() as u128 + (match &addr.stake {
        Some(sk) => 8 + sk.len() as u128,
        None => 1,
    });
    let assets = match assets_size(&change.assets) {
        Some(t) => t,
        None => {
            proof {
                let f = asset_size_fn();
                assert forall|k: int|
                    0 <= k < change.assets@.len() implies f(#[trigger] change.assets@[k]) >= 0 by {
                    assert(f(change.assets@[k]) == spec_asset_size(change.assets@[k]));
                }
                lemma_sum_by_nonneg(change.assets@, f);
            }
            return None;
        },
    };
    match size_add(assets, a + 17) {
        Some(t) => Some(t),
        None => {
            proof {
                let f = asset_size_fn();
                assert forall|k: int|
                    0 <= k < change.assets@.len() implies f(#[trigger] change.assets@[k]) >= 0 by {
                    assert(f(change.assets@[k]) == spec_asset_size(change.assets@[k]));
                }
                lemma_sum_by_nonneg(change.assets@, f);
            }
            None
        },
    }
}

/// Every component of the body size is non-negative.
pub proof fn lemma_body_size_parts_nonneg(
    inputs: Seq<UtxoRef>,
    outputs: Seq<OutputSpec>,
    change_address: Address,
    change: Value,
    mints: Seq<MintAsset>,
    signers: Seq<Vec<u8>>,
    ref_inputs: Seq<UtxoRef>,
    redeemers: Seq<Redeemer>,
)
    ensures
        sum_by(inputs, ref_size_fn()) >= 0,
        sum_by(outputs, output_size_fn()) >= 0,
        spec_address_size(change_address) >= 0,
        spec_value_size(change) >= 0,
        sum_by(mints, mint_size_fn()) >= 0,
        sum_by(signers, signer_size_fn()) >= 0,
        sum_by(ref_inputs, ref_size_fn()) >= 0,
        sum_by(redeemers, redeemer_size_fn()) >= 0,
{
    let fr = ref_size_fn();
    let fo = output_size_fn();
    let fa = asset_size_fn();
    let fm = mint_size_fn();
    let fs = signer_size_fn();
    let fd = redeemer_size_fn();
    assert forall|k: int| 0 <= k < inputs.len() implies fr(#[trigger] inputs[k]) >= 0 by {
        assert(fr(inputs[k]) == spec_ref_size(inputs[k]));
    }
    lemma_sum_by_nonneg(inputs, fr);
    assert forall|k: int| 0 <= k < outputs.len() implies fo(#[trigger] outputs[k]) >= 0 by {
        assert(fo(outputs[k]) == spec_output_size(outputs[k]));
        assert forall|j: int|
            0 <= j < outputs[k].value.assets@.len() implies fa(
            #[trigger] outputs[k].value.assets@[j]) >= 0 by {
            assert(fa(outputs[k].value.assets@[j]) == spec_asset_size(outputs[k].value.assets@[j]));
        }
        lemma_sum_by_nonneg(outputs[k].value.assets@, fa);
    }
    lemma_sum_by_nonneg(outputs, fo);
    assert forall|k: int| 0 <= k < change.assets@.len() implies fa(#[trigger] change.assets@[k])
        >= 0 by {
        assert(fa(change.assets@[k]) == spec_asset_size(change.assets@[k]));
    }
    lemma_sum_by_nonneg(change.assets@, fa);
    assert forall|k: int| 0 <= k < mints.len() implies fm(#[trigger] mints[k]) >= 0 by {
        assert(fm(mints[k]) == spec_mint_size(mints[k]));
    }
    lemma_sum_by_nonneg(mints, fm);
    assert forall|k: int| 0 <= k < signers.len() implies fs(#[trigger] signers[k]) >= 0 by {
        assert(fs(signers[k]) == spec_signer_size(signers[k]));
    }
    lemma_sum_by_nonneg(signers, fs);
    assert forall|k: int| 0 <= k < ref_inputs.len() implies fr(#[trigger] ref_inputs[k]) >= 0 by {
        assert(fr(ref_inputs[k]) == spec_ref_size(ref_inputs[k]));
    }
    lemma_sum_by_nonneg(ref_inputs, fr);
    assert forall|k: int| 0 <= k < redeemers.len() implies fd(#[trigger] redeemers[k]) >= 0 by {
        assert(fd(redeemers[k]) == spec_redeemer_size(redeemers[k]));
    }
    lemma_sum_by_nonneg(redeemers, fd);
}

/// Prices execution units: `units * num / den`, rounded up.
pub fn price_units(units: u64, p: RationalPrice) -> (r: u128)
    requires
        p.den > 0,
    ensures
        r == spec_price(units, p),
        r >= 0,
{
    proof {
        assert((units as u128) * (p.num as u128) <= (u64::MAX as u128) * (u64::MAX as u128))
            by (nonlinear_arith)
            requires
                units as u128 <= u64::MAX as u128,
                p.num as u128 <= u64::MAX as u128,
        ;
    }
    ((units as u128) * (p.num as u128) + (p.den as u128 - 1)) / (p.den as u128)
}

/// The script cost of the candidate's redeemers at the given prices, with
/// every redeemer checked to have execution units. A redeemer without
/// units is a hard failure naming its purpose; a cost past the
/// representable range is a build failure.
pub fn script_fee(
    redeemers: &Vec<Redeemer>,
    units: &Vec<ExUnitsEntry>,
    pm: RationalPrice,
    ps: RationalPrice,
) -> (r: Result<u64, Error>)
    requires
        pm.den > 0,
        ps.den > 0,
    ensures
        match r {
            Ok(t) => {
                &&& forall|k: int|
                    0 <= k < redeemers@.len() ==> spec_find_units(
                        units@,
                        (#[trigger] redeemers@[k]).tag,
                        redeemers@[k].index,
                    ) is Some
                &&& t == spec_script_fee(redeemers@, units@, pm, ps)
            },
            Err(e) => match e {
                Error::MissingExUnits(tag, idx) => exists|k: int|
                    0 <= k < redeemers@.len() && (#[trigger] redeemers@[k]).tag == tag
                        && redeemers@[k].index == idx && spec_find_units(units@, tag, idx) is None,
                Error::TransactionBuildError(_) => spec_script_fee(redeemers@, units@, pm, ps)
                    > u64::MAX,
                _ => false,
            },
        },
{
    let ghost f = cost_fn(units@, pm, ps);
    let mut acc: u64 = 0;
    let mut i: usize = 0;
    proof {
        assert(redeemers@.take(0) =~= Seq::<Redeemer>::empty());
    }
    while i < redeemers.len()
        invariant
            i <= redeemers@.len(),
            pm.den > 0,
            ps.den > 0,
            f == cost_fn(units@, pm, ps),
            acc == sum_by(redeemers@.take(i as int), f),
            forall|k: int|
                0 <= k < i ==> spec_find_units(
                    units@,
                    (#[trigger] redeemers@[k]).tag,
                    redeemers@[k].index,
                ) is Some,
        decreases redeemers@.len() - i,
    {
        let rd = &redeemers[i];
        let e = match crate::chain::find_units(units, rd.tag, rd.index) {
            Some(e) => e,
            None => {
                return Err(Error::MissingExUnits(rd.tag, rd.index));
            },
        };
        let c1 = price_units(e.memory, pm);
        let c2 = price_units(e.steps, ps);
        proof {
            lemma_sum_by_take_step(redeemers@, f, i as int);
            assert(f(redeemers@[i as int]) == spec_redeemer_cost(redeemers@[i as int], units@, pm, ps));
            assert(spec_redeemer_cost(redeemers@[i as int], units@, pm, ps) == c1 + c2);
            assert forall|k: int| 0 <= k < redeemers@.len() implies f(#[trigger] redeemers@[k])
                >= 0 by {
                assert(f(redeemers@[k]) == spec_redeemer_cost(redeemers@[k], units@, pm, ps));
            }
        }
        if c1 > (u64::MAX - acc) as u128 {
            proof {
                lemma_sum_by_take_bound(redeemers@, f, i as int + 1);
            }
            return Err(Error::TransactionBuildError("script cost out of range".to_owned()));
        }
        let acc1 = acc + (c1 as u64);
        if c2 > (u64::MAX - acc1) as u128 {
            proof {
                lemma_sum_by_take_bound(redeemers@, f, i as int + 1);
            }
            return Err(Error::TransactionBuildError("script cost out of range".to_owned()));
        }
        acc = acc1 + (c2 as u64);
        i = i + 1;
    }
    proof {
        assert(redeemers@.take(redeemers@.len() as int) =~= redeemers@);
    }
    Ok(acc)
}

} // verus!
