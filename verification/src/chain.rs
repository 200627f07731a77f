//! Chain-side data: addresses, unspent outputs, protocol parameters and
//! execution units, as one consistent point-in-time snapshot.

use vstd::prelude::*;
use crate::value::Value;

verus! {

/// A domain address: a network id, a payment credential hash and an
/// optional staking credential hash.
#[derive(Debug, PartialEq, Eq)]
pub struct Address {
    pub network: u8,
    pub payment: Vec<u8>,
    pub stake: Option<Vec<u8>>,
}

/// A reference to an unspent output: the transaction that created it and
/// the position of the output within that transaction.
#[derive(Debug, PartialEq, Eq)]
pub struct UtxoRef {
    pub tx_id: Vec<u8>,
    pub index: u64,
}

/// Whether two references name the same output.
pub open spec fn ref_matches(a: UtxoRef, tx_id: Seq<u8>, index: u64) -> bool {
    a.tx_id@ == tx_id && a.index == index
}

/// Datum attached to an output: referenced by hash, or carried inline.
#[derive(Debug, PartialEq, Eq)]
pub enum OutputDatum {
    DatumHash(Vec<u8>),
    InlineDatum(Vec<u8>),
}

/// A spendable ledger entry.
#[derive(Debug)]
pub struct Utxo {
    pub reference: UtxoRef,
    pub address: Address,
    pub value: Value,
    pub datum: Option<OutputDatum>,
    pub reference_script: Option<Vec<u8>>,
}

/// A price expressed as a non-negative rational `num / den`.
#[derive(Clone, Copy, Debug)]
pub struct RationalPrice {
    pub num: u64,
    pub den: u64,
}

/// Protocol parameters. Each is individually optional: a build fails with a
/// missing-parameter error only when the current request needs one that is
/// absent.
#[derive(Debug)]
pub struct ProtocolParameters {
    /// Linear fee coefficient `a` in `fee = a * size + b`.
    pub min_fee_coefficient: Option<u64>,
    /// Linear fee constant `b` in `fee = a * size + b`.
    pub min_fee_constant: Option<u64>,
    /// Collateral requirement as a percentage of the fee.
    pub collateral_percentage: Option<u64>,
    /// Most collateral inputs a transaction may carry.
    pub max_collateral_inputs: Option<u64>,
    /// Price per script execution memory unit.
    pub price_memory: Option<RationalPrice>,
    /// Price per script execution step.
    pub price_steps: Option<RationalPrice>,
    /// Largest admissible transaction size.
    pub max_tx_size: Option<u64>,
}

/// The purpose a redeemer is attached to.
#[derive(Clone, Copy, Debug, PartialEq, Eq, Structural)]
pub enum RedeemerTag {
    Spend,
    Mint,
    Cert,
    Reward,
}

/// Execution cost of one script invocation, keyed by its purpose and index.
#[derive(Clone, Copy, Debug, PartialEq, Eq)]
pub struct ExUnitsEntry {
    pub tag: RedeemerTag,
    pub index: u64,
    pub memory: u64,
    pub steps: u64,
}

/// A redeemer attached to a script purpose of the candidate transaction.
#[derive(Debug, PartialEq, Eq)]
pub struct Redeemer {
    pub tag: RedeemerTag,
    pub index: u64,
    pub data: Vec<u8>,
}

/// First entry of `s` for the purpose `(tag, index)`, if any.
pub open spec fn spec_find_units(s: Seq<ExUnitsEntry>, tag: RedeemerTag, index: u64) -> Option<
    ExUnitsEntry,
>
    decreases s.len(),
{
    if s.len() == 0 {
        None
    } else if s[0].tag == tag && s[0].index == index {
        Some(s[0])
    } else {
        spec_find_units(s.drop_first(), tag, index)
    }
}

/// Looks the purpose `(tag, index)` up in an execution-unit listing.
pub fn find_units(s: &Vec<ExUnitsEntry>, tag: RedeemerTag, index: u64) -> (r: Option<ExUnitsEntry>)
    ensures
        r == spec_find_units(s@, tag, index),
{
    let mut i: usize = 0;
    proof {
        assert(s@.skip(0) =~= s@);
    }
    while i < s.len()
        invariant
            i <= s@.len(),
            spec_find_units(s@, tag, index) == spec_find_units(s@.skip(i as int), tag, index),
        decreases s@.len() - i,
    {
        let e = s[i];
        if e.tag == tag && e.index == index {
            return Some(e);
        }
        proof {
            assert(s@.skip(i as int).drop_first() =~= s@.skip(i as int + 1));
        }
        i = i + 1;
    }
    None
}

/// A consistent view of chain state taken once at build start: protocol
/// parameters and the wallet's spendable outputs.
#[derive(Debug)]
pub struct ChainSnapshot {
    pub parameters: ProtocolParameters,
    pub wallet_utxos: Vec<Utxo>,
}

impl ChainSnapshot {
    /// Well-formed: every wallet value is well-formed and no output
    /// reference occurs twice.
    pub open spec fn wf(self) -> bool {
        &&& forall|i: int|
            0 <= i < self.wallet_utxos@.len() ==> (#[trigger] self.wallet_utxos@[i]).value.wf()
        &&& forall|i: int, j: int|
            0 <= i < j < self.wallet_utxos@.len() ==> !ref_matches(
                self.wallet_utxos@[i].reference,
                self.wallet_utxos@[j].reference.tx_id@,
                self.wallet_utxos@[j].reference.index,
            )
    }
}

} // verus!
