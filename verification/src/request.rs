//! The caller's intent: target outputs, mints, script invocations, and the
//! lookup context that resolves hash references to concrete values.

use vstd::prelude::*;
use crate::bytes::bytes_eq;
use crate::chain::{Address, OutputDatum, RedeemerTag, UtxoRef};
use crate::value::{MintAsset, Value, distinct_mint_classes};

verus! {

/// One target output: where it pays, what it holds, and its datum.
#[derive(Debug)]
pub struct OutputSpec {
    pub address: Address,
    pub value: Value,
    pub datum: Option<OutputDatum>,
}

/// One script invocation purpose and the redeemer supplied for it.
#[derive(Debug)]
pub struct ScriptInvocation {
    pub tag: RedeemerTag,
    pub index: u64,
    pub redeemer: Vec<u8>,
}

/// Where leftover value goes after balancing.
#[derive(Debug)]
pub enum ChangeStrategy {
    /// Append a fresh output at this address holding the change.
    NewOutput(Address),
    /// Fold the change into the last requested output; fails when the
    /// request has no output.
    LastOutput,
}

/// A validity interval in slots; either bound may be open.
#[derive(Clone, Copy, Debug, PartialEq, Eq)]
pub struct TimeInterval {
    pub from: Option<u64>,
    pub to: Option<u64>,
}

/// The immutable description of the transaction a caller wants built.
#[derive(Debug)]
pub struct TransactionRequest {
    pub outputs: Vec<OutputSpec>,
    /// Net mint or burn per asset class; the policy field is the hash of
    /// the minting-policy script that must witness it.
    pub mints: Vec<MintAsset>,
    pub invocations: Vec<ScriptInvocation>,
    pub validity: TimeInterval,
    pub required_signers: Vec<Vec<u8>>,
    pub reference_inputs: Vec<UtxoRef>,
    pub change_strategy: ChangeStrategy,
}

impl TransactionRequest {
    /// Well-formed: output values are well-formed and no minting policy
    /// class is listed twice.
    pub open spec fn wf(self) -> bool {
        &&& forall|i: int|
            0 <= i < self.outputs@.len() ==> (#[trigger] self.outputs@[i]).value.wf()
        &&& distinct_mint_classes(self.mints@)
    }
}

/// One table entry: an exact key (a hash) and the bytes it resolves to.
#[derive(Debug)]
pub struct TableEntry {
    pub key: Vec<u8>,
    pub val: Vec<u8>,
}

/// The value the first entry of `s` with key `k` resolves to, if any.
pub open spec fn table_lookup(s: Seq<TableEntry>, k: Seq<u8>) -> Option<Seq<u8>>
    decreases s.len(),
{
    if s.len() == 0 {
        None
    } else if s[0].key@ == k {
        Some(s[0].val@)
    } else {
        table_lookup(s.drop_first(), k)
    }
}

/// Looks `key` up by exact match.
pub fn lookup<'a>(table: &'a Vec<TableEntry>, key: &Vec<u8>) -> (r: Option<&'a Vec<u8>>)
    ensures
        match r {
            Some(v) => table_lookup(table@, key@) == Some(v@),
            None => table_lookup(table@, key@) is None,
        },
{
    let mut i: usize = 0;
    proof {
        assert(table@.skip(0) =~= table@);
    }
    while i < table.len()
        invariant
            i <= table@.len(),
            table_lookup(table@, key@) == table_lookup(table@.skip(i as int), key@),
        decreases table@.len() - i,
    {
        if bytes_eq(&table[i].key, key) {
            return Some(&table[i].val);
        }
        proof {
            assert(table@.skip(i as int).drop_first() =~= table@.skip(i as int + 1));
        }
        i = i + 1;
    }
    None
}

/// Caller-supplied resolution tables: script hash to script bytes, datum
/// hash to datum value, minting-policy hash to redeemer. Keys are unique;
/// the tables may be incomplete, and a missing entry is a build error.
#[derive(Debug)]
pub struct LookupContext {
    pub scripts: Vec<TableEntry>,
    pub datums: Vec<TableEntry>,
    pub mint_redeemers: Vec<TableEntry>,
}

} // verus!
