//! The ledger encoding and final assembly: converts the domain model to
//! the low-level ledger form, applies the change strategy, and produces
//! the immutable built transaction with its witness scaffold.

use vstd::prelude::*;
use crate::balance::BalancedCandidate;
use crate::bytes::bytes_clone;
use crate::chain::{Address, OutputDatum, Redeemer, RedeemerTag, UtxoRef, spec_find_units, find_units, ExUnitsEntry};
use crate::error::Error;
use crate::request::{TimeInterval, TransactionRequest};
use crate::value::{MintAsset, Value, amount_in, assets_sum, lovelace_sum, mint_amount_in, value_add, value_clone};

verus! {

/// A ledger-encoded address: one header byte carrying the network id and
/// the staking flag, then the 28-byte payment hash, then the 28-byte
/// staking hash if present.
#[derive(Debug, PartialEq, Eq)]
pub struct LedgerAddress {
    pub bytes: Vec<u8>,
}

/// A domain address the ledger encoding can represent: a small network
/// id and credential hashes of exactly 28 bytes.
pub open spec fn address_wf(a: Address) -> bool {
    &&& a.network < 16
    &&& a.payment@.len() == 28
    &&& match a.stake {
        Some(s) => s@.len() == 28,
        None => true,
    }
}

/// The ledger bytes of a representable address.
pub open spec fn spec_address_bytes(a: Address) -> Seq<u8> {
    match a.stake {
        Some(s) => seq![(a.network + 16) as u8] + a.payment@ + s@,
        None => seq![a.network] + a.payment@,
    }
}

/// Whether ledger bytes parse back as an address.
pub open spec fn parse_ok(b: Seq<u8>) -> bool {
    ||| (b.len() == 29 && b[0] < 16)
    ||| (b.len() == 57 && 16 <= b[0] < 32)
}

/// The network id the bytes carry.
pub open spec fn parsed_network(b: Seq<u8>) -> u8 {
    if b[0] >= 16 {
        (b[0] - 16) as u8
    } else {
        b[0]
    }
}

/// The payment hash the bytes carry.
pub open spec fn parsed_payment(b: Seq<u8>) -> Seq<u8> {
    b.subrange(1, 29)
}

/// The staking hash the bytes carry, if the header says one is present.
pub open spec fn parsed_stake(b: Seq<u8>) -> Option<Seq<u8>> {
    if b[0] >= 16 {
        Some(b.subrange(29, 57))
    } else {
        None
    }
}

/// Converting a representable address and parsing the result yields the
/// address back: the converter pair round-trips on everything the ledger
/// encoding can hold.
pub proof fn lemma_address_round_trip(a: Address)
    requires
        address_wf(a),
    ensures
        parse_ok(spec_address_bytes(a)),
        parsed_network(spec_address_bytes(a)) == a.network,
        parsed_payment(spec_address_bytes(a)) == a.payment@,
        match a.stake {
            Some(s) => parsed_stake(spec_address_bytes(a)) == Some(s@),
            None => parsed_stake(spec_address_bytes(a)) is None,
        },
{
    let b = spec_address_bytes(a);
    match a.stake {
        Some(s) => {
            assert(b.len() == 57);
            assert(b[0] == a.network + 16);
            assert(parsed_payment(b) =~= a.payment@);
            assert(b.subrange(29, 57) =~= s@);
        },
        None => {
            assert(b.len() == 29);
            assert(b[0] == a.network);
            assert(parsed_payment(b) =~= a.payment@);
        },
    }
}

/// Converts a domain address to its ledger bytes; a value outside the
/// encoding's range is a conversion error.
pub fn to_ledger_address(a: &Address) -> (r: Result<LedgerAddress, Error>)
    ensures
        match r {
            Ok(l) => address_wf(*a) && l.bytes@ == spec_address_bytes(*a),
            Err(e) => e matches Error::ConversionError(_) && !address_wf(*a),
        },
{
    if a.network >= 16 {
        return Err(Error::ConversionError("network id out of range".to_owned()));
    }
    if a.payment.len() != 28 {
        return Err(Error::ConversionError("payment credential must be 28 bytes".to_owned()));
    }
    match &a.stake {
        Some(s) => {
            if s.len() != 28 {
                return Err(
                    Error::ConversionError("staking credential must be 28 bytes".to_owned()),
                );
            }
            let mut bytes: Vec<u8> = Vec::new();
            bytes.push(a.network + 16);
            let mut i: usize = 0;
            while i < a.payment.len()
                invariant
                    i <= a.payment@.len(),
                    bytes@.len() == 1 + i,
                    bytes@[0] == a.network + 16,
                    forall|k: int| 0 <= k < i ==> bytes@[1 + k] == a.payment@[k],
                decreases a.payment@.len() - i,
            {
                bytes.push(a.payment[i]);
                i = i + 1;
            }
            let mut i: usize = 0;
            while i < s.len()
                invariant
                    i <= s@.len(),
                    a.payment@.len() == 28,
                    bytes@.len() == 29 + i,
                    bytes@[0] == a.network + 16,
                    forall|k: int| 0 <= k < 28 ==> bytes@[1 + k] == a.payment@[k],
                    forall|k: int| 0 <= k < i ==> bytes@[29 + k] == s@[k],
                decreases s@.len() - i,
            {
                bytes.push(s[i]);
                i = i + 1;
            }
            proof {
                assert(bytes@ =~= spec_address_bytes(*a));
            }
            Ok(LedgerAddress { bytes })
        },
        None => {
            let mut bytes: Vec<u8> = Vec::new();
            bytes.push(a.network);
            let mut i: usize = 0;
            while i < a.payment.len()
                invariant
                    i <= a.payment@.len(),
                    bytes@.len() == 1 + i,
                    bytes@[0] == a.network,
                    forall|k: int| 0 <= k < i ==> bytes@[1 + k] == a.payment@[k],
                decreases a.payment@.len() - i,
            {
                bytes.push(a.payment[i]);
                i = i + 1;
            }
            proof {
                assert(bytes@ =~= spec_address_bytes(*a));
            }
            Ok(LedgerAddress { bytes })
        },
    }
}

/// Parses ledger bytes back into a domain address; bytes no address
/// produces are a conversion error.
pub fn from_ledger_address(l: &LedgerAddress) -> (r: Result<Address, Error>)
    ensures
        match r {
            Ok(a) => {
                &&& parse_ok(l.bytes@)
                &&& address_wf(a)
                &&& a.network == parsed_network(l.bytes@)
                &&& a.payment@ == parsed_payment(l.bytes@)
                &&& match a.stake {
                    Some(s) => parsed_stake(l.bytes@) == Some(s@),
                    None => parsed_stake(l.bytes@) is None,
                }
            },
            Err(e) => e matches Error::ConversionError(_) && !parse_ok(l.bytes@),
        },
{
    let n = l.bytes.len();
    if n != 29 && n != 57 {
        return Err(Error::ConversionError("address must be 29 or 57 bytes".to_owned()));
    }
    let header = l.bytes[0];
    if n == 29 {
        if header >= 16 {
            return Err(Error::ConversionError("address header out of range".to_owned()));
        }
        let mut payment: Vec<u8> = Vec::new();
        let mut i: usize = 1;
        while i < 29
            invariant
                1 <= i <= 29,
                l.bytes@.len() == 29,
                payment@.len() == i - 1,
                forall|k: int| 0 <= k < i - 1 ==> payment@[k] == l.bytes@[1 + k],
            decreases 29 - i,
        {
            payment.push(l.bytes[i]);
            i = i + 1;
        }
        proof {
            assert(payment@ =~= parsed_payment(l.bytes@));
        }
        Ok(Address { network: header, payment, stake: None })
    } else {
        if header < 16 || header >= 32 {
            return Err(Error::ConversionError("address header out of range".to_owned()));
        }
        let mut payment: Vec<u8> = Vec::new();
        let mut i: usize = 1;
        while i < 29
            invariant
                1 <= i <= 29,
                l.bytes@.len() == 57,
                payment@.len() == i - 1,
                forall|k: int| 0 <= k < i - 1 ==> payment@[k] == l.bytes@[1 + k],
            decreases 29 - i,
        {
            payment.push(l.bytes[i]);
            i = i + 1;
        }
        let mut stake: Vec<u8> = Vec::new();
        let mut i: usize = 29;
        while i < 57
            invariant
                29 <= i <= 57,
                l.bytes@.len() == 57,
                stake@.len() == i - 29,
                forall|k: int| 0 <= k < i - 29 ==> stake@[k] == l.bytes@[29 + k],
            decreases 57 - i,
        {
            stake.push(l.bytes[i]);
            i = i + 1;
        }
        proof {
            assert(payment@ =~= parsed_payment(l.bytes@));
            assert(stake@ =~= l.bytes@.subrange(29, 57));
        }
        Ok(Address { network: header - 16, payment, stake: Some(stake) })
    }
}

/// A fresh copy of a domain address.
pub fn clone_address(a: &Address) -> (r: Address)
    ensures
        r.network == a.network,
        r.payment@ == a.payment@,
        match a.stake {
            Some(s) => r.stake matches Some(t) && t@ == s@,
            None => r.stake is None,
        },
{
    Address {
        network: a.network,
        payment: bytes_clone(&a.payment),
        stake: match &a.stake {
            Some(s) => Some(bytes_clone(s)),
            None => None,
        },
    }
}

/// One output in ledger form.
#[derive(Debug, PartialEq, Eq)]
pub struct LedgerOutput {
    pub address: LedgerAddress,
    pub value: Value,
    pub datum: Option<OutputDatum>,
}

/// The values a list of ledger outputs holds, in order.
pub open spec fn ledger_out_values(outs: Seq<LedgerOutput>) -> Seq<Value> {
    Seq::new(outs.len(), |i: int| outs[i].value)
}

/// A redeemer of the witness scaffold, its execution units attached.
#[derive(Debug, PartialEq, Eq)]
pub struct WitnessRedeemer {
    pub tag: RedeemerTag,
    pub index: u64,
    pub data: Vec<u8>,
    pub memory: u64,
    pub steps: u64,
}

/// The final immutable artifact: the ledger-level body and the witness
/// scaffold, ready for the external signing step. Value is conserved
/// exactly: the selected inputs plus the net mint equal the outputs plus
/// the fee, per asset.
#[derive(Debug, PartialEq, Eq)]
pub struct BuiltTransaction {
    pub inputs: Vec<UtxoRef>,
    pub outputs: Vec<LedgerOutput>,
    pub fee: u64,
    pub validity: TimeInterval,
    pub collateral: Vec<UtxoRef>,
    pub mints: Vec<MintAsset>,
    pub required_signers: Vec<Vec<u8>>,
    pub reference_inputs: Vec<UtxoRef>,
    pub scripts: Vec<Vec<u8>>,
    pub datums: Vec<Vec<u8>>,
    pub redeemers: Vec<WitnessRedeemer>,
}

/// Converts the requested outputs, applies the change strategy, attaches
/// execution units to every redeemer, and assembles the final artifact.
/// Performs no further value changes: the conservation equation the
/// balancer established holds of the result exactly.
pub fn finalize(
    req: &TransactionRequest,
    scripts: Vec<Vec<u8>>,
    output_datums: &Vec<Option<Vec<u8>>>,
    redeemers: &Vec<Redeemer>,
    units: &Vec<ExUnitsEntry>,
    candidate: BalancedCandidate,
    change_address: &Address,
) -> (r: Result<BuiltTransaction, Error>)
    requires
        req.wf(),
        candidate.change.wf(),
        lovelace_sum(candidate.input_values@) == lovelace_sum(
            crate::balance::out_values(req.outputs@),
        ) + candidate.fee + candidate.change.lovelace,
        forall|p: Seq<u8>, n: Seq<u8>|
            #[trigger] assets_sum(candidate.input_values@, p, n) + mint_amount_in(req.mints@, p, n)
                == assets_sum(crate::balance::out_values(req.outputs@), p, n)
                + candidate.change.amount_of(p, n),
        forall|x: int|
            0 <= x < redeemers@.len() ==> spec_find_units(
                units@,
                (#[trigger] redeemers@[x]).tag,
                redeemers@[x].index,
            ) is Some,
        req.change_strategy matches crate::request::ChangeStrategy::LastOutput
            ==> req.outputs@.len() > 0,
    ensures
        match r {
            Ok(tx) => {
                &&& tx.fee == candidate.fee
                &&& tx.inputs@ == candidate.inputs@
                &&& tx.collateral@ == candidate.collateral@
                &&& lovelace_sum(ledger_out_values(tx.outputs@)) + tx.fee == lovelace_sum(
                    candidate.input_values@,
                )
                &&& forall|p: Seq<u8>, n: Seq<u8>|
                    #[trigger] assets_sum(ledger_out_values(tx.outputs@), p, n) == assets_sum(
                        candidate.input_values@,
                        p,
                        n,
                    ) + mint_amount_in(req.mints@, p, n)
                &&& match req.change_strategy {
                    crate::request::ChangeStrategy::NewOutput(_) => {
                        &&& tx.outputs@.len() == req.outputs@.len() + 1
                        &&& tx.outputs@.last().value.lovelace == candidate.change.lovelace
                        &&& forall|p: Seq<u8>, n: Seq<u8>|
                            #[trigger] amount_in(tx.outputs@.last().value.assets@, p, n)
                                == candidate.change.amount_of(p, n)
                    },
                    crate::request::ChangeStrategy::LastOutput => tx.outputs@.len()
                        == req.outputs@.len(),
                }
                &&& tx.redeemers@.len() == redeemers@.len()
                &&& forall|x: int|
                    0 <= x < redeemers@.len() ==> {
                        &&& (#[trigger] tx.redeemers@[x]).tag == redeemers@[x].tag
                        &&& tx.redeemers@[x].index == redeemers@[x].index
                        &&& tx.redeemers@[x].data@ == redeemers@[x].data@
                        &&& spec_find_units(units@, redeemers@[x].tag, redeemers@[x].index)
                            matches Some(e) && tx.redeemers@[x].memory == e.memory
                            && tx.redeemers@[x].steps == e.steps
                    }
                &&& tx.scripts@ == scripts@
                &&& tx.mints@.len() == req.mints@.len()
                &&& forall|x: int|
                    0 <= x < req.mints@.len() ==> (#[trigger] tx.mints@[x]).policy@
                        == req.mints@[x].policy@ && tx.mints@[x].name@ == req.mints@[x].name@
                        && tx.mints@[x].amount == req.mints@[x].amount
                &&& tx.validity == req.validity
            },
            Err(e) => match e {
                Error::ConversionError(_) => (exists|i: int|
                    0 <= i < req.outputs@.len() && !address_wf(
                        (#[trigger] req.outputs@[i]).address,
                    )) || !address_wf(*change_address),
                Error::TransactionBuildError(_) => {
                    &&& req.change_strategy matches crate::request::ChangeStrategy::LastOutput
                    &&& req.outputs@.len() > 0
                    &&& (req.outputs@.last().value.lovelace + candidate.change.lovelace > u64::MAX
                        || exists|p: Seq<u8>, n: Seq<u8>|
                        #[trigger] amount_in(req.outputs@.last().value.assets@, p, n)
                            + candidate.change.amount_of(p, n) > u64::MAX)
                },
                _ => false,
            },
        },
{
    // Convert the requested outputs to ledger form.
    let mut outs: Vec<LedgerOutput> = Vec::new();
    let mut i: usize = 0;
    while i < req.outputs.len()
        invariant
            i <= req.outputs@.len(),
            req.wf(),
            outs@.len() == i,
            forall|x: int|
                0 <= x < i ==> (#[trigger] outs@[x]).value.lovelace
                    == req.outputs@[x].value.lovelace && outs@[x].value.wf(),
            forall|x: int, p: Seq<u8>, n: Seq<u8>|
                0 <= x < i ==> #[trigger] amount_in(outs@[x].value.assets@, p, n) == amount_in(
                    req.outputs@[x].value.assets@,
                    p,
                    n,
                ),
        decreases req.outputs@.len() - i,
    {
        let o = &req.outputs[i];
        let laddr = match to_ledger_address(&o.address) {
            Ok(l) => l,
            Err(e) => {
                return Err(e);
            },
        };
        let v = value_clone(&o.value);
        proof {
            assert forall|p: Seq<u8>, n: Seq<u8>|
                #[trigger] amount_in(v.assets@, p, n) == amount_in(
                    req.outputs@[i as int].value.assets@,
                    p,
                    n,
                ) by {
                assert(v.amount_of(p, n) == req.outputs@[i as int].value.amount_of(p, n));
            }
        }
        let datum = match &o.datum {
            Some(OutputDatum::DatumHash(h)) => Some(OutputDatum::DatumHash(bytes_clone(h))),
            Some(OutputDatum::InlineDatum(d)) => Some(OutputDatum::InlineDatum(bytes_clone(d))),
            None => None,
        };
        outs.push(LedgerOutput { address: laddr, value: v, datum });
        i = i + 1;
    }
    let ghost converted = outs@;
    proof {
        assert forall|p: Seq<u8>, n: Seq<u8>| #[trigger] assets_sum(
            ledger_out_values(converted),
            p,
            n,
        ) == assets_sum(crate::balance::out_values(req.outputs@), p, n) by {
            crate::value::lemma_value_sums_congruent(
                ledger_out_values(converted),
                crate::balance::out_values(req.outputs@),
                p,
                n,
            );
        }
        crate::value::lemma_value_sums_congruent(
            ledger_out_values(converted),
            crate::balance::out_values(req.outputs@),
            Seq::<u8>::empty(),
            Seq::<u8>::empty(),
        );
    }
    // Apply the change strategy.
    let change_lovelace: u64 = candidate.change.lovelace;
    let ghost change_ghost = candidate.change;
    match &req.change_strategy {
        crate::request::ChangeStrategy::NewOutput(_) => {
            let laddr = match to_ledger_address(change_address) {
                Ok(l) => l,
                Err(e) => {
                    return Err(e);
                },
            };
            let ghost before = outs@;
            outs.push(LedgerOutput { address: laddr, value: candidate.change, datum: None });
            proof {
                assert forall|p: Seq<u8>, n: Seq<u8>|
                    #[trigger] assets_sum(ledger_out_values(outs@), p, n) == assets_sum(
                        ledger_out_values(before),
                        p,
                        n,
                    ) + change_ghost.amount_of(p, n) && lovelace_sum(ledger_out_values(outs@))
                    == lovelace_sum(ledger_out_values(before)) + change_ghost.lovelace by {
                    assert(ledger_out_values(outs@) =~= ledger_out_values(before).push(
                        change_ghost,
                    ));
                    crate::value::lemma_value_sums_push(
                        ledger_out_values(before),
                        change_ghost,
                        p,
                        n,
                    );
                }
                assert(lovelace_sum(ledger_out_values(outs@)) == lovelace_sum(
                    ledger_out_values(before),
                ) + change_ghost.lovelace) by {
                    assert(ledger_out_values(outs@) =~= ledger_out_values(before).push(
                        change_ghost,
                    ));
                    crate::value::lemma_value_sums_push(
                        ledger_out_values(before),
                        change_ghost,
                        Seq::<u8>::empty(),
                        Seq::<u8>::empty(),
                    );
                }
            }
        },
        crate::request::ChangeStrategy::LastOutput => {
            let idx = outs.len() - 1;
            let merged = match value_add(&outs[idx].value, &candidate.change) {
                Some(v) => v,
                None => {
                    proof {
                        assert(outs@[idx as int].value.lovelace
                            == req.outputs@[idx as int].value.lovelace);
                        if outs@[idx as int].value.lovelace + candidate.change.lovelace
                            > u64::MAX {
                            assert(req.outputs@.last().value.lovelace + candidate.change.lovelace
                                > u64::MAX);
                        } else {
                            let (cp, cn): (Seq<u8>, Seq<u8>) = choose|p: Seq<u8>, n: Seq<u8>|
                                #[trigger] outs@[idx as int].value.amount_of(p, n)
                                    + candidate.change.amount_of(p, n) > u64::MAX;
                            assert(amount_in(req.outputs@[idx as int].value.assets@, cp, cn)
                                == amount_in(outs@[idx as int].value.assets@, cp, cn));
                            assert(amount_in(req.outputs@.last().value.assets@, cp, cn)
                                + candidate.change.amount_of(cp, cn) > u64::MAX);
                        }
                    }
                    return Err(
                        Error::TransactionBuildError("change exceeds representable value".to_owned()),
                    );
                },
            };
            let replacement = LedgerOutput {
                address: LedgerAddress { bytes: bytes_clone(&outs[idx].address.bytes) },
                value: merged,
                datum: match &outs[idx].datum {
                    Some(OutputDatum::DatumHash(h)) => Some(
                        OutputDatum::DatumHash(bytes_clone(h)),
                    ),
                    Some(OutputDatum::InlineDatum(d)) => Some(
                        OutputDatum::InlineDatum(bytes_clone(d)),
                    ),
                    None => None,
                },
            };
            let ghost before = outs@;
            let ghost old_last = outs@[idx as int].value;
            outs.set(idx, replacement);
            proof {
                assert forall|p: Seq<u8>, n: Seq<u8>|
                    #[trigger] assets_sum(ledger_out_values(outs@), p, n) == assets_sum(
                        ledger_out_values(before),
                        p,
                        n,
                    ) + change_ghost.amount_of(p, n) && lovelace_sum(ledger_out_values(outs@))
                    == lovelace_sum(ledger_out_values(before)) + change_ghost.lovelace by {
                    assert(ledger_out_values(outs@) =~= ledger_out_values(before).update(
                        idx as int,
                        outs@[idx as int].value,
                    ));
                    crate::value::lemma_value_sums_update(
                        ledger_out_values(before),
                        idx as int,
                        outs@[idx as int].value,
                        p,
                        n,
                    );
                    assert(ledger_out_values(before)[idx as int] == old_last);
                    assert(outs@[idx as int].value == merged);
                    assert(merged.amount_of(p, n) == old_last.amount_of(p, n)
                        + change_ghost.amount_of(p, n));
                }
                assert(lovelace_sum(ledger_out_values(outs@)) == lovelace_sum(
                    ledger_out_values(before),
                ) + change_ghost.lovelace) by {
                    assert(ledger_out_values(outs@) =~= ledger_out_values(before).update(
                        idx as int,
                        outs@[idx as int].value,
                    ));
                    crate::value::lemma_value_sums_update(
                        ledger_out_values(before),
                        idx as int,
                        outs@[idx as int].value,
                        Seq::<u8>::empty(),
                        Seq::<u8>::empty(),
                    );
                    assert(ledger_out_values(before)[idx as int] == old_last);
                }
            }
        },
    }
    // Attach execution units to every redeemer.
    let mut wredeemers: Vec<WitnessRedeemer> = Vec::new();
    let mut i: usize = 0;
    while i < redeemers.len()
        invariant
            i <= redeemers@.len(),
            forall|x: int|
                0 <= x < redeemers@.len() ==> spec_find_units(
                    units@,
                    (#[trigger] redeemers@[x]).tag,
                    redeemers@[x].index,
                ) is Some,
            wredeemers@.len() == i,
            forall|x: int|
                0 <= x < i ==> {
                    &&& (#[trigger] wredeemers@[x]).tag == redeemers@[x].tag
                    &&& wredeemers@[x].index == redeemers@[x].index
                    &&& wredeemers@[x].data@ == redeemers@[x].data@
                    &&& spec_find_units(units@, redeemers@[x].tag, redeemers@[x].index)
                        matches Some(e) && wredeemers@[x].memory == e.memory
                        && wredeemers@[x].steps == e.steps
                },
        decreases redeemers@.len() - i,
    {
        let rd = &redeemers[i];
        let e = match find_units(units, rd.tag, rd.index) {
            Some(e) => e,
            None => {
                // The requires say every redeemer has units, so this
                // lookup cannot miss.
                proof {
                    assert(spec_find_units(units@, rd.tag, rd.index) is Some);
                    assert(false);
                }
                vstd::pervasive::unreached()
            },
        };
        wredeemers.push(
            WitnessRedeemer {
                tag: rd.tag,
                index: rd.index,
                data: bytes_clone(&rd.data),
                memory: e.memory,
                steps: e.steps,
            },
        );
        i = i + 1;
    }
    // Copy the structural fields of the request.
    let mut mints: Vec<MintAsset> = Vec::new();
    let mut i: usize = 0;
    while i < req.mints.len()
        invariant
            i <= req.mints@.len(),
            mints@.len() == i,
            forall|x: int|
                0 <= x < i ==> (#[trigger] mints@[x]).policy@ == req.mints@[x].policy@
                    && mints@[x].name@ == req.mints@[x].name@ && mints@[x].amount
                    == req.mints@[x].amount,
        decreases req.mints@.len() - i,
    {
        mints.push(
            MintAsset {
                policy: bytes_clone(&req.mints[i].policy),
                name: bytes_clone(&req.mints[i].name),
                amount: req.mints[i].amount,
            },
        );
        i = i + 1;
    }
    let mut signers: Vec<Vec<u8>> = Vec::new();
    let mut i: usize = 0;
    while i < req.required_signers.len()
        invariant
            i <= req.required_signers@.len(),
            signers@.len() == i,
        decreases req.required_signers@.len() - i,
    {
        signers.push(bytes_clone(&req.required_signers[i]));
        i = i + 1;
    }
    let mut ref_inputs: Vec<UtxoRef> = Vec::new();
    let mut i: usize = 0;
    while i < req.reference_inputs.len()
        invariant
            i <= req.reference_inputs@.len(),
            ref_inputs@.len() == i,
        decreases req.reference_inputs@.len() - i,
    {
        ref_inputs.push(
            UtxoRef {
                tx_id: bytes_clone(&req.reference_inputs[i].tx_id),
                index: req.reference_inputs[i].index,
            },
        );
        i = i + 1;
    }
    let mut datums: Vec<Vec<u8>> = Vec::new();
    let mut i: usize = 0;
    while i < output_datums.len()
        invariant
            i <= output_datums@.len(),
        decreases output_datums@.len() - i,
    {
        match &output_datums[i] {
            Some(d) => {
                datums.push(bytes_clone(d));
            },
            None => {},
        }
        i = i + 1;
    }
    Ok(
        BuiltTransaction {
            inputs: candidate.inputs,
            outputs: outs,
            fee: candidate.fee,
            validity: req.validity,
            collateral: candidate.collateral,
            mints,
            required_signers: signers,
            reference_inputs: ref_inputs,
            scripts,
            datums,
            redeemers: wredeemers,
        },
    )
}

/// Whether two addresses agree by view.
pub open spec fn address_matches(a: Address, b: Address) -> bool {
    &&& a.network == b.network
    &&& a.payment@ == b.payment@
    &&& match (a.stake, b.stake) {
        (Some(x), Some(y)) => x@ == y@,
        (None, None) => true,
        _ => false,
    }
}

/// Whether `ca` is the change strategy's target address.
pub open spec fn change_target_matches(ca: Address, req: TransactionRequest) -> bool {
    match req.change_strategy {
        crate::request::ChangeStrategy::NewOutput(a) => address_matches(ca, a),
        crate::request::ChangeStrategy::LastOutput => req.outputs@.len() > 0 && address_matches(
            ca,
            req.outputs@.last().address,
        ),
    }
}

/// Whether `ot` holds exactly the totals the requested outputs ask for.
pub open spec fn outputs_total_matches(ot: Value, req: TransactionRequest) -> bool {
    &&& ot.wf()
    &&& ot.lovelace == lovelace_sum(crate::balance::out_values(req.outputs@))
    &&& forall|p: Seq<u8>, n: Seq<u8>| #[trigger] ot.amount_of(p, n) == assets_sum(
        crate::balance::out_values(req.outputs@),
        p,
        n,
    )
}

/// Whether `rs` is the candidate's redeemer listing: one per mint at the
/// mint's position with the context's redeemer bytes, then the request's
/// explicit invocations.
pub open spec fn redeemers_consistent(
    rs: Seq<Redeemer>,
    req: TransactionRequest,
    ctx: crate::request::LookupContext,
) -> bool {
    &&& rs.len() == req.mints@.len() + req.invocations@.len()
    &&& forall|i: int|
        0 <= i < req.mints@.len() ==> (#[trigger] rs[i]).tag == RedeemerTag::Mint && rs[i].index
            == i && (crate::request::table_lookup(ctx.mint_redeemers@, req.mints@[i].policy@)
            matches Some(v) && rs[i].data@ == v)
    &&& forall|i: int|
        0 <= i < req.invocations@.len() ==> (#[trigger] rs[req.mints@.len() + i]).tag
            == req.invocations@[i].tag && rs[req.mints@.len() + i].index
            == req.invocations@[i].index && rs[req.mints@.len() + i].data@
            == req.invocations@[i].redeemer@
}

/// The requested outputs' totals leave the representable range.
pub open spec fn spec_outputs_overflow(req: TransactionRequest) -> bool {
    ||| lovelace_sum(crate::balance::out_values(req.outputs@)) > u64::MAX
    ||| exists|p: Seq<u8>, n: Seq<u8>| #[trigger] assets_sum(
        crate::balance::out_values(req.outputs@),
        p,
        n,
    ) > u64::MAX
}

/// A balancing round over state consistent with the request, the context
/// and the snapshot fails, at a fee the loop can hold.
pub open spec fn spec_balancing_failure_for(
    req: TransactionRequest,
    snapshot: crate::chain::ChainSnapshot,
    ctx: crate::request::LookupContext,
    units: Seq<ExUnitsEntry>,
) -> bool {
    let wallet = snapshot.wallet_utxos@;
    let om = crate::balance::spec_spend_order(wallet);
    let has_scripts = req.mints@.len() + req.invocations@.len() > 0;
    exists|ot: Value, rs: Seq<Redeemer>, fpx: crate::balance::FeeParams, ca: Address, f: u64|
        #![trigger crate::balance::spec_balance_failure(
            wallet,
            om,
            req.mints@,
            ot,
            rs,
            units,
            fpx,
            req.outputs@,
            ca,
            req.required_signers@,
            req.reference_inputs@,
            f,
        )]
        outputs_total_matches(ot, req) && redeemers_consistent(rs, req, ctx)
            && crate::balance::fee_params_consistent(fpx, snapshot.parameters, has_scripts)
            && change_target_matches(ca, req) && crate::balance::spec_round_fee(
            f,
            wallet,
            om,
            req.mints@,
            ot,
            rs,
            units,
            fpx,
            req.outputs@,
            ca,
            req.required_signers@,
            req.reference_inputs@,
        ) && crate::balance::spec_balance_failure(
            wallet,
            om,
            req.mints@,
            ot,
            rs,
            units,
            fpx,
            req.outputs@,
            ca,
            req.required_signers@,
            req.reference_inputs@,
            f,
        )
}

/// A genuinely non-converged round: a candidate consistent with the
/// balance at fee `f` prices to a different fee.
pub open spec fn spec_divergence_witness(
    req: TransactionRequest,
    snapshot: crate::chain::ChainSnapshot,
    ctx: crate::request::LookupContext,
    units: Seq<ExUnitsEntry>,
) -> bool {
    let wallet = snapshot.wallet_utxos@;
    let om = crate::balance::spec_spend_order(wallet);
    let has_scripts = req.mints@.len() + req.invocations@.len() > 0;
    exists|
        ot: Value,
        rs: Seq<Redeemer>,
        fpx: crate::balance::FeeParams,
        ca: Address,
        f: u64,
        kk: int,
        cc: Value,
    |
        #![trigger crate::balance::spec_priced_fee(
            wallet,
            om,
            kk,
            cc,
            req.mints@,
            rs,
            units,
            fpx,
            req.outputs@,
            ca,
            req.required_signers@,
            req.reference_inputs@,
        ), crate::balance::change_matches(cc, wallet, om, kk, req.mints@, ot, f)]
        outputs_total_matches(ot, req) && redeemers_consistent(rs, req, ctx)
            && crate::balance::fee_params_consistent(fpx, snapshot.parameters, has_scripts)
            && change_target_matches(ca, req) && 0 <= kk <= om.len()
            && crate::balance::change_matches(cc, wallet, om, kk, req.mints@, ot, f)
            && crate::balance::spec_priced_fee(
            wallet,
            om,
            kk,
            cc,
            req.mints@,
            rs,
            units,
            fpx,
            req.outputs@,
            ca,
            req.required_signers@,
            req.reference_inputs@,
        ) != f
}

/// Collateral cannot be selected for a converged candidate: either the
/// required threshold leaves the representable range, or the
/// deterministic selection over the unspent, base-asset-only outputs
/// cannot reach it.
pub open spec fn spec_collateral_failure_for(
    req: TransactionRequest,
    snapshot: crate::chain::ChainSnapshot,
    ctx: crate::request::LookupContext,
    units: Seq<ExUnitsEntry>,
) -> bool {
    let wallet = snapshot.wallet_utxos@;
    let om = crate::balance::spec_spend_order(wallet);
    let has_scripts = req.mints@.len() + req.invocations@.len() > 0;
    exists|
        ot: Value,
        rs: Seq<Redeemer>,
        fpx: crate::balance::FeeParams,
        ca: Address,
        f: u64,
        kk: int,
        cc: Value,
    |
        #![trigger crate::balance::spec_priced_fee(
            wallet,
            om,
            kk,
            cc,
            req.mints@,
            rs,
            units,
            fpx,
            req.outputs@,
            ca,
            req.required_signers@,
            req.reference_inputs@,
        ), crate::balance::change_matches(cc, wallet, om, kk, req.mints@, ot, f)]
        outputs_total_matches(ot, req) && redeemers_consistent(rs, req, ctx)
            && crate::balance::fee_params_consistent(fpx, snapshot.parameters, has_scripts)
            && change_target_matches(ca, req) && 0 <= kk <= om.len()
            && crate::balance::change_matches(cc, wallet, om, kk, req.mints@, ot, f)
            && crate::balance::spec_priced_fee(
            wallet,
            om,
            kk,
            cc,
            req.mints@,
            rs,
            units,
            fpx,
            req.outputs@,
            ca,
            req.required_signers@,
            req.reference_inputs@,
        ) == f && (crate::balance::spec_collateral_threshold(f, fpx.collateral_percentage)
            > u64::MAX || crate::collateral::spec_select_collateral(
            wallet,
            crate::balance::sel_refs(wallet, om, kk),
            crate::balance::spec_collateral_threshold(f, fpx.collateral_percentage) as u64,
            fpx.max_collateral_inputs,
        ) is None)
}

/// A converged candidate's change cannot be folded into the last
/// requested output without leaving the representable range.
pub open spec fn spec_change_merge_overflow(
    req: TransactionRequest,
    snapshot: crate::chain::ChainSnapshot,
    ctx: crate::request::LookupContext,
    units: Seq<ExUnitsEntry>,
) -> bool {
    let wallet = snapshot.wallet_utxos@;
    let om = crate::balance::spec_spend_order(wallet);
    let has_scripts = req.mints@.len() + req.invocations@.len() > 0;
    &&& req.change_strategy matches crate::request::ChangeStrategy::LastOutput
    &&& req.outputs@.len() > 0
    &&& exists|
        ot: Value,
        rs: Seq<Redeemer>,
        fpx: crate::balance::FeeParams,
        ca: Address,
        f: u64,
        kk: int,
        cc: Value,
    |
        #![trigger crate::balance::spec_priced_fee(
            wallet,
            om,
            kk,
            cc,
            req.mints@,
            rs,
            units,
            fpx,
            req.outputs@,
            ca,
            req.required_signers@,
            req.reference_inputs@,
        ), crate::balance::change_matches(cc, wallet, om, kk, req.mints@, ot, f)]
        outputs_total_matches(ot, req) && redeemers_consistent(rs, req, ctx)
            && crate::balance::fee_params_consistent(fpx, snapshot.parameters, has_scripts)
            && change_target_matches(ca, req) && 0 <= kk <= om.len()
            && crate::balance::change_matches(cc, wallet, om, kk, req.mints@, ot, f)
            && crate::balance::spec_priced_fee(
            wallet,
            om,
            kk,
            cc,
            req.mints@,
            rs,
            units,
            fpx,
            req.outputs@,
            ca,
            req.required_signers@,
            req.reference_inputs@,
        ) == f && (req.outputs@.last().value.lovelace + cc.lovelace > u64::MAX || exists|
            p: Seq<u8>,
            n: Seq<u8>,
        |
            #[trigger] amount_in(req.outputs@.last().value.assets@, p, n) + cc.amount_of(p, n)
                > u64::MAX)
}

/// Builds a fully balanced, protocol-valid transaction from the request
/// and one consistent chain snapshot: resolves every hash reference,
/// selects spending inputs and collateral deterministically, iterates the
/// fee to its fixed point, applies the change strategy, and assembles the
/// final artifact. Every failure aborts the build with a precise error;
/// no partial transaction is ever returned.
pub fn build_transaction(
    req: &TransactionRequest,
    snapshot: &crate::chain::ChainSnapshot,
    ctx: &crate::request::LookupContext,
    units: &Vec<ExUnitsEntry>,
    max_iterations: u64,
) -> (r: Result<BuiltTransaction, Error>)
    requires
        req.wf(),
        snapshot.wf(),
        max_iterations >= 1,
    ensures
        match r {
            Ok(tx) => {
                let wallet = snapshot.wallet_utxos@;
                let om = crate::balance::spec_spend_order(wallet);
                let k = tx.inputs@.len() as int;
                &&& k <= wallet.len()
                &&& forall|j: int|
                    0 <= j < k ==> (#[trigger] tx.inputs@[j]).tx_id@ == crate::balance::sel_refs(
                        wallet,
                        om,
                        k,
                    )[j].tx_id@ && tx.inputs@[j].index == crate::balance::sel_refs(
                        wallet,
                        om,
                        k,
                    )[j].index
                &&& lovelace_sum(crate::balance::sel_values(wallet, om, k)) == lovelace_sum(
                    ledger_out_values(tx.outputs@),
                ) + tx.fee
                &&& forall|p: Seq<u8>, n: Seq<u8>|
                    #[trigger] assets_sum(crate::balance::sel_values(wallet, om, k), p, n)
                        + mint_amount_in(req.mints@, p, n) == assets_sum(
                        ledger_out_values(tx.outputs@),
                        p,
                        n,
                    )
                &&& match req.change_strategy {
                    crate::request::ChangeStrategy::NewOutput(_) => tx.outputs@.len()
                        == req.outputs@.len() + 1,
                    crate::request::ChangeStrategy::LastOutput => tx.outputs@.len()
                        == req.outputs@.len() && req.outputs@.len() > 0,
                }
                &&& tx.redeemers@.len() == req.mints@.len() + req.invocations@.len()
                &&& tx.validity == req.validity
                &&& crate::resolve::all_mint_redeemers_resolve(req.mints@, ctx.mint_redeemers@)
                &&& crate::resolve::all_mint_scripts_resolve(req.mints@, ctx.scripts@)
                &&& crate::resolve::all_output_datums_resolve(req.outputs@, ctx.datums@)
            },
            Err(e) => match e {
                Error::InvalidPOSIXTime(_) => match (req.validity.from, req.validity.to) {
                    (Some(f), Some(t)) => f > t,
                    _ => false,
                },
                Error::MissingChangeOutput => req.change_strategy
                    matches crate::request::ChangeStrategy::LastOutput && req.outputs@.len() == 0,
                Error::MissingMintRedeemer(h) => exists|i: int|
                    0 <= i < req.mints@.len() && h@ == req.mints@[i].policy@ && (
                    #[trigger] crate::request::table_lookup(
                        ctx.mint_redeemers@,
                        req.mints@[i].policy@,
                    )) is None,
                Error::MissingScript(h) => exists|i: int|
                    0 <= i < req.mints@.len() && h@ == req.mints@[i].policy@ && (
                    #[trigger] crate::request::table_lookup(
                        ctx.scripts@,
                        req.mints@[i].policy@,
                    )) is None,
                Error::MissingDatum(h) => exists|i: int|
                    0 <= i < req.outputs@.len() && match (#[trigger] req.outputs@[i]).datum {
                        Some(OutputDatum::DatumHash(hh)) => h@ == hh@
                            && crate::request::table_lookup(ctx.datums@, hh@) is None,
                        _ => false,
                    },
                Error::MissingProtocolParameter(_) => {
                    ||| snapshot.parameters.min_fee_coefficient is None
                    ||| snapshot.parameters.min_fee_constant is None
                    ||| snapshot.parameters.max_tx_size is None
                    ||| (req.mints@.len() + req.invocations@.len() > 0 && {
                        ||| snapshot.parameters.price_memory is None
                        ||| snapshot.parameters.price_steps is None
                        ||| snapshot.parameters.collateral_percentage is None
                        ||| snapshot.parameters.max_collateral_inputs is None
                        ||| match snapshot.parameters.price_memory {
                            Some(pm) => pm.den == 0,
                            None => false,
                        }
                        ||| match snapshot.parameters.price_steps {
                            Some(ps) => ps.den == 0,
                            None => false,
                        }
                    })
                },
                Error::MissingExUnits(tag, idx) => {
                    ||| (tag == RedeemerTag::Mint && 0 <= idx < req.mints@.len()
                        && spec_find_units(units@, tag, idx) is None)
                    ||| exists|i: int|
                        0 <= i < req.invocations@.len() && (#[trigger] req.invocations@[i]).tag
                            == tag && req.invocations@[i].index == idx && spec_find_units(
                            units@,
                            tag,
                            idx,
                        ) is None
                },
                Error::MissingCollateral => req.mints@.len() + req.invocations@.len() > 0
                    && spec_collateral_failure_for(*req, *snapshot, *ctx, units@),
                Error::BalancingDiverged(b) => b == max_iterations && spec_divergence_witness(
                    *req,
                    *snapshot,
                    *ctx,
                    units@,
                ),
                Error::TransactionBuildError(_) => {
                    ||| spec_outputs_overflow(*req)
                    ||| spec_balancing_failure_for(*req, *snapshot, *ctx, units@)
                    ||| spec_change_merge_overflow(*req, *snapshot, *ctx, units@)
                },
                Error::ConversionError(_) => {
                    ||| exists|i: int|
                        0 <= i < req.outputs@.len() && !address_wf(
                            (#[trigger] req.outputs@[i]).address,
                        )
                    ||| match req.change_strategy {
                        crate::request::ChangeStrategy::NewOutput(a) => !address_wf(a),
                        crate::request::ChangeStrategy::LastOutput => req.outputs@.len() > 0
                            && !address_wf(req.outputs@.last().address),
                    }
                },
                _ => false,
            },
        },
{
    // A malformed validity interval is a caller error, caught first.
    match (req.validity.from, req.validity.to) {
        (Some(f), Some(t)) => {
            if f > t {
                return Err(
                    Error::InvalidPOSIXTime("validity interval ends before it starts".to_owned()),
                );
            }
        },
        _ => {},
    }
    // The change strategy must have a target before anything is balanced.
    let change_address: Address = match &req.change_strategy {
        crate::request::ChangeStrategy::NewOutput(a) => clone_address(a),
        crate::request::ChangeStrategy::LastOutput => {
            if req.outputs.len() == 0 {
                return Err(Error::MissingChangeOutput);
            }
            clone_address(&req.outputs[req.outputs.len() - 1].address)
        },
    };
    // Resolve every hash reference, all or nothing.
    let resolved = match crate::resolve::resolve_request(req, ctx) {
        Ok(res) => res,
        Err(e) => {
            return Err(e);
        },
    };
    let n_mints = req.mints.len();
    proof {
        assert(req.mints@.len() == n_mints as int);
    }
    let redeemers = crate::balance::gather_redeemers(
        &req.mints,
        &resolved.mint_redeemers,
        &req.invocations,
    );
    let has_scripts = redeemers.len() > 0;
    let fp = match crate::balance::validate_params(&snapshot.parameters, has_scripts) {
        Ok(fp) => fp,
        Err(e) => {
            return Err(e);
        },
    };
    let order = crate::balance::spend_order(&snapshot.wallet_utxos);
    let outputs_total = match crate::balance::sum_output_values(&req.outputs) {
        Ok(t) => t,
        Err(e) => {
            proof {
                assert(spec_outputs_overflow(*req));
            }
            return Err(e);
        },
    };
    proof {
        let om_g = crate::balance::omap(order@);
        assert(om_g == crate::balance::spec_spend_order(snapshot.wallet_utxos@));
        assert(outputs_total_matches(outputs_total, *req));
        assert forall|i: int| 0 <= i < req.mints@.len() implies (#[trigger] redeemers@[i]).tag
            == RedeemerTag::Mint && redeemers@[i].index == i && (crate::request::table_lookup(
            ctx.mint_redeemers@,
            req.mints@[i].policy@,
        ) matches Some(v) && redeemers@[i].data@ == v) by {
            assert(redeemers@[i].data@ == resolved.mint_redeemers@[i]@);
            assert(crate::request::table_lookup(ctx.mint_redeemers@, req.mints@[i].policy@)
                == Some(resolved.mint_redeemers@[i]@));
        }
        assert(redeemers_consistent(redeemers@, *req, *ctx));
        assert(has_scripts == (req.mints@.len() + req.invocations@.len() > 0));
        assert(crate::balance::fee_params_consistent(
            fp,
            snapshot.parameters,
            req.mints@.len() + req.invocations@.len() > 0,
        ));
        match &req.change_strategy {
            crate::request::ChangeStrategy::NewOutput(a) => {
                assert(address_matches(change_address, *a));
            },
            crate::request::ChangeStrategy::LastOutput => {
                assert(req.outputs@.len() > 0);
                assert(address_matches(change_address, req.outputs@.last().address));
            },
        }
        assert(change_target_matches(change_address, *req));
    }
    let candidate = match crate::balance::balance(
        &snapshot.wallet_utxos,
        &order,
        &req.mints,
        &outputs_total,
        &redeemers,
        units,
        &fp,
        &req.outputs,
        &change_address,
        &req.required_signers,
        &req.reference_inputs,
        max_iterations,
    ) {
        Ok(c) => c,
        Err(e) => {
            proof {
                match e {
                    Error::MissingExUnits(tag, idx) => {
                        let x = choose|x: int|
                            0 <= x < redeemers@.len() && (#[trigger] redeemers@[x]).tag == tag
                                && redeemers@[x].index == idx && spec_find_units(
                                units@,
                                tag,
                                idx,
                            ) is None;
                        if x < req.mints@.len() {
                            assert(redeemers@[x].tag == RedeemerTag::Mint && redeemers@[x].index
                                == x);
                        } else {
                            let i = x - req.mints@.len();
                            assert(redeemers@[req.mints@.len() + i].tag == req.invocations@[i].tag
                                && redeemers@[req.mints@.len() + i].index
                                == req.invocations@[i].index);
                        }
                    },
                    Error::MissingCollateral => {
                        let wallet = snapshot.wallet_utxos@;
                        let om_g = crate::balance::omap(order@);
                        let (f, kk, cc): (u64, int, Value) = choose|f: u64, kk: int, cc: Value|
                            #![trigger crate::balance::change_matches(
                                cc,
                                wallet,
                                om_g,
                                kk,
                                req.mints@,
                                outputs_total,
                                f,
                            )]
                            0 <= kk <= order@.len() && crate::balance::spec_round_fee(
                                f,
                                wallet,
                                om_g,
                                req.mints@,
                                outputs_total,
                                redeemers@,
                                units@,
                                fp,
                                req.outputs@,
                                change_address,
                                req.required_signers@,
                                req.reference_inputs@,
                            ) && crate::balance::change_matches(
                                cc,
                                wallet,
                                om_g,
                                kk,
                                req.mints@,
                                outputs_total,
                                f,
                            ) && crate::balance::spec_priced_fee(
                                wallet,
                                om_g,
                                kk,
                                cc,
                                req.mints@,
                                redeemers@,
                                units@,
                                fp,
                                req.outputs@,
                                change_address,
                                req.required_signers@,
                                req.reference_inputs@,
                            ) == f as int && (crate::balance::spec_collateral_threshold(
                                f,
                                fp.collateral_percentage,
                            ) > u64::MAX || crate::collateral::spec_select_collateral(
                                wallet,
                                crate::balance::sel_refs(wallet, om_g, kk),
                                crate::balance::spec_collateral_threshold(
                                    f,
                                    fp.collateral_percentage,
                                ) as u64,
                                fp.max_collateral_inputs,
                            ) is None);
                        assert(crate::balance::change_matches(
                            cc,
                            wallet,
                            crate::balance::spec_spend_order(wallet),
                            kk,
                            req.mints@,
                            outputs_total,
                            f,
                        ) && crate::balance::spec_priced_fee(
                            wallet,
                            crate::balance::spec_spend_order(wallet),
                            kk,
                            cc,
                            req.mints@,
                            redeemers@,
                            units@,
                            fp,
                            req.outputs@,
                            change_address,
                            req.required_signers@,
                            req.reference_inputs@,
                        ) == f as int);
                        assert(spec_collateral_failure_for(*req, *snapshot, *ctx, units@));
                    },
                    Error::TransactionBuildError(_) => {
                        let wallet = snapshot.wallet_utxos@;
                        let om_g = crate::balance::omap(order@);
                        let f = choose|f: u64|
                            #![trigger crate::balance::spec_balance_failure(
                                wallet,
                                om_g,
                                req.mints@,
                                outputs_total,
                                redeemers@,
                                units@,
                                fp,
                                req.outputs@,
                                change_address,
                                req.required_signers@,
                                req.reference_inputs@,
                                f,
                            )]
                            crate::balance::spec_round_fee(
                                f,
                                wallet,
                                om_g,
                                req.mints@,
                                outputs_total,
                                redeemers@,
                                units@,
                                fp,
                                req.outputs@,
                                change_address,
                                req.required_signers@,
                                req.reference_inputs@,
                            ) && crate::balance::spec_balance_failure(
                                wallet,
                                om_g,
                                req.mints@,
                                outputs_total,
                                redeemers@,
                                units@,
                                fp,
                                req.outputs@,
                                change_address,
                                req.required_signers@,
                                req.reference_inputs@,
                                f,
                            );
                        assert(crate::balance::spec_balance_failure(
                            wallet,
                            crate::balance::spec_spend_order(wallet),
                            req.mints@,
                            outputs_total,
                            redeemers@,
                            units@,
                            fp,
                            req.outputs@,
                            change_address,
                            req.required_signers@,
                            req.reference_inputs@,
                            f,
                        ));
                        assert(spec_balancing_failure_for(*req, *snapshot, *ctx, units@));
                    },
                    Error::BalancingDiverged(_) => {
                        let wallet = snapshot.wallet_utxos@;
                        let om_g = crate::balance::omap(order@);
                        let (f, kk, cc): (u64, int, Value) = choose|f: u64, kk: int, cc: Value|
                            #![trigger crate::balance::change_matches(
                                cc,
                                wallet,
                                om_g,
                                kk,
                                req.mints@,
                                outputs_total,
                                f,
                            )]
                            0 <= kk <= order@.len() && crate::balance::change_matches(
                                cc,
                                wallet,
                                om_g,
                                kk,
                                req.mints@,
                                outputs_total,
                                f,
                            ) && crate::balance::spec_priced_fee(
                                wallet,
                                om_g,
                                kk,
                                cc,
                                req.mints@,
                                redeemers@,
                                units@,
                                fp,
                                req.outputs@,
                                change_address,
                                req.required_signers@,
                                req.reference_inputs@,
                            ) != f;
                        assert(crate::balance::spec_priced_fee(
                            wallet,
                            crate::balance::spec_spend_order(wallet),
                            kk,
                            cc,
                            req.mints@,
                            redeemers@,
                            units@,
                            fp,
                            req.outputs@,
                            change_address,
                            req.required_signers@,
                            req.reference_inputs@,
                        ) != f && crate::balance::change_matches(
                            cc,
                            wallet,
                            crate::balance::spec_spend_order(wallet),
                            kk,
                            req.mints@,
                            outputs_total,
                            f,
                        ));
                        assert(spec_divergence_witness(*req, *snapshot, *ctx, units@));
                    },
                    _ => {},
                }
            }
            return Err(e);
        },
    };
    let ghost cand = candidate;
    let result = finalize(
        req,
        resolved.mint_scripts,
        &resolved.output_datums,
        &redeemers,
        units,
        candidate,
        &change_address,
    );
    match result {
        Ok(tx) => {
            proof {
                let wallet = snapshot.wallet_utxos@;
                let om = crate::balance::spec_spend_order(wallet);
                let k = tx.inputs@.len() as int;
                assert(om == crate::balance::omap(order@));
                assert(k == cand.inputs@.len());
                assert(k <= order@.len());
                assert(order@.len() == wallet.len());
                let sv = crate::balance::sel_values(wallet, om, k);
                assert forall|j: int| 0 <= j < k implies (#[trigger] tx.inputs@[j]).tx_id@
                    == crate::balance::sel_refs(wallet, om, k)[j].tx_id@ && tx.inputs@[j].index
                    == crate::balance::sel_refs(wallet, om, k)[j].index by {
                    assert(tx.inputs@[j] == cand.inputs@[j]);
                }
                assert forall|p: Seq<u8>, n: Seq<u8>|
                    #[trigger] assets_sum(sv, p, n) == assets_sum(cand.input_values@, p, n)
                        && lovelace_sum(sv) == lovelace_sum(cand.input_values@) by {
                    crate::value::lemma_value_sums_congruent(cand.input_values@, sv, p, n);
                }
                crate::value::lemma_value_sums_congruent(
                    cand.input_values@,
                    sv,
                    Seq::<u8>::empty(),
                    Seq::<u8>::empty(),
                );
                assert(lovelace_sum(sv) == lovelace_sum(ledger_out_values(tx.outputs@)) + tx.fee);
                assert forall|p: Seq<u8>, n: Seq<u8>| #[trigger] assets_sum(sv, p, n)
                    + mint_amount_in(req.mints@, p, n) == assets_sum(
                    ledger_out_values(tx.outputs@),
                    p,
                    n,
                ) by {
                    assert(assets_sum(sv, p, n) == assets_sum(cand.input_values@, p, n));
                    assert(assets_sum(ledger_out_values(tx.outputs@), p, n) == assets_sum(
                        cand.input_values@,
                        p,
                        n,
                    ) + mint_amount_in(req.mints@, p, n));
                }
            }
            Ok(tx)
        },
        Err(e) => {
            proof {
                match e {
                    Error::ConversionError(_) => {
                        if !address_wf(change_address) {
                            match &req.change_strategy {
                                crate::request::ChangeStrategy::NewOutput(a) => {
                                    assert(address_matches(change_address, *a));
                                    assert(!address_wf(*a));
                                },
                                crate::request::ChangeStrategy::LastOutput => {
                                    assert(req.outputs@.len() > 0);
                                    assert(!address_wf(req.outputs@.last().address));
                                },
                            }
                        }
                    },
                    Error::TransactionBuildError(_) => {
                        let wallet = snapshot.wallet_utxos@;
                        let om_g = crate::balance::omap(order@);
                        let kk = cand.inputs@.len() as int;
                        let sv = crate::balance::sel_values(wallet, om_g, kk);
                        crate::value::lemma_value_sums_congruent(
                            cand.input_values@,
                            sv,
                            Seq::<u8>::empty(),
                            Seq::<u8>::empty(),
                        );
                        assert forall|p: Seq<u8>, n: Seq<u8>| #[trigger] assets_sum(sv, p, n)
                            == assets_sum(cand.input_values@, p, n) by {
                            crate::value::lemma_value_sums_congruent(cand.input_values@, sv, p, n);
                        }
                        assert forall|p: Seq<u8>, n: Seq<u8>|
                            #[trigger] cand.change.amount_of(p, n) == assets_sum(sv, p, n)
                                + mint_amount_in(req.mints@, p, n) - outputs_total.amount_of(
                                p,
                                n,
                            ) by {
                            assert(assets_sum(cand.input_values@, p, n) + mint_amount_in(
                                req.mints@,
                                p,
                                n,
                            ) == outputs_total.amount_of(p, n) + cand.change.amount_of(p, n));
                        }
                        assert(crate::balance::change_matches(
                            cand.change,
                            wallet,
                            crate::balance::spec_spend_order(wallet),
                            kk,
                            req.mints@,
                            outputs_total,
                            cand.fee,
                        ));
                        assert(crate::balance::spec_priced_fee(
                            wallet,
                            crate::balance::spec_spend_order(wallet),
                            kk,
                            cand.change,
                            req.mints@,
                            redeemers@,
                            units@,
                            fp,
                            req.outputs@,
                            change_address,
                            req.required_signers@,
                            req.reference_inputs@,
                        ) == cand.fee as int);
                        assert(spec_change_merge_overflow(*req, *snapshot, *ctx, units@));
                    },
                    _ => {},
                }
            }
            Err(e)
        },
    }
}

} // verus!
