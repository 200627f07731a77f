//! Reference resolution: every script, datum and redeemer hash the request
//! mentions is resolved against the caller's lookup context, all or
//! nothing. A missing entry fails with the specific reference kind and the
//! hash, never a generic error, so the caller can fetch it and retry.

use vstd::prelude::*;
use crate::bytes::bytes_clone;
use crate::chain::OutputDatum;
use crate::error::Error;
use crate::request::{LookupContext, OutputSpec, TableEntry, TransactionRequest, lookup, table_lookup};
use crate::value::MintAsset;

verus! {

/// Every minting policy of `mints` has a redeemer in `tbl`.
pub open spec fn all_mint_redeemers_resolve(mints: Seq<MintAsset>, tbl: Seq<TableEntry>) -> bool {
    forall|i: int|
        0 <= i < mints.len() ==> (#[trigger] table_lookup(tbl, mints[i].policy@)) is Some
}

/// Every minting policy of `mints` has its script in `tbl`.
pub open spec fn all_mint_scripts_resolve(mints: Seq<MintAsset>, tbl: Seq<TableEntry>) -> bool {
    forall|i: int|
        0 <= i < mints.len() ==> (#[trigger] table_lookup(tbl, mints[i].policy@)) is Some
}

/// Whether the output's datum reference (if it is one) has a value in `tbl`.
pub open spec fn output_datum_resolves(o: OutputSpec, tbl: Seq<TableEntry>) -> bool {
    match o.datum {
        Some(OutputDatum::DatumHash(h)) => table_lookup(tbl, h@) is Some,
        _ => true,
    }
}

/// Every hash-referenced output datum has a value in `tbl`.
pub open spec fn all_output_datums_resolve(outputs: Seq<OutputSpec>, tbl: Seq<TableEntry>) -> bool {
    forall|i: int| 0 <= i < outputs.len() ==> output_datum_resolves(#[trigger] outputs[i], tbl)
}

/// Everything the request referenced by hash, resolved to concrete bytes.
#[derive(Debug)]
pub struct Resolved {
    /// One redeemer per request mint, in request order.
    pub mint_redeemers: Vec<Vec<u8>>,
    /// One minting-policy script per request mint, in request order.
    pub mint_scripts: Vec<Vec<u8>>,
    /// One entry per request output: the resolved datum value for a
    /// hash-referenced datum, `None` for inline or absent datums.
    pub output_datums: Vec<Option<Vec<u8>>>,
}

/// Resolves every hash reference of `req` against `ctx`, in the order:
/// mint redeemers, then minting-policy scripts, then output datums.
/// Resolution is all or nothing: on the first missing entry the build
/// fails with that reference kind and hash, and nothing is returned.
pub fn resolve_request(req: &TransactionRequest, ctx: &LookupContext) -> (r: Result<
    Resolved,
    Error,
>)
    ensures
        match r {
            Ok(res) => {
                &&& all_mint_redeemers_resolve(req.mints@, ctx.mint_redeemers@)
                &&& all_mint_scripts_resolve(req.mints@, ctx.scripts@)
                &&& all_output_datums_resolve(req.outputs@, ctx.datums@)
                &&& res.mint_redeemers@.len() == req.mints@.len()
                &&& forall|i: int|
                    0 <= i < req.mints@.len() ==> table_lookup(
                        ctx.mint_redeemers@,
                        req.mints@[i].policy@,
                    ) == Some((#[trigger] res.mint_redeemers@[i])@)
                &&& res.mint_scripts@.len() == req.mints@.len()
                &&& forall|i: int|
                    0 <= i < req.mints@.len() ==> table_lookup(ctx.scripts@, req.mints@[i].policy@)
                        == Some((#[trigger] res.mint_scripts@[i])@)
                &&& res.output_datums@.len() == req.outputs@.len()
                &&& forall|i: int|
                    0 <= i < req.outputs@.len() ==> match req.outputs@[i].datum {
                        Some(OutputDatum::DatumHash(h)) => {
                            &&& (#[trigger] res.output_datums@[i]) matches Some(v)
                            &&& table_lookup(ctx.datums@, h@) == Some(v@)
                        },
                        _ => res.output_datums@[i] is None,
                    }
            },
            Err(e) => match e {
                Error::MissingMintRedeemer(h) => exists|i: int|
                    0 <= i < req.mints@.len() && h@ == req.mints@[i].policy@ && (
                    #[trigger] table_lookup(ctx.mint_redeemers@, req.mints@[i].policy@)) is None,
                Error::MissingScript(h) => {
                    &&& all_mint_redeemers_resolve(req.mints@, ctx.mint_redeemers@)
                    &&& exists|i: int|
                        0 <= i < req.mints@.len() && h@ == req.mints@[i].policy@ && (
                        #[trigger] table_lookup(ctx.scripts@, req.mints@[i].policy@)) is None
                },
                Error::MissingDatum(h) => {
                    &&& all_mint_redeemers_resolve(req.mints@, ctx.mint_redeemers@)
                    &&& all_mint_scripts_resolve(req.mints@, ctx.scripts@)
                    &&& exists|i: int|
                        0 <= i < req.outputs@.len() && match (#[trigger] req.outputs@[i]).datum {
                            Some(OutputDatum::DatumHash(hh)) => h@ == hh@ && table_lookup(
                                ctx.datums@,
                                hh@,
                            ) is None,
                            _ => false,
                        }
                },
                _ => false,
            },
        },
{
    let mut mint_redeemers: Vec<Vec<u8>> = Vec::new();
    let mut i: usize = 0;
    while i < req.mints.len()
        invariant
            i <= req.mints@.len(),
            mint_redeemers@.len() == i,
            forall|k: int|
                0 <= k < i ==> table_lookup(ctx.mint_redeemers@, req.mints@[k].policy@) == Some((
                #[trigger] mint_redeemers@[k])@),
        decreases req.mints@.len() - i,
    {
        match lookup(&ctx.mint_redeemers, &req.mints[i].policy) {
            Some(v) => {
                mint_redeemers.push(bytes_clone(v));
            },
            None => {
                return Err(Error::MissingMintRedeemer(bytes_clone(&req.mints[i].policy)));
            },
        }
        i = i + 1;
    }
    proof {
        assert forall|k: int| 0 <= k < req.mints@.len() implies (#[trigger] table_lookup(
            ctx.mint_redeemers@,
            req.mints@[k].policy@,
        )) is Some by {
            assert(table_lookup(ctx.mint_redeemers@, req.mints@[k].policy@) == Some(
                mint_redeemers@[k]@,
            ));
        }
    }
    let mut mint_scripts: Vec<Vec<u8>> = Vec::new();
    let mut i: usize = 0;
    while i < req.mints.len()
        invariant
            i <= req.mints@.len(),
            mint_scripts@.len() == i,
            all_mint_redeemers_resolve(req.mints@, ctx.mint_redeemers@),
            mint_redeemers@.len() == req.mints@.len(),
            forall|k: int|
                0 <= k < req.mints@.len() ==> table_lookup(ctx.mint_redeemers@, req.mints@[k].policy@)
                    == Some((#[trigger] mint_redeemers@[k])@),
            forall|k: int|
                0 <= k < i ==> table_lookup(ctx.scripts@, req.mints@[k].policy@) == Some((
                #[trigger] mint_scripts@[k])@),
        decreases req.mints@.len() - i,
    {
        match lookup(&ctx.scripts, &req.mints[i].policy) {
            Some(v) => {
                mint_scripts.push(bytes_clone(v));
            },
            None => {
                return Err(Error::MissingScript(bytes_clone(&req.mints[i].policy)));
            },
        }
        i = i + 1;
    }
    proof {
        assert forall|k: int| 0 <= k < req.mints@.len() implies (#[trigger] table_lookup(
            ctx.scripts@,
            req.mints@[k].policy@,
        )) is Some by {
            assert(table_lookup(ctx.scripts@, req.mints@[k].policy@) == Some(mint_scripts@[k]@));
        }
    }
    let mut output_datums: Vec<Option<Vec<u8>>> = Vec::new();
    let mut i: usize = 0;
    while i < req.outputs.len()
        invariant
            i <= req.outputs@.len(),
            output_datums@.len() == i,
            all_mint_redeemers_resolve(req.mints@, ctx.mint_redeemers@),
            all_mint_scripts_resolve(req.mints@, ctx.scripts@),
            mint_redeemers@.len() == req.mints@.len(),
            forall|k: int|
                0 <= k < req.mints@.len() ==> table_lookup(ctx.mint_redeemers@, req.mints@[k].policy@)
                    == Some((#[trigger] mint_redeemers@[k])@),
            mint_scripts@.len() == req.mints@.len(),
            forall|k: int|
                0 <= k < req.mints@.len() ==> table_lookup(ctx.scripts@, req.mints@[k].policy@)
                    == Some((#[trigger] mint_scripts@[k])@),
            forall|k: int|
                0 <= k < i ==> match req.outputs@[k].datum {
                    Some(OutputDatum::DatumHash(h)) => {
                        &&& (#[trigger] output_datums@[k]) matches Some(v)
                        &&& table_lookup(ctx.datums@, h@) == Some(v@)
                    },
                    _ => output_datums@[k] is None,
                },
        decreases req.outputs@.len() - i,
    {
        match &req.outputs[i].datum {
            Some(OutputDatum::DatumHash(h)) => {
                match lookup(&ctx.datums, h) {
                    Some(v) => {
                        output_datums.push(Some(bytes_clone(v)));
                    },
                    None => {
                        return Err(Error::MissingDatum(bytes_clone(h)));
                    },
                }
            },
            _ => {
                output_datums.push(None);
            },
        }
        i = i + 1;
    }
    proof {
        assert forall|k: int| 0 <= k < req.outputs@.len() implies output_datum_resolves(
            #[trigger] req.outputs@[k],
            ctx.datums@,
        ) by {
            let od = output_datums@[k];
            assert(match req.outputs@[k].datum {
                Some(OutputDatum::DatumHash(h)) => {
                    &&& od matches Some(v)
                    &&& table_lookup(ctx.datums@, h@) == Some(v@)
                },
                _ => od is None,
            });
        }
    }
    Ok(Resolved { mint_redeemers, mint_scripts, output_datums })
}

} // verus!
