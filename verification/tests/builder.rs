use tx_bakery::chain::{
    Address, ChainSnapshot, ExUnitsEntry, OutputDatum, ProtocolParameters, RationalPrice,
    RedeemerTag, Utxo, UtxoRef,
};
use tx_bakery::error::Error;
use tx_bakery::ledger::build_transaction;
use tx_bakery::request::{
    ChangeStrategy, LookupContext, OutputSpec, ScriptInvocation, TableEntry, TimeInterval,
    TransactionRequest,
};
use tx_bakery::value::{Asset, MintAsset, Value};
use tx_bakery::balance::{
    balance_iteration, gather_redeemers, spend_order, sum_output_values, validate_params,
    IterOutcome,
};

fn addr(seed: u8) -> Address {
    Address { network: 0, payment: vec![seed; 28], stake: None }
}

fn utxo(id: u8, index: u64, lovelace: u64, assets: Vec<Asset>) -> Utxo {
    Utxo {
        reference: UtxoRef { tx_id: vec![id; 32], index },
        address: addr(9),
        value: Value { lovelace, assets },
        datum: None,
        reference_script: None,
    }
}

fn params(a: u64, b: u64) -> ProtocolParameters {
    ProtocolParameters {
        min_fee_coefficient: Some(a),
        min_fee_constant: Some(b),
        collateral_percentage: Some(150),
        max_collateral_inputs: Some(3),
        price_memory: Some(RationalPrice { num: 1, den: 2 }),
        price_steps: Some(RationalPrice { num: 1, den: 2 }),
        max_tx_size: Some(1_000_000),
    }
}

fn empty_ctx() -> LookupContext {
    LookupContext { scripts: Vec::new(), datums: Vec::new(), mint_redeemers: Vec::new() }
}

fn request(outputs: Vec<OutputSpec>, strategy: ChangeStrategy) -> TransactionRequest {
    TransactionRequest {
        outputs,
        mints: Vec::new(),
        invocations: Vec::new(),
        validity: TimeInterval { from: None, to: None },
        required_signers: Vec::new(),
        reference_inputs: Vec::new(),
        change_strategy: strategy,
    }
}

fn pay(to: u8, lovelace: u64) -> OutputSpec {
    OutputSpec {
        address: addr(to),
        value: Value { lovelace, assets: Vec::new() },
        datum: None,
    }
}

#[test]
fn simple_payment_conserves_value() {
    let snapshot = ChainSnapshot {
        parameters: params(0, 10),
        wallet_utxos: vec![
            utxo(1, 0, 100, vec![Asset { policy: vec![7; 28], name: vec![b'T'], amount: 5 }]),
            utxo(2, 0, 50, Vec::new()),
        ],
    };
    let req = request(vec![pay(3, 30)], ChangeStrategy::NewOutput(addr(4)));
    let tx = build_transaction(&req, &snapshot, &empty_ctx(), &Vec::new(), 5).unwrap();
    assert_eq!(tx.fee, 10);
    // The 100-lovelace output is drawn first (largest first) and covers
    // everything; the change absorbs the rest, tokens included.
    assert_eq!(tx.inputs, vec![UtxoRef { tx_id: vec![1; 32], index: 0 }]);
    assert_eq!(tx.outputs.len(), 2);
    assert_eq!(tx.outputs[0].value.lovelace, 30);
    let change = &tx.outputs[1].value;
    assert_eq!(change.lovelace, 60);
    assert_eq!(change.assets.len(), 1);
    assert_eq!(change.assets[0].amount, 5);
    // inputs = outputs + fee, in lovelace and in the token.
    let in_lovelace: u64 = 100;
    let out_lovelace: u64 = tx.outputs.iter().map(|o| o.value.lovelace).sum();
    assert_eq!(in_lovelace, out_lovelace + tx.fee);
}

#[test]
fn two_builds_are_identical() {
    let mk = || {
        let snapshot = ChainSnapshot {
            parameters: params(0, 10),
            wallet_utxos: vec![
                utxo(1, 0, 100, vec![Asset { policy: vec![7; 28], name: vec![b'T'], amount: 5 }]),
                utxo(2, 0, 50, Vec::new()),
            ],
        };
        let req = request(vec![pay(3, 30)], ChangeStrategy::NewOutput(addr(4)));
        build_transaction(&req, &snapshot, &empty_ctx(), &Vec::new(), 5).unwrap()
    };
    assert_eq!(mk(), mk());
}

#[test]
fn missing_mint_redeemer_names_the_hash() {
    let snapshot = ChainSnapshot {
        parameters: params(0, 10),
        wallet_utxos: vec![utxo(1, 0, 100, Vec::new())],
    };
    let mut req = request(vec![pay(3, 30)], ChangeStrategy::NewOutput(addr(4)));
    req.mints = vec![MintAsset { policy: vec![0xAB; 28], name: vec![b'M'], amount: 1 }];
    let r = build_transaction(&req, &snapshot, &empty_ctx(), &Vec::new(), 5);
    match r {
        Err(Error::MissingMintRedeemer(h)) => assert_eq!(h, vec![0xAB; 28]),
        other => panic!("expected MissingMintRedeemer, got {:?}", other),
    }
}

#[test]
fn missing_script_after_redeemer_resolves() {
    let snapshot = ChainSnapshot {
        parameters: params(0, 10),
        wallet_utxos: vec![utxo(1, 0, 100, Vec::new())],
    };
    let mut req = request(vec![pay(3, 30)], ChangeStrategy::NewOutput(addr(4)));
    req.mints = vec![MintAsset { policy: vec![0xAB; 28], name: vec![b'M'], amount: 1 }];
    let mut ctx = empty_ctx();
    ctx.mint_redeemers.push(TableEntry { key: vec![0xAB; 28], val: vec![1, 2, 3] });
    let r = build_transaction(&req, &snapshot, &ctx, &Vec::new(), 5);
    match r {
        Err(Error::MissingScript(h)) => assert_eq!(h, vec![0xAB; 28]),
        other => panic!("expected MissingScript, got {:?}", other),
    }
}

#[test]
fn missing_datum_names_the_hash() {
    let snapshot = ChainSnapshot {
        parameters: params(0, 10),
        wallet_utxos: vec![utxo(1, 0, 100, Vec::new())],
    };
    let out = OutputSpec {
        address: addr(3),
        value: Value { lovelace: 10, assets: Vec::new() },
        datum: Some(OutputDatum::DatumHash(vec![0x0D; 32])),
    };
    let req = request(vec![out], ChangeStrategy::NewOutput(addr(4)));
    let r = build_transaction(&req, &snapshot, &empty_ctx(), &Vec::new(), 5);
    match r {
        Err(Error::MissingDatum(h)) => assert_eq!(h, vec![0x0D; 32]),
        other => panic!("expected MissingDatum, got {:?}", other),
    }
}

#[test]
fn insufficient_collateral_with_token_only_wallet() {
    // Every wallet output carries a non-base asset, so none is eligible
    // as collateral; a request that runs a script must fail.
    let token = || vec![Asset { policy: vec![7; 28], name: vec![b'T'], amount: 1 }];
    let snapshot = ChainSnapshot {
        parameters: params(0, 10),
        wallet_utxos: vec![utxo(1, 0, 100, token()), utxo(2, 0, 80, token())],
    };
    let mut req = request(vec![pay(3, 30)], ChangeStrategy::NewOutput(addr(4)));
    req.invocations = vec![ScriptInvocation { tag: RedeemerTag::Spend, index: 7, redeemer: vec![1] }];
    let units = vec![ExUnitsEntry { tag: RedeemerTag::Spend, index: 7, memory: 10, steps: 20 }];
    let r = build_transaction(&req, &snapshot, &empty_ctx(), &units, 5);
    assert!(matches!(r, Err(Error::MissingCollateral)), "got {:?}", r);
}

#[test]
fn last_output_strategy_without_outputs_fails() {
    let snapshot = ChainSnapshot {
        parameters: params(0, 10),
        wallet_utxos: vec![utxo(1, 0, 100, Vec::new())],
    };
    let req = request(Vec::new(), ChangeStrategy::LastOutput);
    let r = build_transaction(&req, &snapshot, &empty_ctx(), &Vec::new(), 5);
    assert!(matches!(r, Err(Error::MissingChangeOutput)), "got {:?}", r);
}

#[test]
fn append_strategy_creates_one_output_with_leftover() {
    let snapshot = ChainSnapshot {
        parameters: params(0, 10),
        wallet_utxos: vec![utxo(1, 0, 100, Vec::new())],
    };
    let req = request(Vec::new(), ChangeStrategy::NewOutput(addr(4)));
    let tx = build_transaction(&req, &snapshot, &empty_ctx(), &Vec::new(), 5).unwrap();
    assert_eq!(tx.outputs.len(), 1);
    assert_eq!(tx.outputs[0].value.lovelace, 90);
    assert_eq!(tx.fee, 10);
}

#[test]
fn last_output_strategy_absorbs_change() {
    let snapshot = ChainSnapshot {
        parameters: params(0, 10),
        wallet_utxos: vec![utxo(1, 0, 100, Vec::new())],
    };
    let req = request(vec![pay(3, 30)], ChangeStrategy::LastOutput);
    let tx = build_transaction(&req, &snapshot, &empty_ctx(), &Vec::new(), 5).unwrap();
    assert_eq!(tx.outputs.len(), 1);
    assert_eq!(tx.outputs[0].value.lovelace, 90);
}

#[test]
fn divergent_balancing_reports_the_bound() {
    // With a size-dependent fee and one round allowed, the assumed and
    // priced fees cannot agree within the bound.
    let snapshot = ChainSnapshot {
        parameters: params(1, 10),
        wallet_utxos: vec![utxo(1, 0, 100_000, Vec::new())],
    };
    let req = request(vec![pay(3, 30)], ChangeStrategy::NewOutput(addr(4)));
    let r = build_transaction(&req, &snapshot, &empty_ctx(), &Vec::new(), 1);
    assert!(matches!(r, Err(Error::BalancingDiverged(1))), "got {:?}", r);
}

#[test]
fn missing_execution_units_names_the_purpose() {
    let snapshot = ChainSnapshot {
        parameters: params(0, 10),
        wallet_utxos: vec![utxo(1, 0, 100, Vec::new()), utxo(2, 0, 80, Vec::new())],
    };
    let mut req = request(vec![pay(3, 30)], ChangeStrategy::NewOutput(addr(4)));
    req.mints = vec![MintAsset { policy: vec![0xAB; 28], name: vec![b'M'], amount: 1 }];
    req.invocations = vec![ScriptInvocation { tag: RedeemerTag::Spend, index: 7, redeemer: vec![1] }];
    let mut ctx = empty_ctx();
    ctx.mint_redeemers.push(TableEntry { key: vec![0xAB; 28], val: vec![1] });
    ctx.scripts.push(TableEntry { key: vec![0xAB; 28], val: vec![2] });
    // Units for the mint purpose only: the spend purpose stays unpriced.
    let units = vec![ExUnitsEntry { tag: RedeemerTag::Mint, index: 0, memory: 1, steps: 1 }];
    let r = build_transaction(&req, &snapshot, &ctx, &units, 5);
    match r {
        Err(Error::MissingExUnits(tag, idx)) => {
            assert_eq!(tag, RedeemerTag::Spend);
            assert_eq!(idx, 7);
        },
        other => panic!("expected MissingExUnits, got {:?}", other),
    }
}

#[test]
fn script_fee_is_priced_exactly() {
    // fee = 0 * size + 7 + ceil(10/2) + ceil(20/2) = 22.
    let mut p = params(0, 7);
    p.collateral_percentage = Some(150);
    let snapshot = ChainSnapshot {
        parameters: p,
        wallet_utxos: vec![utxo(1, 0, 100, Vec::new()), utxo(2, 0, 50, Vec::new())],
    };
    let mut req = request(vec![pay(3, 30)], ChangeStrategy::NewOutput(addr(4)));
    req.invocations = vec![ScriptInvocation { tag: RedeemerTag::Spend, index: 0, redeemer: vec![1] }];
    let units = vec![ExUnitsEntry { tag: RedeemerTag::Spend, index: 0, memory: 10, steps: 20 }];
    let tx = build_transaction(&req, &snapshot, &empty_ctx(), &units, 5).unwrap();
    assert_eq!(tx.fee, 22);
    // Collateral: ceil(22 * 150 / 100) = 33, covered by the unselected
    // 50-lovelace output.
    assert_eq!(tx.collateral, vec![UtxoRef { tx_id: vec![2; 32], index: 0 }]);
    assert_eq!(tx.redeemers.len(), 1);
    assert_eq!(tx.redeemers[0].memory, 10);
    assert_eq!(tx.redeemers[0].steps, 20);
}

#[test]
fn minted_assets_reach_the_change() {
    let snapshot = ChainSnapshot {
        parameters: params(0, 10),
        wallet_utxos: vec![utxo(1, 0, 100, Vec::new()), utxo(2, 0, 50, Vec::new())],
    };
    let mut req = request(vec![pay(3, 30)], ChangeStrategy::NewOutput(addr(4)));
    req.mints = vec![MintAsset { policy: vec![0xAB; 28], name: vec![b'M'], amount: 4 }];
    let mut ctx = empty_ctx();
    ctx.mint_redeemers.push(TableEntry { key: vec![0xAB; 28], val: vec![1] });
    ctx.scripts.push(TableEntry { key: vec![0xAB; 28], val: vec![2] });
    let units = vec![ExUnitsEntry { tag: RedeemerTag::Mint, index: 0, memory: 1, steps: 1 }];
    let tx = build_transaction(&req, &snapshot, &ctx, &units, 5).unwrap();
    let change = &tx.outputs[tx.outputs.len() - 1].value;
    assert_eq!(change.assets.len(), 1);
    assert_eq!(change.assets[0].policy, vec![0xAB; 28]);
    assert_eq!(change.assets[0].amount, 4);
    assert_eq!(tx.scripts, vec![vec![2]]);
}

#[test]
fn growing_script_cost_never_stabilises() {
    // An evaluator whose cost grows with the assumed fee: each round's
    // priced fee exceeds the assumed one, so the bounded loop must end in
    // divergence, never run unboundedly.
    let snapshot = ChainSnapshot {
        parameters: params(0, 10),
        wallet_utxos: vec![utxo(1, 0, 1_000_000, Vec::new()), utxo(2, 0, 900_000, Vec::new())],
    };
    let mut req = request(vec![pay(3, 30)], ChangeStrategy::NewOutput(addr(4)));
    req.invocations = vec![ScriptInvocation { tag: RedeemerTag::Spend, index: 0, redeemer: vec![1] }];
    let resolved_redeemers = gather_redeemers(&req.mints, &Vec::new(), &req.invocations);
    let fp = validate_params(&snapshot.parameters, true).unwrap();
    let order = spend_order(&snapshot.wallet_utxos);
    let outputs_total = sum_output_values(&req.outputs).unwrap();
    let max_iterations = 4u64;
    let mut assumed_fee = fp.constant;
    let mut k = 0usize;
    let mut iterations = 0u64;
    let outcome = loop {
        if iterations >= max_iterations {
            break Err(Error::BalancingDiverged(max_iterations));
        }
        // The pathological evaluation: cost scales with the fee itself.
        let units = vec![ExUnitsEntry {
            tag: RedeemerTag::Spend,
            index: 0,
            memory: assumed_fee.saturating_mul(4),
            steps: 0,
        }];
        match balance_iteration(
            &snapshot.wallet_utxos,
            &order,
            &req.mints,
            &outputs_total,
            &resolved_redeemers,
            &units,
            &fp,
            &req.outputs,
            &addr(4),
            &req.required_signers,
            &req.reference_inputs,
            assumed_fee,
            k,
        )
        .unwrap()
        {
            IterOutcome::Converged(_) => break Ok(()),
            IterOutcome::Continue(next_fee, next_k) => {
                assumed_fee = next_fee;
                k = next_k;
                iterations += 1;
            },
        }
    };
    assert!(matches!(outcome, Err(Error::BalancingDiverged(4))), "got {:?}", outcome);
}

#[test]
fn resolved_datum_reaches_the_witness_scaffold() {
    let snapshot = ChainSnapshot {
        parameters: params(0, 10),
        wallet_utxos: vec![utxo(1, 0, 100, Vec::new())],
    };
    let out = OutputSpec {
        address: addr(3),
        value: Value { lovelace: 10, assets: Vec::new() },
        datum: Some(OutputDatum::DatumHash(vec![0x0D; 32])),
    };
    let req = request(vec![out], ChangeStrategy::NewOutput(addr(4)));
    let mut ctx = empty_ctx();
    ctx.datums.push(TableEntry { key: vec![0x0D; 32], val: vec![9, 9, 9] });
    let tx = build_transaction(&req, &snapshot, &ctx, &Vec::new(), 5).unwrap();
    assert_eq!(tx.datums, vec![vec![9, 9, 9]]);
}

#[test]
fn missing_protocol_parameter_is_reported() {
    let mut p = params(0, 10);
    p.min_fee_constant = None;
    let snapshot = ChainSnapshot { parameters: p, wallet_utxos: vec![utxo(1, 0, 100, Vec::new())] };
    let req = request(vec![pay(3, 30)], ChangeStrategy::NewOutput(addr(4)));
    let r = build_transaction(&req, &snapshot, &empty_ctx(), &Vec::new(), 5);
    assert!(matches!(r, Err(Error::MissingProtocolParameter(_))), "got {:?}", r);
}

#[test]
fn inverted_validity_interval_is_rejected() {
    let snapshot = ChainSnapshot {
        parameters: params(0, 10),
        wallet_utxos: vec![utxo(1, 0, 100, Vec::new())],
    };
    let mut req = request(vec![pay(3, 30)], ChangeStrategy::NewOutput(addr(4)));
    req.validity = TimeInterval { from: Some(50), to: Some(40) };
    let r = build_transaction(&req, &snapshot, &empty_ctx(), &Vec::new(), 5);
    assert!(matches!(r, Err(Error::InvalidPOSIXTime(_))), "got {:?}", r);
}

#[test]
fn underfunded_wallet_is_a_build_failure() {
    let snapshot = ChainSnapshot {
        parameters: params(0, 10),
        wallet_utxos: vec![utxo(1, 0, 15, Vec::new())],
    };
    let req = request(vec![pay(3, 30)], ChangeStrategy::NewOutput(addr(4)));
    let r = build_transaction(&req, &snapshot, &empty_ctx(), &Vec::new(), 5);
    assert!(matches!(r, Err(Error::TransactionBuildError(_))), "got {:?}", r);
}

#[test]
fn unrepresentable_output_address_is_a_conversion_error() {
    let snapshot = ChainSnapshot {
        parameters: params(0, 10),
        wallet_utxos: vec![utxo(1, 0, 100, Vec::new())],
    };
    let bad = OutputSpec {
        address: Address { network: 0, payment: vec![1; 5], stake: None },
        value: Value { lovelace: 10, assets: Vec::new() },
        datum: None,
    };
    let req = request(vec![bad], ChangeStrategy::NewOutput(addr(4)));
    let r = build_transaction(&req, &snapshot, &empty_ctx(), &Vec::new(), 5);
    assert!(matches!(r, Err(Error::ConversionError(_))), "got {:?}", r);
}
