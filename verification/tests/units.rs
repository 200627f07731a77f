use tx_bakery::bytes::{bytes_eq, bytes_lt};
use tx_bakery::chain::{Address, Utxo, UtxoRef};
use tx_bakery::collateral::select_collateral;
use tx_bakery::error::Error;
use tx_bakery::indexer::{ErrorPolicy, Events, RetryPolicy, next_backoff, should_retry};
use tx_bakery::ledger::{from_ledger_address, to_ledger_address, LedgerAddress};
use tx_bakery::value::{
    apply_mint, is_only_lovelace, sum_values, value_add, value_sub, Asset, MintAsset, Value,
};

fn val(lovelace: u64, assets: Vec<(u8, u64)>) -> Value {
    Value {
        lovelace,
        assets: assets
            .into_iter()
            .map(|(p, amount)| Asset { policy: vec![p; 28], name: vec![b'N'], amount })
            .collect(),
    }
}

fn plain_utxo(id: u8, lovelace: u64) -> Utxo {
    Utxo {
        reference: UtxoRef { tx_id: vec![id; 32], index: 0 },
        address: Address { network: 0, payment: vec![9; 28], stake: None },
        value: val(lovelace, Vec::new()),
        datum: None,
        reference_script: None,
    }
}

#[test]
fn value_add_merges_classes() {
    let a = val(10, vec![(1, 5), (2, 7)]);
    let b = val(20, vec![(2, 3), (3, 1)]);
    let r = value_add(&a, &b).unwrap();
    assert_eq!(r.lovelace, 30);
    let amount = |p: u8| {
        r.assets
            .iter()
            .find(|x| x.policy == vec![p; 28])
            .map(|x| x.amount)
            .unwrap_or(0)
    };
    assert_eq!(amount(1), 5);
    assert_eq!(amount(2), 10);
    assert_eq!(amount(3), 1);
}

#[test]
fn value_add_overflow_is_none() {
    let a = val(u64::MAX, Vec::new());
    let b = val(1, Vec::new());
    assert!(value_add(&a, &b).is_none());
}

#[test]
fn value_sub_underflow_is_none() {
    let a = val(10, vec![(1, 5)]);
    let b = val(1, vec![(1, 6)]);
    assert!(value_sub(&a, &b).is_none());
    let c = val(1, vec![(1, 2)]);
    let r = value_sub(&a, &c).unwrap();
    assert_eq!(r.lovelace, 9);
    assert_eq!(r.assets[0].amount, 3);
}

#[test]
fn mint_and_burn_apply_pointwise() {
    let v = val(10, vec![(1, 5)]);
    let m = vec![
        MintAsset { policy: vec![1; 28], name: vec![b'N'], amount: -5 },
        MintAsset { policy: vec![2; 28], name: vec![b'N'], amount: 3 },
    ];
    let r = apply_mint(&v, &m).unwrap();
    let amount = |p: u8| {
        r.assets
            .iter()
            .find(|x| x.policy == vec![p; 28])
            .map(|x| x.amount)
            .unwrap_or(0)
    };
    assert_eq!(amount(1), 0);
    assert_eq!(amount(2), 3);
    // Burning more than is held fails.
    let over = vec![MintAsset { policy: vec![1; 28], name: vec![b'N'], amount: -6 }];
    assert!(apply_mint(&v, &over).is_none());
}

#[test]
fn only_lovelace_recognises_tokens() {
    assert!(is_only_lovelace(&val(5, Vec::new())));
    assert!(!is_only_lovelace(&val(5, vec![(1, 1)])));
}

#[test]
fn sum_values_totals_every_class() {
    let vs = vec![val(1, vec![(1, 2)]), val(2, vec![(1, 3)]), val(3, Vec::new())];
    let t = sum_values(&vs).unwrap();
    assert_eq!(t.lovelace, 6);
    assert_eq!(t.assets.len(), 1);
    assert_eq!(t.assets[0].amount, 5);
}

#[test]
fn byte_order_is_lexicographic() {
    assert!(bytes_lt(&vec![], &vec![0]));
    assert!(bytes_lt(&vec![1, 2], &vec![1, 3]));
    assert!(bytes_lt(&vec![1, 2], &vec![1, 2, 0]));
    assert!(!bytes_lt(&vec![1, 3], &vec![1, 2, 9]));
    assert!(!bytes_lt(&vec![5], &vec![5]));
    assert!(bytes_eq(&vec![5, 6], &vec![5, 6]));
    assert!(!bytes_eq(&vec![5, 6], &vec![5, 7]));
}

#[test]
fn collateral_selection_is_ascending_and_greedy() {
    let wallet = vec![plain_utxo(1, 5), plain_utxo(2, 1), plain_utxo(3, 3)];
    let sel = select_collateral(&wallet, &Vec::new(), 4, 3).unwrap();
    assert_eq!(
        sel,
        vec![
            UtxoRef { tx_id: vec![2; 32], index: 0 },
            UtxoRef { tx_id: vec![3; 32], index: 0 },
        ]
    );
}

#[test]
fn collateral_cap_before_threshold_fails() {
    let wallet = vec![plain_utxo(1, 5), plain_utxo(2, 1)];
    let r = select_collateral(&wallet, &Vec::new(), 10, 1);
    assert!(matches!(r, Err(Error::MissingCollateral)));
}

#[test]
fn collateral_skips_spent_inputs() {
    let wallet = vec![plain_utxo(1, 5), plain_utxo(2, 8)];
    let spent = vec![UtxoRef { tx_id: vec![1; 32], index: 0 }];
    let sel = select_collateral(&wallet, &spent, 4, 3).unwrap();
    assert_eq!(sel, vec![UtxoRef { tx_id: vec![2; 32], index: 0 }]);
}

#[test]
fn address_round_trips_through_the_ledger_form() {
    let a = Address { network: 1, payment: vec![3; 28], stake: Some(vec![4; 28]) };
    let l = to_ledger_address(&a).unwrap();
    assert_eq!(l.bytes.len(), 57);
    let back = from_ledger_address(&l).unwrap();
    assert_eq!(back, a);

    let b = Address { network: 0, payment: vec![5; 28], stake: None };
    let l2 = to_ledger_address(&b).unwrap();
    assert_eq!(l2.bytes.len(), 29);
    assert_eq!(from_ledger_address(&l2).unwrap(), b);
}

#[test]
fn malformed_ledger_address_is_rejected() {
    let r = from_ledger_address(&LedgerAddress { bytes: vec![0; 10] });
    assert!(matches!(r, Err(Error::ConversionError(_))));
    let a = Address { network: 20, payment: vec![3; 28], stake: None };
    assert!(matches!(to_ledger_address(&a), Err(Error::ConversionError(_))));
}

#[test]
fn retry_decisions_follow_the_policy() {
    let p = RetryPolicy {
        max_retries: 3,
        initial_backoff_ms: 100,
        backoff_factor: 2,
        max_backoff_ms: 350,
    };
    assert!(should_retry(&p, 0, ErrorPolicy::Retry));
    assert!(should_retry(&p, 2, ErrorPolicy::Retry));
    assert!(!should_retry(&p, 3, ErrorPolicy::Retry));
    assert!(!should_retry(&p, 0, ErrorPolicy::Skip));
    assert!(!should_retry(&p, 0, ErrorPolicy::Exit));
    assert_eq!(next_backoff(&p, 100), 200);
    assert_eq!(next_backoff(&p, 200), 350);
    assert_eq!(next_backoff(&p, u64::MAX), 350);
}

#[test]
fn event_labels_match_their_names() {
    assert_eq!(Events::EventHandlerFailure.label(), "EventHandlerFailure");
}

#[test]
fn errors_describe_themselves() {
    assert_eq!(Error::MissingCollateral.describe(), "couldn't find suitable collateral");
    assert_eq!(
        Error::MissingChangeOutput.describe(),
        "change strategy needs an output, but none exists"
    );
}
