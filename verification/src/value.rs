//! Multi-asset values: an amount of the base asset (lovelace) together with
//! quantities of user-defined assets, each identified by a minting-policy
//! hash and an asset name.
//!
//! The mathematical reading of a value is pointwise: [`amount_in`] gives the
//! total quantity a sequence of entries holds of one asset class, and every
//! contract below is stated in terms of it, so that two values are
//! interchangeable exactly when they hold the same quantity of every class.

use vstd::prelude::*;
use vstd::pervasive::VecAdditionalExecFns;
use crate::bytes::{bytes_clone, bytes_eq};

verus! {

/// One asset entry: a minting-policy hash, an asset name, and a quantity.
#[derive(Debug, PartialEq, Eq)]
pub struct Asset {
    pub policy: Vec<u8>,
    pub name: Vec<u8>,
    pub amount: u64,
}

/// Whether entry `a` is for the asset class of policy `p` and name `n`.
pub open spec fn asset_matches(a: Asset, p: Seq<u8>, n: Seq<u8>) -> bool {
    a.policy@ == p && a.name@ == n
}

/// Total quantity of the class `(p, n)` held by the entries of `s`.
pub open spec fn amount_in(s: Seq<Asset>, p: Seq<u8>, n: Seq<u8>) -> int
    decreases s.len(),
{
    if s.len() == 0 {
        0
    } else {
        (if asset_matches(s[0], p, n) {
            s[0].amount as int
        } else {
            0
        }) + amount_in(s.drop_first(), p, n)
    }
}

/// No two entries of `s` name the same asset class.
pub open spec fn distinct_classes(s: Seq<Asset>) -> bool {
    forall|i: int, j: int|
        0 <= i < j < s.len() ==> !(s[i].policy@ == s[j].policy@ && s[i].name@ == s[j].name@)
}

pub proof fn lemma_amount_in_push(s: Seq<Asset>, a: Asset, p: Seq<u8>, n: Seq<u8>)
    ensures
        amount_in(s.push(a), p, n) == amount_in(s, p, n) + (if asset_matches(a, p, n) {
            a.amount as int
        } else {
            0
        }),
    decreases s.len(),
{
    let t = s.push(a);
    assert(t.len() == s.len() + 1);
    if s.len() == 0 {
        assert(t[0] == a);
        assert(t.drop_first() =~= Seq::<Asset>::empty());
        assert(amount_in(t.drop_first(), p, n) == 0);
        assert(amount_in(t, p, n) == (if asset_matches(a, p, n) {
            a.amount as int
        } else {
            0
        }));
    } else {
        assert(t[0] == s[0]);
        assert(t.drop_first() =~= s.drop_first().push(a));
        lemma_amount_in_push(s.drop_first(), a, p, n);
    }
}

pub proof fn lemma_amount_in_update(s: Seq<Asset>, j: int, a: Asset, p: Seq<u8>, n: Seq<u8>)
    requires
        0 <= j < s.len(),
    ensures
        amount_in(s.update(j, a), p, n) == amount_in(s, p, n) - (if asset_matches(s[j], p, n) {
            s[j].amount as int
        } else {
            0
        }) + (if asset_matches(a, p, n) {
            a.amount as int
        } else {
            0
        }),
    decreases s.len(),
{
    if j == 0 {
        assert(s.update(0, a)[0] == a);
        assert(s.update(0, a).drop_first() =~= s.drop_first());
    } else {
        assert(s.update(j, a)[0] == s[0]);
        assert(s.update(j, a).drop_first() =~= s.drop_first().update(j - 1, a));
        lemma_amount_in_update(s.drop_first(), j - 1, a, p, n);
    }
}

/// With no entry of `s` for the class `(p, n)`, the quantity held is zero.
pub proof fn lemma_amount_in_absent(s: Seq<Asset>, p: Seq<u8>, n: Seq<u8>)
    requires
        forall|k: int| 0 <= k < s.len() ==> !asset_matches(s[k], p, n),
    ensures
        amount_in(s, p, n) == 0,
    decreases s.len(),
{
    if s.len() > 0 {
        lemma_amount_in_absent(s.drop_first(), p, n);
    }
}

/// With distinct classes, the one entry for `(p, n)` holds the whole quantity.
pub proof fn lemma_amount_in_at(s: Seq<Asset>, j: int, p: Seq<u8>, n: Seq<u8>)
    requires
        distinct_classes(s),
        0 <= j < s.len(),
        asset_matches(s[j], p, n),
    ensures
        amount_in(s, p, n) == s[j].amount as int,
    decreases s.len(),
{
    if j == 0 {
        assert forall|k: int| 0 <= k < s.drop_first().len() implies !asset_matches(
            s.drop_first()[k],
            p,
            n,
        ) by {
            assert(s.drop_first()[k] == s[k + 1]);
            assert(!(s[0].policy@ == s[k + 1].policy@ && s[0].name@ == s[k + 1].name@));
        }
        lemma_amount_in_absent(s.drop_first(), p, n);
    } else {
        assert(!(s[0].policy@ == s[j].policy@ && s[0].name@ == s[j].name@));
        assert forall|i: int, k: int| 0 <= i < k < s.drop_first().len() implies !(s.drop_first()[i].policy@
            == s.drop_first()[k].policy@ && s.drop_first()[i].name@ == s.drop_first()[k].name@) by {
            assert(s.drop_first()[i] == s[i + 1]);
            assert(s.drop_first()[k] == s[k + 1]);
        }
        assert(s.drop_first()[j - 1] == s[j]);
        lemma_amount_in_at(s.drop_first(), j - 1, p, n);
    }
}

/// Quantities held by one sequence of entries equal those held by another
/// whose entries agree classwise and in amount, position by position.
pub proof fn lemma_amount_in_congruent(s: Seq<Asset>, t: Seq<Asset>, p: Seq<u8>, n: Seq<u8>)
    requires
        s.len() == t.len(),
        forall|i: int|
            0 <= i < s.len() ==> s[i].policy@ == t[i].policy@ && s[i].name@ == t[i].name@
                && s[i].amount == t[i].amount,
    ensures
        amount_in(s, p, n) == amount_in(t, p, n),
    decreases s.len(),
{
    if s.len() > 0 {
        assert(forall|i: int|
            0 <= i < s.drop_first().len() ==> s.drop_first()[i] == s[i + 1] && t.drop_first()[i]
                == t[i + 1]);
        lemma_amount_in_congruent(s.drop_first(), t.drop_first(), p, n);
    }
}

/// A multi-asset value: a base-asset amount plus asset entries with
/// pairwise-distinct classes.
#[derive(Debug, PartialEq, Eq)]
pub struct Value {
    pub lovelace: u64,
    pub assets: Vec<Asset>,
}

impl Value {
    /// Well-formed: no asset class is listed twice.
    pub open spec fn wf(self) -> bool {
        distinct_classes(self.assets@)
    }

    /// The quantity this value holds of the class `(p, n)`.
    pub open spec fn amount_of(self, p: Seq<u8>, n: Seq<u8>) -> int {
        amount_in(self.assets@, p, n)
    }

    /// A value of `l` lovelace and no other assets.
    pub fn from_lovelace(l: u64) -> (r: Value)
        ensures
            r.wf(),
            r.lovelace == l,
            forall|p: Seq<u8>, n: Seq<u8>| #[trigger] r.amount_of(p, n) == 0,
    {
        let r = Value { lovelace: l, assets: Vec::new() };
        proof {
            assert forall|p: Seq<u8>, n: Seq<u8>| #[trigger] r.amount_of(p, n) == 0 by {
                lemma_amount_in_absent(r.assets@, p, n);
            }
        }
        r
    }
}

/// With distinct classes, every quantity fits the entry type's range.
pub proof fn lemma_amount_in_bounded(s: Seq<Asset>, p: Seq<u8>, n: Seq<u8>)
    requires
        distinct_classes(s),
    ensures
        amount_in(s, p, n) <= u64::MAX,
{
    if exists|j: int| 0 <= j < s.len() && asset_matches(#[trigger] s[j], p, n) {
        let j = choose|j: int| 0 <= j < s.len() && asset_matches(#[trigger] s[j], p, n);
        lemma_amount_in_at(s, j, p, n);
    } else {
        lemma_amount_in_absent(s, p, n);
    }
}

/// Every quantity a sequence of entries holds is non-negative.
pub proof fn lemma_amount_in_nonneg(s: Seq<Asset>, p: Seq<u8>, n: Seq<u8>)
    ensures
        amount_in(s, p, n) >= 0,
    decreases s.len(),
{
    if s.len() > 0 {
        lemma_amount_in_nonneg(s.drop_first(), p, n);
    }
}

/// With every entry amount zero, every quantity held is zero.
pub proof fn lemma_amount_in_all_zero(s: Seq<Asset>, p: Seq<u8>, n: Seq<u8>)
    requires
        forall|k: int| 0 <= k < s.len() ==> s[k].amount == 0,
    ensures
        amount_in(s, p, n) == 0,
    decreases s.len(),
{
    if s.len() > 0 {
        lemma_amount_in_all_zero(s.drop_first(), p, n);
    }
}

/// A prefix one entry longer holds the prefix's quantity plus that entry's.
pub proof fn lemma_amount_in_take_step(s: Seq<Asset>, i: int, p: Seq<u8>, n: Seq<u8>)
    requires
        0 <= i < s.len(),
    ensures
        amount_in(s.take(i + 1), p, n) == amount_in(s.take(i), p, n) + (if asset_matches(
            s[i],
            p,
            n,
        ) {
            s[i].amount as int
        } else {
            0
        }),
{
    assert(s.take(i + 1) =~= s.take(i).push(s[i]));
    lemma_amount_in_push(s.take(i), s[i], p, n);
}

/// Index of the entry for class `(p, n)` in `s`, if one exists.
pub fn find_asset(s: &Vec<Asset>, p: &Vec<u8>, n: &Vec<u8>) -> (r: Option<usize>)
    ensures
        match r {
            Some(j) => j < s@.len() && s@[j as int].policy@ == p@ && s@[j as int].name@ == n@,
            None => forall|k: int| 0 <= k < s@.len() ==> !asset_matches(s@[k], p@, n@),
        },
{
    let mut i: usize = 0;
    while i < s.len()
        invariant
            i <= s@.len(),
            forall|k: int| 0 <= k < i ==> !asset_matches(s@[k], p@, n@),
        decreases s@.len() - i,
    {
        if bytes_eq(&s[i].policy, p) && bytes_eq(&s[i].name, n) {
            return Some(i);
        }
        i = i + 1;
    }
    None
}

/// A fresh copy of `v`, holding the same quantities.
pub fn value_clone(v: &Value) -> (r: Value)
    ensures
        r.lovelace == v.lovelace,
        v.wf() ==> r.wf(),
        forall|p: Seq<u8>, n: Seq<u8>| #[trigger] r.amount_of(p, n) == v.amount_of(p, n),
        r.assets@.len() == v.assets@.len(),
        forall|i: int|
            0 <= i < v.assets@.len() ==> r.assets@[i].policy@ == v.assets@[i].policy@
                && r.assets@[i].name@ == v.assets@[i].name@ && r.assets@[i].amount
                == v.assets@[i].amount,
{
    let mut assets: Vec<Asset> = Vec::new();
    let mut i: usize = 0;
    while i < v.assets.len()
        invariant
            i <= v.assets@.len(),
            assets@.len() == i,
            forall|k: int|
                0 <= k < i ==> assets@[k].policy@ == v.assets@[k].policy@ && assets@[k].name@
                    == v.assets@[k].name@ && assets@[k].amount == v.assets@[k].amount,
        decreases v.assets@.len() - i,
    {
        let a = Asset {
            policy: bytes_clone(&v.assets[i].policy),
            name: bytes_clone(&v.assets[i].name),
            amount: v.assets[i].amount,
        };
        assets.push(a);
        i = i + 1;
    }
    let r = Value { lovelace: v.lovelace, assets };
    proof {
        assert forall|p: Seq<u8>, n: Seq<u8>| #[trigger] r.amount_of(p, n) == v.amount_of(p, n) by {
            lemma_amount_in_congruent(r.assets@, v.assets@, p, n);
        }
        if v.wf() {
            assert forall|i: int, j: int| 0 <= i < j < r.assets@.len() implies !(r.assets@[i].policy@
                == r.assets@[j].policy@ && r.assets@[i].name@ == r.assets@[j].name@) by {
                assert(!(v.assets@[i].policy@ == v.assets@[j].policy@ && v.assets@[i].name@
                    == v.assets@[j].name@));
            }
        }
    }
    r
}

/// The pointwise sum of two values, or `None` when some quantity would
/// exceed the representable range.
pub fn value_add(a: &Value, b: &Value) -> (r: Option<Value>)
    requires
        a.wf(),
        b.wf(),
    ensures
        match r {
            Some(v) => {
                &&& v.wf()
                &&& v.lovelace == a.lovelace + b.lovelace
                &&& forall|p: Seq<u8>, n: Seq<u8>|
                    #[trigger] v.amount_of(p, n) == a.amount_of(p, n) + b.amount_of(p, n)
            },
            None => a.lovelace + b.lovelace > u64::MAX || exists|p: Seq<u8>, n: Seq<u8>|
                #[trigger] a.amount_of(p, n) + b.amount_of(p, n) > u64::MAX,
        },
{
    let lov = match a.lovelace.checked_add(b.lovelace) {
        Some(l) => l,
        None => {
            return None;
        },
    };
    let mut acc = value_clone(a);
    let mut i: usize = 0;
    proof {
        assert(b.assets@.take(0) =~= Seq::<Asset>::empty());
        assert forall|p: Seq<u8>, n: Seq<u8>|
            #[trigger] amount_in(acc.assets@, p, n) == amount_in(a.assets@, p, n) + amount_in(
                b.assets@.take(0),
                p,
                n,
            ) by {
            lemma_amount_in_congruent(acc.assets@, a.assets@, p, n);
        }
    }
    while i < b.assets.len()
        invariant
            a.wf(),
            b.wf(),
            acc.wf(),
            i <= b.assets@.len(),
            forall|p: Seq<u8>, n: Seq<u8>|
                #[trigger] amount_in(acc.assets@, p, n) == amount_in(a.assets@, p, n) + amount_in(
                    b.assets@.take(i as int),
                    p,
                    n,
                ),
        decreases b.assets@.len() - i,
    {
        let ghost cp = b.assets@[i as int].policy@;
        let ghost cn = b.assets@[i as int].name@;
        proof {
            assert forall|k: int| 0 <= k < i implies !asset_matches(b.assets@[k], cp, cn) by {
                assert(!(b.assets@[k].policy@ == b.assets@[i as int].policy@ && b.assets@[k].name@
                    == b.assets@[i as int].name@));
            }
            lemma_amount_in_absent(b.assets@.take(i as int), cp, cn);
            lemma_amount_in_at(b.assets@, i as int, cp, cn);
        }
        let e_amount = b.assets[i].amount;
        match find_asset(&acc.assets, &b.assets[i].policy, &b.assets[i].name) {
            Some(j) => {
                let cur = acc.assets[j].amount;
                proof {
                    lemma_amount_in_at(acc.assets@, j as int, cp, cn);
                }
                match cur.checked_add(e_amount) {
                    Some(sum) => {
                        let e = Asset {
                            policy: bytes_clone(&acc.assets[j].policy),
                            name: bytes_clone(&acc.assets[j].name),
                            amount: sum,
                        };
                        let ghost before = acc.assets@;
                        acc.assets.set(j, e);
                        proof {
                            assert forall|p: Seq<u8>, n: Seq<u8>|
                                #[trigger] amount_in(acc.assets@, p, n) == amount_in(a.assets@, p, n)
                                    + amount_in(b.assets@.take(i as int + 1), p, n) by {
                                assert(amount_in(before, p, n) == amount_in(a.assets@, p, n)
                                    + amount_in(b.assets@.take(i as int), p, n));
                                lemma_amount_in_update(before, j as int, e, p, n);
                                lemma_amount_in_take_step(b.assets@, i as int, p, n);
                            }
                            assert forall|x: int, y: int| 0 <= x < y < acc.assets@.len() implies !(
                            acc.assets@[x].policy@ == acc.assets@[y].policy@ && acc.assets@[x].name@
                                == acc.assets@[y].name@) by {
                                assert(!(before[x].policy@ == before[y].policy@ && before[x].name@
                                    == before[y].name@));
                            }
                        }
                    },
                    None => {
                        proof {
                            assert(amount_in(acc.assets@, cp, cn) == amount_in(a.assets@, cp, cn)
                                + amount_in(b.assets@.take(i as int), cp, cn));
                            assert(a.amount_of(cp, cn) + b.amount_of(cp, cn) > u64::MAX);
                        }
                        return None;
                    },
                }
            },
            None => {
                let e = Asset {
                    policy: bytes_clone(&b.assets[i].policy),
                    name: bytes_clone(&b.assets[i].name),
                    amount: e_amount,
                };
                let ghost before = acc.assets@;
                acc.assets.push(e);
                proof {
                    assert forall|p: Seq<u8>, n: Seq<u8>|
                        #[trigger] amount_in(acc.assets@, p, n) == amount_in(a.assets@, p, n)
                            + amount_in(b.assets@.take(i as int + 1), p, n) by {
                        assert(amount_in(before, p, n) == amount_in(a.assets@, p, n) + amount_in(
                            b.assets@.take(i as int),
                            p,
                            n,
                        ));
                        lemma_amount_in_push(before, e, p, n);
                        lemma_amount_in_take_step(b.assets@, i as int, p, n);
                    }
                    assert forall|x: int, y: int| 0 <= x < y < acc.assets@.len() implies !(
                    acc.assets@[x].policy@ == acc.assets@[y].policy@ && acc.assets@[x].name@
                        == acc.assets@[y].name@) by {
                        if y < before.len() {
                            assert(!(before[x].policy@ == before[y].policy@ && before[x].name@
                                == before[y].name@));
                        } else {
                            assert(!asset_matches(before[x], cp, cn));
                        }
                    }
                }
            },
        }
        i = i + 1;
    }
    proof {
        assert(b.assets@.take(b.assets@.len() as int) =~= b.assets@);
    }
    let v = Value { lovelace: lov, assets: acc.assets };
    proof {
        assert(v.wf());
        assert forall|p: Seq<u8>, n: Seq<u8>|
            #[trigger] v.amount_of(p, n) == a.amount_of(p, n) + b.amount_of(p, n) by {
            assert(amount_in(v.assets@, p, n) == amount_in(a.assets@, p, n) + amount_in(
                b.assets@.take(b.assets@.len() as int),
                p,
                n,
            ));
        }
    }
    Some(v)
}

/// The pointwise difference `a - b`, or `None` when `b` holds more of some
/// asset, or more lovelace, than `a` does.
pub fn value_sub(a: &Value, b: &Value) -> (r: Option<Value>)
    requires
        a.wf(),
        b.wf(),
    ensures
        match r {
            Some(v) => {
                &&& v.wf()
                &&& v.lovelace == a.lovelace - b.lovelace
                &&& forall|p: Seq<u8>, n: Seq<u8>|
                    #[trigger] v.amount_of(p, n) == a.amount_of(p, n) - b.amount_of(p, n)
            },
            None => a.lovelace < b.lovelace || exists|p: Seq<u8>, n: Seq<u8>|
                #[trigger] a.amount_of(p, n) - b.amount_of(p, n) < 0,
        },
{
    let lov = match a.lovelace.checked_sub(b.lovelace) {
        Some(l) => l,
        None => {
            return None;
        },
    };
    let mut acc = value_clone(a);
    let mut i: usize = 0;
    proof {
        assert(b.assets@.take(0) =~= Seq::<Asset>::empty());
        assert forall|p: Seq<u8>, n: Seq<u8>|
            #[trigger] amount_in(acc.assets@, p, n) == amount_in(a.assets@, p, n) - amount_in(
                b.assets@.take(0),
                p,
                n,
            ) by {
            lemma_amount_in_congruent(acc.assets@, a.assets@, p, n);
        }
    }
    while i < b.assets.len()
        invariant
            a.wf(),
            b.wf(),
            acc.wf(),
            i <= b.assets@.len(),
            forall|p: Seq<u8>, n: Seq<u8>|
                #[trigger] amount_in(acc.assets@, p, n) == amount_in(a.assets@, p, n) - amount_in(
                    b.assets@.take(i as int),
                    p,
                    n,
                ),
        decreases b.assets@.len() - i,
    {
        let ghost cp = b.assets@[i as int].policy@;
        let ghost cn = b.assets@[i as int].name@;
        proof {
            assert forall|k: int| 0 <= k < i implies !asset_matches(b.assets@[k], cp, cn) by {
                assert(!(b.assets@[k].policy@ == b.assets@[i as int].policy@ && b.assets@[k].name@
                    == b.assets@[i as int].name@));
            }
            lemma_amount_in_absent(b.assets@.take(i as int), cp, cn);
            lemma_amount_in_at(b.assets@, i as int, cp, cn);
        }
        let e_amount = b.assets[i].amount;
        match find_asset(&acc.assets, &b.assets[i].policy, &b.assets[i].name) {
            Some(j) => {
                let cur = acc.assets[j].amount;
                proof {
                    lemma_amount_in_at(acc.assets@, j as int, cp, cn);
                }
                match cur.checked_sub(e_amount) {
                    Some(diff) => {
                        let e = Asset {
                            policy: bytes_clone(&acc.assets[j].policy),
                            name: bytes_clone(&acc.assets[j].name),
                            amount: diff,
                        };
                        let ghost before = acc.assets@;
                        acc.assets.set(j, e);
                        proof {
                            assert forall|p: Seq<u8>, n: Seq<u8>|
                                #[trigger] amount_in(acc.assets@, p, n) == amount_in(a.assets@, p, n)
                                    - amount_in(b.assets@.take(i as int + 1), p, n) by {
                                assert(amount_in(before, p, n) == amount_in(a.assets@, p, n)
                                    - amount_in(b.assets@.take(i as int), p, n));
                                lemma_amount_in_update(before, j as int, e, p, n);
                                lemma_amount_in_take_step(b.assets@, i as int, p, n);
                            }
                            assert forall|x: int, y: int| 0 <= x < y < acc.assets@.len() implies !(
                            acc.assets@[x].policy@ == acc.assets@[y].policy@ && acc.assets@[x].name@
                                == acc.assets@[y].name@) by {
                                assert(!(before[x].policy@ == before[y].policy@ && before[x].name@
                                    == before[y].name@));
                            }
                        }
                    },
                    None => {
                        proof {
                            assert(amount_in(acc.assets@, cp, cn) == amount_in(a.assets@, cp, cn)
                                - amount_in(b.assets@.take(i as int), cp, cn));
                            assert(a.amount_of(cp, cn) - b.amount_of(cp, cn) < 0);
                        }
                        return None;
                    },
                }
            },
            None => {
                proof {
                    lemma_amount_in_absent(acc.assets@, cp, cn);
                    assert(amount_in(acc.assets@, cp, cn) == amount_in(a.assets@, cp, cn)
                        - amount_in(b.assets@.take(i as int), cp, cn));
                }
                if e_amount > 0 {
                    proof {
                        assert(a.amount_of(cp, cn) - b.amount_of(cp, cn) < 0);
                    }
                    return None;
                }
                proof {
                    assert forall|p: Seq<u8>, n: Seq<u8>|
                        #[trigger] amount_in(acc.assets@, p, n) == amount_in(a.assets@, p, n)
                            - amount_in(b.assets@.take(i as int + 1), p, n) by {
                        lemma_amount_in_take_step(b.assets@, i as int, p, n);
                    }
                }
            },
        }
        i = i + 1;
    }
    proof {
        assert(b.assets@.take(b.assets@.len() as int) =~= b.assets@);
    }
    let v = Value { lovelace: lov, assets: acc.assets };
    proof {
        assert(v.wf());
        assert forall|p: Seq<u8>, n: Seq<u8>|
            #[trigger] v.amount_of(p, n) == a.amount_of(p, n) - b.amount_of(p, n) by {
            assert(amount_in(v.assets@, p, n) == amount_in(a.assets@, p, n) - amount_in(
                b.assets@.take(b.assets@.len() as int),
                p,
                n,
            ));
        }
    }
    Some(v)
}

/// One mint (positive) or burn (negative) instruction for an asset class.
#[derive(Debug, PartialEq, Eq)]
pub struct MintAsset {
    pub policy: Vec<u8>,
    pub name: Vec<u8>,
    pub amount: i64,
}

/// Whether mint entry `a` is for the class of policy `p` and name `n`.
pub open spec fn mint_matches(a: MintAsset, p: Seq<u8>, n: Seq<u8>) -> bool {
    a.policy@ == p && a.name@ == n
}

/// Net minted quantity of the class `(p, n)` over the entries of `s`.
pub open spec fn mint_amount_in(s: Seq<MintAsset>, p: Seq<u8>, n: Seq<u8>) -> int
    decreases s.len(),
{
    if s.len() == 0 {
        0
    } else {
        (if mint_matches(s[0], p, n) {
            s[0].amount as int
        } else {
            0
        }) + mint_amount_in(s.drop_first(), p, n)
    }
}

/// No two mint entries of `s` name the same asset class.
pub open spec fn distinct_mint_classes(s: Seq<MintAsset>) -> bool {
    forall|i: int, j: int|
        0 <= i < j < s.len() ==> !(s[i].policy@ == s[j].policy@ && s[i].name@ == s[j].name@)
}

pub proof fn lemma_mint_amount_in_push(s: Seq<MintAsset>, a: MintAsset, p: Seq<u8>, n: Seq<u8>)
    ensures
        mint_amount_in(s.push(a), p, n) == mint_amount_in(s, p, n) + (if mint_matches(a, p, n) {
            a.amount as int
        } else {
            0
        }),
    decreases s.len(),
{
    let t = s.push(a);
    if s.len() == 0 {
        assert(t[0] == a);
        assert(t.drop_first() =~= Seq::<MintAsset>::empty());
        assert(mint_amount_in(t.drop_first(), p, n) == 0);
    } else {
        assert(t[0] == s[0]);
        assert(t.drop_first() =~= s.drop_first().push(a));
        lemma_mint_amount_in_push(s.drop_first(), a, p, n);
    }
}

pub proof fn lemma_mint_amount_in_take_step(s: Seq<MintAsset>, i: int, p: Seq<u8>, n: Seq<u8>)
    requires
        0 <= i < s.len(),
    ensures
        mint_amount_in(s.take(i + 1), p, n) == mint_amount_in(s.take(i), p, n) + (if mint_matches(
            s[i],
            p,
            n,
        ) {
            s[i].amount as int
        } else {
            0
        }),
{
    assert(s.take(i + 1) =~= s.take(i).push(s[i]));
    lemma_mint_amount_in_push(s.take(i), s[i], p, n);
}

pub proof fn lemma_mint_amount_in_absent(s: Seq<MintAsset>, p: Seq<u8>, n: Seq<u8>)
    requires
        forall|k: int| 0 <= k < s.len() ==> !mint_matches(s[k], p, n),
    ensures
        mint_amount_in(s, p, n) == 0,
    decreases s.len(),
{
    if s.len() > 0 {
        lemma_mint_amount_in_absent(s.drop_first(), p, n);
    }
}

/// With distinct classes, the one mint entry for `(p, n)` is the whole net.
pub proof fn lemma_mint_amount_in_at(s: Seq<MintAsset>, j: int, p: Seq<u8>, n: Seq<u8>)
    requires
        distinct_mint_classes(s),
        0 <= j < s.len(),
        mint_matches(s[j], p, n),
    ensures
        mint_amount_in(s, p, n) == s[j].amount as int,
    decreases s.len(),
{
    if j == 0 {
        assert forall|k: int| 0 <= k < s.drop_first().len() implies !mint_matches(
            s.drop_first()[k],
            p,
            n,
        ) by {
            assert(s.drop_first()[k] == s[k + 1]);
            assert(!(s[0].policy@ == s[k + 1].policy@ && s[0].name@ == s[k + 1].name@));
        }
        lemma_mint_amount_in_absent(s.drop_first(), p, n);
    } else {
        assert(!(s[0].policy@ == s[j].policy@ && s[0].name@ == s[j].name@));
        assert forall|i: int, k: int| 0 <= i < k < s.drop_first().len() implies !(s.drop_first()[i].policy@
            == s.drop_first()[k].policy@ && s.drop_first()[i].name@ == s.drop_first()[k].name@) by {
            assert(s.drop_first()[i] == s[i + 1]);
            assert(s.drop_first()[k] == s[k + 1]);
        }
        assert(s.drop_first()[j - 1] == s[j]);
        lemma_mint_amount_in_at(s.drop_first(), j - 1, p, n);
    }
}

/// Applies a mint to a value: each class gains its net minted quantity.
/// `None` when some resulting quantity would be negative (burning more than
/// is held) or above the representable range.
pub fn apply_mint(v: &Value, m: &Vec<MintAsset>) -> (r: Option<Value>)
    requires
        v.wf(),
        distinct_mint_classes(m@),
    ensures
        match r {
            Some(w) => {
                &&& w.wf()
                &&& w.lovelace == v.lovelace
                &&& forall|p: Seq<u8>, n: Seq<u8>|
                    #[trigger] w.amount_of(p, n) == v.amount_of(p, n) + mint_amount_in(m@, p, n)
            },
            None => exists|p: Seq<u8>, n: Seq<u8>|
                #[trigger] v.amount_of(p, n) + mint_amount_in(m@, p, n) < 0 || v.amount_of(p, n)
                    + mint_amount_in(m@, p, n) > u64::MAX,
        },
{
    let mut acc = value_clone(v);
    let mut i: usize = 0;
    proof {
        assert(m@.take(0) =~= Seq::<MintAsset>::empty());
        assert forall|p: Seq<u8>, n: Seq<u8>|
            #[trigger] amount_in(acc.assets@, p, n) == amount_in(v.assets@, p, n)
                + mint_amount_in(m@.take(0), p, n) by {
            lemma_amount_in_congruent(acc.assets@, v.assets@, p, n);
        }
    }
    while i < m.len()
        invariant
            v.wf(),
            distinct_mint_classes(m@),
            acc.wf(),
            acc.lovelace == v.lovelace,
            i <= m@.len(),
            forall|p: Seq<u8>, n: Seq<u8>|
                #[trigger] amount_in(acc.assets@, p, n) == amount_in(v.assets@, p, n)
                    + mint_amount_in(m@.take(i as int), p, n),
        decreases m@.len() - i,
    {
        let ghost cp = m@[i as int].policy@;
        let ghost cn = m@[i as int].name@;
        proof {
            assert forall|k: int| 0 <= k < i implies !mint_matches(m@[k], cp, cn) by {
                assert(!(m@[k].policy@ == m@[i as int].policy@ && m@[k].name@
                    == m@[i as int].name@));
            }
            lemma_mint_amount_in_absent(m@.take(i as int), cp, cn);
            lemma_mint_amount_in_at(m@, i as int, cp, cn);
        }
        let delta = m[i].amount;
        let found = find_asset(&acc.assets, &m[i].policy, &m[i].name);
        if delta >= 0 {
            let mag = delta as u64;
            match found {
                Some(j) => {
                    let cur = acc.assets[j].amount;
                    proof {
                        lemma_amount_in_at(acc.assets@, j as int, cp, cn);
                    }
                    match cur.checked_add(mag) {
                        Some(sum) => {
                            let e = Asset {
                                policy: bytes_clone(&acc.assets[j].policy),
                                name: bytes_clone(&acc.assets[j].name),
                                amount: sum,
                            };
                            let ghost before = acc.assets@;
                            acc.assets.set(j, e);
                            proof {
                                assert forall|p: Seq<u8>, n: Seq<u8>|
                                    #[trigger] amount_in(acc.assets@, p, n) == amount_in(
                                        v.assets@,
                                        p,
                                        n,
                                    ) + mint_amount_in(m@.take(i as int + 1), p, n) by {
                                    assert(amount_in(before, p, n) == amount_in(v.assets@, p, n)
                                        + mint_amount_in(m@.take(i as int), p, n));
                                    lemma_amount_in_update(before, j as int, e, p, n);
                                    lemma_mint_amount_in_take_step(m@, i as int, p, n);
                                }
                                assert forall|x: int, y: int|
                                    0 <= x < y < acc.assets@.len() implies !(acc.assets@[x].policy@
                                    == acc.assets@[y].policy@ && acc.assets@[x].name@
                                    == acc.assets@[y].name@) by {
                                    assert(!(before[x].policy@ == before[y].policy@
                                        && before[x].name@ == before[y].name@));
                                }
                            }
                        },
                        None => {
                            proof {
                                assert(amount_in(acc.assets@, cp, cn) == amount_in(v.assets@, cp, cn)
                                    + mint_amount_in(m@.take(i as int), cp, cn));
                                assert(v.amount_of(cp, cn) + mint_amount_in(m@, cp, cn)
                                    > u64::MAX);
                            }
                            return None;
                        },
                    }
                },
                None => {
                    let e = Asset {
                        policy: bytes_clone(&m[i].policy),
                        name: bytes_clone(&m[i].name),
                        amount: mag,
                    };
                    let ghost before = acc.assets@;
                    acc.assets.push(e);
                    proof {
                        assert forall|p: Seq<u8>, n: Seq<u8>|
                            #[trigger] amount_in(acc.assets@, p, n) == amount_in(v.assets@, p, n)
                                + mint_amount_in(m@.take(i as int + 1), p, n) by {
                            assert(amount_in(before, p, n) == amount_in(v.assets@, p, n)
                                + mint_amount_in(m@.take(i as int), p, n));
                            lemma_amount_in_push(before, e, p, n);
                            lemma_mint_amount_in_take_step(m@, i as int, p, n);
                        }
                        assert forall|x: int, y: int| 0 <= x < y < acc.assets@.len() implies !(
                        acc.assets@[x].policy@ == acc.assets@[y].policy@ && acc.assets@[x].name@
                            == acc.assets@[y].name@) by {
                            if y < before.len() {
                                assert(!(before[x].policy@ == before[y].policy@ && before[x].name@
                                    == before[y].name@));
                            } else {
                                assert(!asset_matches(before[x], cp, cn));
                            }
                        }
                    }
                },
            }
        } else {
            let mag = ((-1 - delta) as u64) + 1;
            proof {
                assert(mag == -(delta as int));
            }
            match found {
                Some(j) => {
                    let cur = acc.assets[j].amount;
                    proof {
                        lemma_amount_in_at(acc.assets@, j as int, cp, cn);
                    }
                    match cur.checked_sub(mag) {
                        Some(diff) => {
                            let e = Asset {
                                policy: bytes_clone(&acc.assets[j].policy),
                                name: bytes_clone(&acc.assets[j].name),
                                amount: diff,
                            };
                            let ghost before = acc.assets@;
                            acc.assets.set(j, e);
                            proof {
                                assert forall|p: Seq<u8>, n: Seq<u8>|
                                    #[trigger] amount_in(acc.assets@, p, n) == amount_in(
                                        v.assets@,
                                        p,
                                        n,
                                    ) + mint_amount_in(m@.take(i as int + 1), p, n) by {
                                    assert(amount_in(before, p, n) == amount_in(v.assets@, p, n)
                                        + mint_amount_in(m@.take(i as int), p, n));
                                    lemma_amount_in_update(before, j as int, e, p, n);
                                    lemma_mint_amount_in_take_step(m@, i as int, p, n);
                                }
                                assert forall|x: int, y: int|
                                    0 <= x < y < acc.assets@.len() implies !(acc.assets@[x].policy@
                                    == acc.assets@[y].policy@ && acc.assets@[x].name@
                                    == acc.assets@[y].name@) by {
                                    assert(!(before[x].policy@ == before[y].policy@
                                        && before[x].name@ == before[y].name@));
                                }
                            }
                        },
                        None => {
                            proof {
                                assert(amount_in(acc.assets@, cp, cn) == amount_in(v.assets@, cp, cn)
                                    + mint_amount_in(m@.take(i as int), cp, cn));
                                assert(v.amount_of(cp, cn) + mint_amount_in(m@, cp, cn) < 0);
                            }
                            return None;
                        },
                    }
                },
                None => {
                    proof {
                        lemma_amount_in_absent(acc.assets@, cp, cn);
                        assert(amount_in(acc.assets@, cp, cn) == amount_in(v.assets@, cp, cn)
                            + mint_amount_in(m@.take(i as int), cp, cn));
                        assert(v.amount_of(cp, cn) + mint_amount_in(m@, cp, cn) < 0);
                    }
                    return None;
                },
            }
        }
        i = i + 1;
    }
    proof {
        assert(m@.take(m@.len() as int) =~= m@);
    }
    let w = Value { lovelace: acc.lovelace, assets: acc.assets };
    proof {
        assert(w.wf());
        assert forall|p: Seq<u8>, n: Seq<u8>|
            #[trigger] w.amount_of(p, n) == v.amount_of(p, n) + mint_amount_in(m@, p, n) by {
            assert(amount_in(w.assets@, p, n) == amount_in(v.assets@, p, n) + mint_amount_in(
                m@.take(m@.len() as int),
                p,
                n,
            ));
        }
    }
    Some(w)
}

/// Whether `v` holds nothing but the base asset.
pub fn is_only_lovelace(v: &Value) -> (r: bool)
    requires
        v.wf(),
    ensures
        r == (forall|p: Seq<u8>, n: Seq<u8>| #[trigger] v.amount_of(p, n) == 0),
{
    let mut i: usize = 0;
    while i < v.assets.len()
        invariant
            v.wf(),
            i <= v.assets@.len(),
            forall|k: int| 0 <= k < i ==> v.assets@[k].amount == 0,
        decreases v.assets@.len() - i,
    {
        if v.assets[i].amount > 0 {
            proof {
                let cp = v.assets@[i as int].policy@;
                let cn = v.assets@[i as int].name@;
                lemma_amount_in_at(v.assets@, i as int, cp, cn);
                assert(v.amount_of(cp, cn) != 0);
            }
            return false;
        }
        i = i + 1;
    }
    proof {
        assert forall|p: Seq<u8>, n: Seq<u8>| #[trigger] v.amount_of(p, n) == 0 by {
            lemma_amount_in_all_zero(v.assets@, p, n);
        }
    }
    true
}

/// Total lovelace over a sequence of values.
pub open spec fn lovelace_sum(s: Seq<Value>) -> int
    decreases s.len(),
{
    if s.len() == 0 {
        0
    } else {
        s[0].lovelace + lovelace_sum(s.drop_first())
    }
}

/// Total quantity of the class `(p, n)` over a sequence of values.
pub open spec fn assets_sum(s: Seq<Value>, p: Seq<u8>, n: Seq<u8>) -> int
    decreases s.len(),
{
    if s.len() == 0 {
        0
    } else {
        amount_in(s[0].assets@, p, n) + assets_sum(s.drop_first(), p, n)
    }
}

pub proof fn lemma_value_sums_push(s: Seq<Value>, v: Value, p: Seq<u8>, n: Seq<u8>)
    ensures
        lovelace_sum(s.push(v)) == lovelace_sum(s) + v.lovelace,
        assets_sum(s.push(v), p, n) == assets_sum(s, p, n) + amount_in(v.assets@, p, n),
    decreases s.len(),
{
    let t = s.push(v);
    if s.len() == 0 {
        assert(t[0] == v);
        assert(t.drop_first() =~= Seq::<Value>::empty());
        assert(lovelace_sum(t.drop_first()) == 0);
        assert(assets_sum(t.drop_first(), p, n) == 0);
    } else {
        assert(t[0] == s[0]);
        assert(t.drop_first() =~= s.drop_first().push(v));
        lemma_value_sums_push(s.drop_first(), v, p, n);
    }
}

pub proof fn lemma_value_sums_take_step(s: Seq<Value>, i: int, p: Seq<u8>, n: Seq<u8>)
    requires
        0 <= i < s.len(),
    ensures
        lovelace_sum(s.take(i + 1)) == lovelace_sum(s.take(i)) + s[i].lovelace,
        assets_sum(s.take(i + 1), p, n) == assets_sum(s.take(i), p, n) + amount_in(
            s[i].assets@,
            p,
            n,
        ),
{
    assert(s.take(i + 1) =~= s.take(i).push(s[i]));
    lemma_value_sums_push(s.take(i), s[i], p, n);
}

pub proof fn lemma_value_sums_nonneg(s: Seq<Value>, p: Seq<u8>, n: Seq<u8>)
    ensures
        lovelace_sum(s) >= 0,
        assets_sum(s, p, n) >= 0,
    decreases s.len(),
{
    if s.len() > 0 {
        lemma_amount_in_nonneg(s[0].assets@, p, n);
        lemma_value_sums_nonneg(s.drop_first(), p, n);
    }
}

/// A sum over a whole sequence is at least the sum over a prefix.
pub proof fn lemma_value_sums_take_bound(s: Seq<Value>, i: int, p: Seq<u8>, n: Seq<u8>)
    requires
        0 <= i <= s.len(),
    ensures
        lovelace_sum(s.take(i)) <= lovelace_sum(s),
        assets_sum(s.take(i), p, n) <= assets_sum(s, p, n),
    decreases s.len() - i,
{
    if i == s.len() {
        assert(s.take(i) =~= s);
    } else {
        lemma_value_sums_take_step(s, i, p, n);
        lemma_amount_in_nonneg(s[i].assets@, p, n);
        lemma_value_sums_take_bound(s, i + 1, p, n);
    }
}

/// Replacing one element changes the sums by the difference of the
/// element's contributions.
pub proof fn lemma_value_sums_update(s: Seq<Value>, j: int, v: Value, p: Seq<u8>, n: Seq<u8>)
    requires
        0 <= j < s.len(),
    ensures
        lovelace_sum(s.update(j, v)) == lovelace_sum(s) - s[j].lovelace + v.lovelace,
        assets_sum(s.update(j, v), p, n) == assets_sum(s, p, n) - amount_in(s[j].assets@, p, n)
            + amount_in(v.assets@, p, n),
    decreases s.len(),
{
    if j == 0 {
        assert(s.update(0, v)[0] == v);
        assert(s.update(0, v).drop_first() =~= s.drop_first());
    } else {
        assert(s.update(j, v)[0] == s[0]);
        assert(s.update(j, v).drop_first() =~= s.drop_first().update(j - 1, v));
        lemma_value_sums_update(s.drop_first(), j - 1, v, p, n);
    }
}

/// Sums agree on two lists whose elements hold the same quantities.
pub proof fn lemma_value_sums_congruent(s: Seq<Value>, t: Seq<Value>, p: Seq<u8>, n: Seq<u8>)
    requires
        s.len() == t.len(),
        forall|i: int|
            0 <= i < s.len() ==> (#[trigger] s[i]).lovelace == t[i].lovelace && amount_in(
                s[i].assets@,
                p,
                n,
            ) == amount_in(t[i].assets@, p, n),
    ensures
        lovelace_sum(s) == lovelace_sum(t),
        assets_sum(s, p, n) == assets_sum(t, p, n),
    decreases s.len(),
{
    if s.len() > 0 {
        assert(forall|i: int|
            0 <= i < s.drop_first().len() ==> s.drop_first()[i] == s[i + 1] && t.drop_first()[i]
                == t[i + 1]);
        lemma_value_sums_congruent(s.drop_first(), t.drop_first(), p, n);
    }
}

/// The pointwise sum of a list of values, or `None` when some total exceeds
/// the representable range.
pub fn sum_values(vs: &Vec<Value>) -> (r: Option<Value>)
    requires
        forall|k: int| 0 <= k < vs@.len() ==> (#[trigger] vs@[k]).wf(),
    ensures
        match r {
            Some(t) => {
                &&& t.wf()
                &&& t.lovelace == lovelace_sum(vs@)
                &&& forall|p: Seq<u8>, n: Seq<u8>| #[trigger] t.amount_of(p, n) == assets_sum(
                    vs@,
                    p,
                    n,
                )
            },
            None => lovelace_sum(vs@) > u64::MAX || exists|p: Seq<u8>, n: Seq<u8>|
                #[trigger] assets_sum(vs@, p, n) > u64::MAX,
        },
{
    let mut acc = Value::from_lovelace(0);
    let mut i: usize = 0;
    proof {
        assert(vs@.take(0) =~= Seq::<Value>::empty());
        assert forall|p: Seq<u8>, n: Seq<u8>|
            #[trigger] amount_in(acc.assets@, p, n) == assets_sum(vs@.take(0), p, n) by {
            assert(acc.amount_of(p, n) == 0);
        }
    }
    while i < vs.len()
        invariant
            forall|k: int| 0 <= k < vs@.len() ==> (#[trigger] vs@[k]).wf(),
            acc.wf(),
            i <= vs@.len(),
            acc.lovelace == lovelace_sum(vs@.take(i as int)),
            forall|p: Seq<u8>, n: Seq<u8>|
                #[trigger] amount_in(acc.assets@, p, n) == assets_sum(vs@.take(i as int), p, n),
        decreases vs@.len() - i,
    {
        let added = value_add(&acc, &vs[i]);
        match added {
            Some(t) => {
                proof {
                    assert forall|p: Seq<u8>, n: Seq<u8>|
                        #[trigger] amount_in(t.assets@, p, n) == assets_sum(
                            vs@.take(i as int + 1),
                            p,
                            n,
                        ) by {
                        assert(t.amount_of(p, n) == acc.amount_of(p, n) + vs@[i as int].amount_of(
                            p,
                            n,
                        ));
                        lemma_value_sums_take_step(vs@, i as int, p, n);
                    }
                    lemma_value_sums_take_step(vs@, i as int, Seq::<u8>::empty(), Seq::<u8>::empty());
                }
                acc = t;
            },
            None => {
                proof {
                    if acc.lovelace + vs@[i as int].lovelace > u64::MAX {
                        lemma_value_sums_take_step(
                            vs@,
                            i as int,
                            Seq::<u8>::empty(),
                            Seq::<u8>::empty(),
                        );
                        lemma_value_sums_take_bound(
                            vs@,
                            i as int + 1,
                            Seq::<u8>::empty(),
                            Seq::<u8>::empty(),
                        );
                        assert(lovelace_sum(vs@) > u64::MAX);
                    } else {
                        let (cp, cn): (Seq<u8>, Seq<u8>) = choose|p: Seq<u8>, n: Seq<u8>|
                            #[trigger] acc.amount_of(p, n) + vs@[i as int].amount_of(p, n)
                                > u64::MAX;
                        lemma_value_sums_take_step(vs@, i as int, cp, cn);
                        lemma_value_sums_take_bound(vs@, i as int + 1, cp, cn);
                        assert(assets_sum(vs@, cp, cn) > u64::MAX);
                    }
                }
                return None;
            },
        }
        i = i + 1;
    }
    proof {
        assert(vs@.take(vs@.len() as int) =~= vs@);
        assert forall|p: Seq<u8>, n: Seq<u8>| #[trigger] acc.amount_of(p, n) == assets_sum(
            vs@,
            p,
            n,
        ) by {
            assert(amount_in(acc.assets@, p, n) == assets_sum(vs@.take(vs@.len() as int), p, n));
        }
    }
    Some(acc)
}

} // verus!
