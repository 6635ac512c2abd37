//! Laws of the ledger's bookkeeping, stated over the record model and
//! proved once for every record, asset and amount.

use vstd::prelude::*;

use crate::deposit::DepositView;

verus! {

/// Conservation: crediting an asset by `a` and then debiting the same
/// asset by `a` returns the recorded balance of every asset — and the rest
/// of the record — to its prior value. Any `a` whose credit fits the
/// balance can be debited right back.
pub proof fn lemma_credit_then_debit(v: DepositView, x: Seq<char>, a: u128)
    requires
        v.token_bal(x) + a <= u128::MAX,
    ensures
        v.credit(x, a).can_debit(x, a),
        forall|t: Seq<char>| v.credit(x, a).debit(x, a).token_bal(t) == v.token_bal(t),
        v.credit(x, a).debit(x, a).near == v.near,
        v.credit(x, a).debit(x, a).storage_used == v.storage_used,
{
    let w = v.credit(x, a).debit(x, a);
    assert forall|t: Seq<char>| w.token_bal(t) == v.token_bal(t) by {
        if t == x {
        }
    }
}

/// Deposit accumulation: two credits of the same asset land as their sum,
/// in either order, so separate credit notifications accumulate regardless
/// of the order in which they arrive.
pub proof fn lemma_credit_commutes(v: DepositView, x: Seq<char>, a: u128, b: u128)
    requires
        v.token_bal(x) + a + b <= u128::MAX,
    ensures
        v.credit(x, a).credit(x, b) == v.credit(x, b).credit(x, a),
        v.credit(x, a).credit(x, b).token_bal(x) == v.token_bal(x) + a + b,
{
    assert(v.credit(x, a).credit(x, b).tokens =~= v.credit(x, b).credit(x, a).tokens);
    assert(v.credit(x, a).credit(x, b) =~= v.credit(x, b).credit(x, a));
}

/// Solvency invariant over the whole store: every committed operation
/// rewrites exactly the caller's record, leaving a map with one key
/// replaced. If every record was solvent and the rewritten one is, every
/// record stays solvent — so, with the solvency clauses of the pipelines,
/// the invariant carries through any sequence of committed operations.
pub proof fn lemma_store_solvency_preserved(
    pre: Map<Seq<char>, DepositView>,
    post: Map<Seq<char>, DepositView>,
    account: Seq<char>,
    v: DepositView,
    storage_price: u128,
)
    requires
        post == pre.insert(account, v),
        v.solvent(storage_price),
        forall|k: Seq<char>| pre.contains_key(k) ==> (#[trigger] pre[k]).solvent(storage_price),
    ensures
        forall|k: Seq<char>| post.contains_key(k) ==> (#[trigger] post[k]).solvent(storage_price),
{
    assert forall|k: Seq<char>|
        post.contains_key(k) implies (#[trigger] post[k]).solvent(storage_price) by {
        if k != account {
            assert(post[k] == pre[k]);
        }
    }
}

/// Solvency monotonicity: a committed step that does not lower the native
/// balance nor grow the storage counter keeps a solvent record solvent.
/// Deposits and asset operations are such steps, so together with the
/// solvency clauses of the withdrawal pipelines, every committed operation
/// preserves the storage-solvency invariant.
pub proof fn lemma_solvency_monotone(pre: DepositView, post: DepositView, storage_price: u128)
    requires
        pre.solvent(storage_price),
        post.near >= pre.near,
        post.storage_used == pre.storage_used,
    ensures
        post.solvent(storage_price),
{
}

} // verus!
