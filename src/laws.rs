use vstd::prelude::*;

use crate::custody::{Custody, MyError};
use crate::records::locked_total;

verus! {

/// Keeping every account's and every record's key, in place, keeps where each
/// key is found.
pub proof fn lemma_indices_kept(pre: Custody, post: Custody)
    requires
        pre.holdings_unique(),
        pre.records_unique(),
        post.holdings@.len() == pre.holdings@.len(),
        post.locked@.len() == pre.locked@.len(),
        forall|i: int|
            0 <= i < pre.holdings@.len() ==> (#[trigger] post.holdings@[i]).owner == pre.holdings@[i].owner
                && post.holdings@[i].mint == pre.holdings@[i].mint,
        forall|k: int|
            0 <= k < pre.locked@.len() ==> (#[trigger] post.locked@[k]).user == pre.locked@[k].user
                && post.locked@[k].authority == pre.locked@[k].authority
                && post.locked@[k].token_mint == pre.locked@[k].token_mint,
    ensures
        post.holdings_unique(),
        post.records_unique(),
        forall|o: Seq<u8>, m: Seq<u8>|
            #[trigger] pre.has_holding(o, m) ==> post.has_holding(o, m) && post.holding_index(o, m)
                == pre.holding_index(o, m),
        forall|u: Seq<u8>, a: Seq<u8>, m: Seq<u8>|
            #[trigger] pre.has_record(u, a, m) ==> post.has_record(u, a, m) && post.record_index(
                u,
                a,
                m,
            ) == pre.record_index(u, a, m),
{
    assert forall|i: int, j: int|
        0 <= i < post.holdings@.len() && 0 <= j < post.holdings@.len()
            && #[trigger] post.holdings@[i].is_for(
            post.holdings@[j].owner@,
            post.holdings@[j].mint@,
        ) implies i == j by {
        assert(pre.holdings@[i].is_for(pre.holdings@[j].owner@, pre.holdings@[j].mint@));
    }
    assert forall|k: int, l: int|
        0 <= k < post.locked@.len() && 0 <= l < post.locked@.len()
            && #[trigger] post.locked@[k].is_for(
            post.locked@[l].user@,
            post.locked@[l].authority@,
            post.locked@[l].token_mint@,
        ) implies k == l by {
        assert(pre.locked@[k].is_for(
            pre.locked@[l].user@,
            pre.locked@[l].authority@,
            pre.locked@[l].token_mint@,
        ));
    }
    assert forall|o: Seq<u8>, m: Seq<u8>| #[trigger] pre.has_holding(o, m) implies post.has_holding(
        o,
        m,
    ) && post.holding_index(o, m) == pre.holding_index(o, m) by {
        let i = pre.holding_index(o, m);
        assert(post.holdings@[i].is_for(o, m));
        let j = post.holding_index(o, m);
        assert(post.holdings@[j].is_for(post.holdings@[i].owner@, post.holdings@[i].mint@));
    }
    assert forall|u: Seq<u8>, a: Seq<u8>, m: Seq<u8>| #[trigger]
        pre.has_record(u, a, m) implies post.has_record(u, a, m) && post.record_index(u, a, m)
        == pre.record_index(u, a, m) by {
        let k = pre.record_index(u, a, m);
        assert(post.locked@[k].is_for(u, a, m));
        let l = post.record_index(u, a, m);
        assert(post.locked@[l].is_for(
            post.locked@[k].user@,
            post.locked@[k].authority@,
            post.locked@[k].token_mint@,
        ));
    }
}

/// A deposit of `amount` adds exactly `amount` to the depositor's locked
/// balance and to the pool, and takes it from the depositor's account.
pub proof fn lemma_deposit_adds(
    pre: Custody,
    post: Custody,
    user: Seq<u8>,
    mint: Seq<u8>,
    amount: u64,
)
    requires
        pre.wf(),
        pre.stake_error(user, mint, amount) is None,
        pre.deposited(post, user, mint, amount),
    ensures
        post.locked_of(user, mint) == pre.locked_of(user, mint) + amount,
        post.balance_of(pre.authority()->0, mint) == pre.balance_of(pre.authority()->0, mint)
            + amount,
        post.balance_of(user, mint) + amount == pre.balance_of(user, mint),
{
    let d = pre.authority()->0;
    let li = pre.record_index(user, d, mint);
    assert(pre.locked@[li].user@ != d);
    let pi = pre.holding_index(d, mint);
    crate::records::lemma_total_bounds_record(pre.locked@, li, d, mint);
    assert(locked_total(pre.locked@, pre.holdings@[pi].owner@, pre.holdings@[pi].mint@)
        <= pre.holdings@[pi].amount);
    lemma_indices_kept(pre, post);
}

/// A withdrawal within the locked balance succeeds, unless the depositor's
/// account cannot take the amount without overflow, and takes exactly
/// `amount` off the locked balance and off the pool.
pub proof fn lemma_withdraw_within_balance(
    pre: Custody,
    post: Custody,
    user: Seq<u8>,
    mint: Seq<u8>,
    amount: u64,
)
    requires
        pre.wf(),
        pre.authority() is Some,
        pre.has_record(user, pre.authority()->0, mint),
        amount <= pre.locked_of(user, mint),
        pre.balance_of(user, mint) + amount <= u64::MAX,
    ensures
        pre.unstake_error(user, mint, amount) is None,
        pre.withdrawn(post, user, mint, amount) ==> {
            &&& post.locked_of(user, mint) + amount == pre.locked_of(user, mint)
            &&& post.balance_of(pre.authority()->0, mint) + amount == pre.balance_of(
                pre.authority()->0,
                mint,
            )
            &&& post.balance_of(user, mint) == pre.balance_of(user, mint) + amount
        },
{
    let d = pre.authority()->0;
    let li = pre.record_index(user, d, mint);
    let rec = pre.locked@[li];
    assert(rec.authority@ == d && rec.user@ != d);
    assert(pre.has_holding(d, mint));
    let pi = pre.holding_index(d, mint);
    crate::records::lemma_total_bounds_record(pre.locked@, li, d, mint);
    assert(locked_total(pre.locked@, pre.holdings@[pi].owner@, pre.holdings@[pi].mint@)
        <= pre.holdings@[pi].amount);
    if pre.withdrawn(post, user, mint, amount) {
        lemma_indices_kept(pre, post);
    }
}

/// A withdrawal beyond the locked balance is refused as too large.
pub proof fn lemma_withdraw_too_large(c: Custody, user: Seq<u8>, mint: Seq<u8>, amount: u64)
    requires
        c.wf(),
        c.authority() is Some,
        c.has_record(user, c.authority()->0, mint),
        amount > c.locked_of(user, mint),
    ensures
        c.unstake_error(user, mint, amount) == Some(MyError::AmountTooLarge),
{
}

/// Depositing `amount` and then withdrawing it succeeds and gives back the
/// state from before the deposit: every record and every account balance.
pub proof fn lemma_deposit_withdraw_round_trip(
    c0: Custody,
    c1: Custody,
    c2: Custody,
    user: Seq<u8>,
    mint: Seq<u8>,
    amount: u64,
)
    requires
        c0.wf(),
        c0.stake_error(user, mint, amount) is None,
        c0.deposited(c1, user, mint, amount),
        c1.withdrawn(c2, user, mint, amount),
    ensures
        c1.unstake_error(user, mint, amount) is None,
        c2.locked@ == c0.locked@,
        c2.holdings@ == c0.holdings@,
        c2.program_id == c0.program_id,
        c2.signer == c0.signer,
{
    let d = c0.authority()->0;
    let li = c0.record_index(user, d, mint);
    assert(c0.locked@[li].user@ != d);
    lemma_indices_kept(c0, c1);
    assert(c1.authority() == c0.authority());
    lemma_deposit_adds(c0, c1, user, mint, amount);
    assert(c2.locked@ =~= c0.locked@);
    assert(c2.holdings@ =~= c0.holdings@);
}

/// Once the authority exists, creating it again is refused, whatever the nonce;
/// once the pool of an asset exists, creating it again is refused.
pub proof fn lemma_second_initialization_refused(c: Custody, bump: u8, mint: Seq<u8>)
    requires
        c.wf(),
    ensures
        c.signer is Some ==> c.signer_error(bump) == Some(MyError::AlreadyInitialized),
        c.authority() is Some && c.has_holding(c.authority()->0, mint) ==> c.pool_error(mint)
            == Some(MyError::AlreadyInitialized),
{
}

/// In a well-formed state every account, each pool in particular, holds at
/// least the sum of the locked balances drawing on it.
pub proof fn lemma_pool_covers_records(c: Custody, i: int)
    requires
        c.wf(),
        0 <= i < c.holdings@.len(),
    ensures
        locked_total(c.locked@, c.holdings@[i].owner@, c.holdings@[i].mint@)
            <= c.holdings@[i].amount,
{
}

} // verus!
