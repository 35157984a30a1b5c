use vstd::prelude::*;

use crate::address::Address;

verus! {

/// The authority record: created once, never changed afterwards.
#[derive(Clone, Copy, Debug, PartialEq, Eq, Structural)]
pub struct SignerAccount {
    pub is_initialized: bool,
    pub is_signer: bool,
    pub bump: u8,
}

/// A token account: `amount` units of `mint`, movable only by `owner`.
/// The pool of an asset is the account of that asset owned by the authority.
#[derive(Clone, Copy, Debug)]
pub struct TokenHolding {
    pub owner: Address,
    pub mint: Address,
    pub amount: u64,
}

/// The locked balance of one depositor for one asset under one authority.
#[derive(Clone, Copy, Debug)]
pub struct LockedTokenAccount {
    pub user: Address,
    pub authority: Address,
    pub token_mint: Address,
    pub amount: u64,
}

impl TokenHolding {
    pub open spec fn is_for(self, owner: Seq<u8>, mint: Seq<u8>) -> bool {
        self.owner@ == owner && self.mint@ == mint
    }

    /// The same account with another balance.
    pub open spec fn with_amount(self, amount: u64) -> TokenHolding {
        TokenHolding { owner: self.owner, mint: self.mint, amount }
    }
}

impl LockedTokenAccount {
    pub open spec fn is_for(self, user: Seq<u8>, authority: Seq<u8>, mint: Seq<u8>) -> bool {
        self.user@ == user && self.authority@ == authority && self.token_mint@ == mint
    }

    /// Whether this record draws on the pool of `mint` held by `authority`.
    pub open spec fn draws_on(self, authority: Seq<u8>, mint: Seq<u8>) -> bool {
        self.authority@ == authority && self.token_mint@ == mint
    }

    pub open spec fn with_amount(self, amount: u64) -> LockedTokenAccount {
        LockedTokenAccount {
            user: self.user,
            authority: self.authority,
            token_mint: self.token_mint,
            amount,
        }
    }
}

/// Sum of the locked amounts of the records that draw on the pool of `mint`
/// held by `authority`.
pub open spec fn locked_total(s: Seq<LockedTokenAccount>, authority: Seq<u8>, mint: Seq<u8>) -> nat
    decreases s.len(),
{
    if s.len() == 0 {
        0
    } else {
        let last = s.last();
        locked_total(s.drop_last(), authority, mint) + if last.draws_on(authority, mint) {
            last.amount as nat
        } else {
            0
        }
    }
}

/// Appending a record adds its amount to the total of its own pool only.
pub proof fn lemma_total_push(
    s: Seq<LockedTokenAccount>,
    x: LockedTokenAccount,
    authority: Seq<u8>,
    mint: Seq<u8>,
)
    ensures
        locked_total(s.push(x), authority, mint) == locked_total(s, authority, mint) + if x.draws_on(
            authority,
            mint,
        ) {
            x.amount as nat
        } else {
            0
        },
{
    assert(s.push(x).drop_last() =~= s);
}

/// Replacing the amount of one record changes the total of its pool by the
/// difference, and no other total.
pub proof fn lemma_total_update(
    s: Seq<LockedTokenAccount>,
    i: int,
    amount: u64,
    authority: Seq<u8>,
    mint: Seq<u8>,
)
    requires
        0 <= i < s.len(),
    ensures
        s[i].draws_on(authority, mint) ==> locked_total(s.update(i, s[i].with_amount(amount)), authority, mint)
            + s[i].amount == locked_total(s, authority, mint) + amount,
        !s[i].draws_on(authority, mint) ==> locked_total(
            s.update(i, s[i].with_amount(amount)),
            authority,
            mint,
        ) == locked_total(s, authority, mint),
    decreases s.len(),
{
    let t = s.update(i, s[i].with_amount(amount));
    if i == s.len() - 1 {
        assert(t.drop_last() =~= s.drop_last());
    } else {
        lemma_total_update(s.drop_last(), i, amount, authority, mint);
        assert(t.drop_last() =~= s.drop_last().update(i, s[i].with_amount(amount)));
    }
}

/// A total with no record drawing on the pool is zero.
pub proof fn lemma_total_none(s: Seq<LockedTokenAccount>, authority: Seq<u8>, mint: Seq<u8>)
    requires
        forall|k: int| 0 <= k < s.len() ==> !s[k].draws_on(authority, mint),
    ensures
        locked_total(s, authority, mint) == 0,
    decreases s.len(),
{
    if s.len() > 0 {
        lemma_total_none(s.drop_last(), authority, mint);
    }
}

/// Each record's amount is part of its pool's total.
pub proof fn lemma_total_bounds_record(
    s: Seq<LockedTokenAccount>,
    i: int,
    authority: Seq<u8>,
    mint: Seq<u8>,
)
    requires
        0 <= i < s.len(),
        s[i].draws_on(authority, mint),
    ensures
        s[i].amount <= locked_total(s, authority, mint),
    decreases s.len(),
{
    if i < s.len() - 1 {
        lemma_total_bounds_record(s.drop_last(), i, authority, mint);
    }
}

} // verus!
