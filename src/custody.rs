use vstd::prelude::*;

use crate::address::{derive_signer, address_opt_view, signer_address, Address};
use crate::records::{
    lemma_total_bounds_record, lemma_total_none, lemma_total_push, lemma_total_update,
    locked_total, LockedTokenAccount, SignerAccount, TokenHolding,
};

verus! {

/// Why an instruction was refused. A refused instruction changes nothing.
#[derive(Clone, Copy, Debug, PartialEq, Eq, Structural)]
pub enum MyError {
    /// A withdrawal asked for more than the depositor's locked balance.
    AmountTooLarge,
    /// The record or account to be created exists already.
    AlreadyInitialized,
    /// The authority record has not been created yet.
    AuthorityNotInitialized,
    /// The depositor has no locked-balance record for this asset.
    AccountNotInitialized,
    /// The depositor's account or the pool for the asset is missing.
    AssetMismatch,
    /// The token movement was refused (balance too small, or overflow).
    TransferFailed,
    /// The nonce yields no valid program identity.
    InvalidNonce,
    /// The depositor is the pool's own authority, which cannot sign for itself.
    InvalidDepositor,
}

/// The accounts of the authority's creation.
#[derive(Clone, Copy, Debug)]
pub struct InitializeProgramSigner {
    /// Pays for the new record's storage; plays no part in the ledger.
    pub payer: Address,
}

/// The accounts of a pool's creation.
#[derive(Clone, Copy, Debug)]
pub struct InitializeProgramAssociatedTokenAccount {
    /// Pays for the new account's storage; plays no part in the ledger.
    pub payer: Address,
    pub token_mint: Address,
}

/// The accounts of a locked-balance record's creation.
#[derive(Clone, Copy, Debug)]
pub struct InitializeLockedTokenAccount {
    pub user: Address,
    pub token_mint: Address,
}

/// The accounts of a deposit.
#[derive(Clone, Copy, Debug)]
pub struct StakeToken {
    pub user: Address,
    pub token_mint: Address,
}

/// The accounts of a withdrawal.
#[derive(Clone, Copy, Debug)]
pub struct UnstakeToken {
    pub user: Address,
    pub token_mint: Address,
}

/// All state of the custody program: its own identity, the authority record,
/// the token accounts it sees (one per owner and asset), and the
/// locked-balance records (one per depositor, authority and asset).
pub struct Custody {
    pub program_id: Address,
    pub signer: Option<SignerAccount>,
    pub holdings: Vec<TokenHolding>,
    pub locked: Vec<LockedTokenAccount>,
}

impl Custody {
    /// The authority's identity, recomputed from the stored nonce.
    pub open spec fn authority(self) -> Option<Seq<u8>> {
        match self.signer {
            Some(s) => signer_address(self.program_id@, s.bump),
            None => None,
        }
    }

    pub open spec fn has_holding(self, owner: Seq<u8>, mint: Seq<u8>) -> bool {
        exists|i: int| 0 <= i < self.holdings@.len() && #[trigger] self.holdings@[i].is_for(owner, mint)
    }

    pub open spec fn holding_index(self, owner: Seq<u8>, mint: Seq<u8>) -> int {
        choose|i: int| 0 <= i < self.holdings@.len() && #[trigger] self.holdings@[i].is_for(owner, mint)
    }

    pub open spec fn has_record(self, user: Seq<u8>, authority: Seq<u8>, mint: Seq<u8>) -> bool {
        exists|k: int|
            0 <= k < self.locked@.len() && #[trigger] self.locked@[k].is_for(user, authority, mint)
    }

    pub open spec fn record_index(self, user: Seq<u8>, authority: Seq<u8>, mint: Seq<u8>) -> int {
        choose|k: int|
            0 <= k < self.locked@.len() && #[trigger] self.locked@[k].is_for(user, authority, mint)
    }

    /// The depositor's locked balance for `mint` (zero where there is no record).
    pub open spec fn locked_of(self, user: Seq<u8>, mint: Seq<u8>) -> nat {
        match self.authority() {
            Some(d) => if self.has_record(user, d, mint) {
                self.locked@[self.record_index(user, d, mint)].amount as nat
            } else {
                0
            },
            None => 0,
        }
    }

    /// The balance of the account of `owner` for `mint` (zero where there is none).
    pub open spec fn balance_of(self, owner: Seq<u8>, mint: Seq<u8>) -> nat {
        if self.has_holding(owner, mint) {
            self.holdings@[self.holding_index(owner, mint)].amount as nat
        } else {
            0
        }
    }

    pub open spec fn holdings_unique(self) -> bool {
        forall|i: int, j: int|
            0 <= i < self.holdings@.len() && 0 <= j < self.holdings@.len()
                && #[trigger] self.holdings@[i].is_for(
                self.holdings@[j].owner@,
                self.holdings@[j].mint@,
            ) ==> i == j
    }

    pub open spec fn records_unique(self) -> bool {
        forall|k: int, l: int|
            0 <= k < self.locked@.len() && 0 <= l < self.locked@.len()
                && #[trigger] self.locked@[k].is_for(
                self.locked@[l].user@,
                self.locked@[l].authority@,
                self.locked@[l].token_mint@,
            ) ==> k == l
    }

    /// Every record belongs to the authority, never names the authority as its
    /// depositor, and refers to existing accounts of its asset.
    pub open spec fn records_anchored(self) -> bool {
        match self.authority() {
            None => self.locked@.len() == 0,
            Some(d) => forall|k: int|
                0 <= k < self.locked@.len() ==> {
                    let rec = #[trigger] self.locked@[k];
                    &&& rec.authority@ == d
                    &&& rec.user@ != d
                    &&& self.has_holding(d, rec.token_mint@)
                    &&& self.has_holding(rec.user@, rec.token_mint@)
                },
        }
    }

    /// Each account holds at least the sum of the records drawing on it.
    pub open spec fn pools_cover_records(self) -> bool {
        forall|i: int|
            0 <= i < self.holdings@.len() ==> locked_total(
                self.locked@,
                #[trigger] self.holdings@[i].owner@,
                self.holdings@[i].mint@,
            ) <= self.holdings@[i].amount
    }

    /// The refusal, if any, of opening an account of `owner` for `mint`.
    pub open spec fn open_error(self, owner: Seq<u8>, mint: Seq<u8>) -> Option<MyError> {
        if self.has_holding(owner, mint) {
            Some(MyError::AlreadyInitialized)
        } else {
            None
        }
    }

    /// The refusal, if any, of creating the authority with `bump`.
    pub open spec fn signer_error(self, bump: u8) -> Option<MyError> {
        if self.signer is Some {
            Some(MyError::AlreadyInitialized)
        } else if signer_address(self.program_id@, bump) is None {
            Some(MyError::InvalidNonce)
        } else {
            None
        }
    }

    /// The refusal, if any, of creating the pool of `mint`.
    pub open spec fn pool_error(self, mint: Seq<u8>) -> Option<MyError> {
        match self.authority() {
            None => Some(MyError::AuthorityNotInitialized),
            Some(d) => if self.has_holding(d, mint) {
                Some(MyError::AlreadyInitialized)
            } else {
                None
            },
        }
    }

    /// The refusal, if any, of creating the record of `user` for `mint`.
    pub open spec fn record_error(self, user: Seq<u8>, mint: Seq<u8>) -> Option<MyError> {
        match self.authority() {
            None => Some(MyError::AuthorityNotInitialized),
            Some(d) => if self.has_record(user, d, mint) {
                Some(MyError::AlreadyInitialized)
            } else if user == d {
                Some(MyError::InvalidDepositor)
            } else if !self.has_holding(user, mint) || !self.has_holding(d, mint) {
                Some(MyError::AssetMismatch)
            } else {
                None
            },
        }
    }

    /// The refusal, if any, of a deposit of `amount` by `user` in `mint`.
    pub open spec fn stake_error(self, user: Seq<u8>, mint: Seq<u8>, amount: u64) -> Option<MyError> {
        match self.authority() {
            None => Some(MyError::AuthorityNotInitialized),
            Some(d) => if !self.has_record(user, d, mint) {
                Some(MyError::AccountNotInitialized)
            } else if !self.has_holding(user, mint) || !self.has_holding(d, mint) {
                Some(MyError::AssetMismatch)
            } else if amount > self.balance_of(user, mint) || self.balance_of(d, mint) + amount
                > u64::MAX {
                Some(MyError::TransferFailed)
            } else {
                None
            },
        }
    }

    /// The refusal, if any, of a withdrawal of `amount` by `user` in `mint`.
    pub open spec fn unstake_error(self, user: Seq<u8>, mint: Seq<u8>, amount: u64) -> Option<
        MyError,
    > {
        match self.authority() {
            None => Some(MyError::AuthorityNotInitialized),
            Some(d) => if !self.has_record(user, d, mint) {
                Some(MyError::AccountNotInitialized)
            } else if amount > self.locked_of(user, mint) {
                Some(MyError::AmountTooLarge)
            } else if !self.has_holding(user, mint) || !self.has_holding(d, mint) {
                Some(MyError::AssetMismatch)
            } else if amount > self.balance_of(d, mint) || self.balance_of(user, mint) + amount
                > u64::MAX {
                Some(MyError::TransferFailed)
            } else {
                None
            },
        }
    }

    /// `new` is `self` after `amount` moved from `user`'s account to the pool
    /// and onto `user`'s record.
    pub open spec fn deposited(self, new: Custody, user: Seq<u8>, mint: Seq<u8>, amount: u64) -> bool {
        let d = self.authority()->0;
        let ui = self.holding_index(user, mint);
        let pi = self.holding_index(d, mint);
        let li = self.record_index(user, d, mint);
        &&& new.program_id == self.program_id
        &&& new.signer == self.signer
        &&& new.holdings@ == self.holdings@.update(
            ui,
            self.holdings@[ui].with_amount((self.holdings@[ui].amount - amount) as u64),
        ).update(pi, self.holdings@[pi].with_amount((self.holdings@[pi].amount + amount) as u64))
        &&& new.locked@ == self.locked@.update(
            li,
            self.locked@[li].with_amount((self.locked@[li].amount + amount) as u64),
        )
    }

    /// `new` is `self` after `amount` moved from the pool back to `user`'s
    /// account and off `user`'s record.
    pub open spec fn withdrawn(self, new: Custody, user: Seq<u8>, mint: Seq<u8>, amount: u64) -> bool {
        let d = self.authority()->0;
        let ui = self.holding_index(user, mint);
        let pi = self.holding_index(d, mint);
        let li = self.record_index(user, d, mint);
        &&& new.program_id == self.program_id
        &&& new.signer == self.signer
        &&& new.holdings@ == self.holdings@.update(
            pi,
            self.holdings@[pi].with_amount((self.holdings@[pi].amount - amount) as u64),
        ).update(ui, self.holdings@[ui].with_amount((self.holdings@[ui].amount + amount) as u64))
        &&& new.locked@ == self.locked@.update(
            li,
            self.locked@[li].with_amount((self.locked@[li].amount - amount) as u64),
        )
    }

    pub open spec fn wf(self) -> bool {
        &&& self.holdings_unique()
        &&& self.records_unique()
        &&& (self.signer matches Some(s) ==> s.is_initialized && s.is_signer && self.authority() is Some)
        &&& self.records_anchored()
        &&& self.pools_cover_records()
    }
}

impl Custody {
    /// A program with no authority, no accounts and no records.
    pub fn new(program_id: Address) -> (r: Custody)
        ensures
            r.wf(),
            r.program_id@ == program_id@,
            r.signer is None,
            r.holdings@.len() == 0,
            r.locked@.len() == 0,
    {
        Custody { program_id, signer: None, holdings: Vec::new(), locked: Vec::new() }
    }

    /// Index of the account of `owner` for `mint`.
    pub fn find_holding(&self, owner: &Address, mint: &Address) -> (r: Option<usize>)
        requires
            self.holdings_unique(),
        ensures
            r is None <==> !self.has_holding(owner@, mint@),
            r matches Some(i) ==> i == self.holding_index(owner@, mint@),
    {
        let mut i: usize = 0;
        while i < self.holdings.len()
            invariant
                0 <= i <= self.holdings@.len(),
                self.holdings_unique(),
                forall|j: int| 0 <= j < i ==> !(#[trigger] self.holdings@[j]).is_for(owner@, mint@),
            decreases self.holdings@.len() - i,
        {
            let h = &self.holdings[i];
            if h.owner.same(owner) && h.mint.same(mint) {
                assert(self.holdings@[i as int].is_for(owner@, mint@));
                proof {
                    assert(self.has_holding(owner@, mint@));
                    let c = self.holding_index(owner@, mint@);
                    assert(self.holdings@[c].is_for(
                        self.holdings@[i as int].owner@,
                        self.holdings@[i as int].mint@,
                    ));
                }
                return Some(i);
            }
            i = i + 1;
        }
        None
    }

    /// Index of the record of `user` under `authority` for `mint`.
    pub fn find_record(&self, user: &Address, authority: &Address, mint: &Address) -> (r: Option<
        usize,
    >)
        requires
            self.records_unique(),
        ensures
            r is None <==> !self.has_record(user@, authority@, mint@),
            r matches Some(k) ==> k == self.record_index(user@, authority@, mint@),
    {
        let mut k: usize = 0;
        while k < self.locked.len()
            invariant
                0 <= k <= self.locked@.len(),
                self.records_unique(),
                forall|j: int|
                    0 <= j < k ==> !(#[trigger] self.locked@[j]).is_for(user@, authority@, mint@),
            decreases self.locked@.len() - k,
        {
            let rec = &self.locked[k];
            if rec.user.same(user) && rec.authority.same(authority) && rec.token_mint.same(mint) {
                assert(self.locked@[k as int].is_for(user@, authority@, mint@));
                proof {
                    assert(self.has_record(user@, authority@, mint@));
                    let c = self.record_index(user@, authority@, mint@);
                    assert(self.locked@[c].is_for(
                        self.locked@[k as int].user@,
                        self.locked@[k as int].authority@,
                        self.locked@[k as int].token_mint@,
                    ));
                }
                return Some(k);
            }
            k = k + 1;
        }
        None
    }

    /// The authority's identity, recomputed from the stored nonce.
    pub fn current_authority(&self) -> (r: Option<Address>)
        ensures
            address_opt_view(r) == self.authority(),
    {
        match self.signer {
            Some(s) => derive_signer(&self.program_id, s.bump),
            None => None,
        }
    }

    fn push_holding(&mut self, owner: Address, mint: Address, amount: u64)
        requires
            old(self).wf(),
            !old(self).has_holding(owner@, mint@),
        ensures
            final(self).wf(),
            final(self).program_id == old(self).program_id,
            final(self).signer == old(self).signer,
            final(self).holdings@ == old(self).holdings@.push(TokenHolding { owner, mint, amount }),
            final(self).locked@ == old(self).locked@,
    {
        let ghost pre = *self;
        self.holdings.push(TokenHolding { owner, mint, amount });
        proof {
            lemma_keys_kept(pre, *self);
            let n = pre.holdings@.len();
            assert forall|k: int| 0 <= k < self.locked@.len() implies !(
            #[trigger] self.locked@[k]).draws_on(owner@, mint@) by {
                let rec = self.locked@[k];
                assert(pre.locked@[k] == rec);
                if rec.draws_on(owner@, mint@) {
                    assert(pre.has_holding(pre.authority()->0, rec.token_mint@));
                }
            }
            lemma_total_none(self.locked@, owner@, mint@);
            assert forall|i: int|
                0 <= i < self.holdings@.len() implies locked_total(
                self.locked@,
                #[trigger] self.holdings@[i].owner@,
                self.holdings@[i].mint@,
            ) <= self.holdings@[i].amount by {
                if i < n {
                    assert(self.holdings@[i] == pre.holdings@[i]);
                }
            }
            assert forall|i: int, j: int|
                0 <= i < self.holdings@.len() && 0 <= j < self.holdings@.len()
                    && #[trigger] self.holdings@[i].is_for(
                    self.holdings@[j].owner@,
                    self.holdings@[j].mint@,
                ) implies i == j by {
                if i < n && j < n {
                    assert(pre.holdings@[i].is_for(pre.holdings@[j].owner@, pre.holdings@[j].mint@));
                } else if i < n {
                    assert(pre.holdings@[i].is_for(owner@, mint@));
                } else if j < n {
                    assert(pre.holdings@[j].is_for(owner@, mint@));
                }
            }
        }
    }

    /// Opens a token account of `owner` for `mint` holding `amount`.
    pub fn open_token_account(&mut self, owner: Address, mint: Address, amount: u64) -> (r: Result<
        (),
        MyError,
    >)
        requires
            old(self).wf(),
        ensures
            final(self).wf(),
            r == match old(self).open_error(owner@, mint@) {
                Some(e) => Err(e),
                None => Ok(()),
            },
            r is Err ==> *final(self) == *old(self),
            r is Ok ==> final(self).holdings@ == old(self).holdings@.push(
                TokenHolding { owner, mint, amount },
            ),
            r is Ok ==> final(self).locked@ == old(self).locked@,
            final(self).program_id == old(self).program_id,
            final(self).signer == old(self).signer,
    {
        if self.find_holding(&owner, &mint).is_some() {
            return Err(MyError::AlreadyInitialized);
        }
        self.push_holding(owner, mint, amount);
        Ok(())
    }
}

/// Keeping every account's owner and asset keeps every account findable.
proof fn lemma_keys_kept(pre: Custody, post: Custody)
    requires
        pre.holdings@.len() <= post.holdings@.len(),
        forall|i: int|
            0 <= i < pre.holdings@.len() ==> (#[trigger] post.holdings@[i]).owner == pre.holdings@[i].owner
                && post.holdings@[i].mint == pre.holdings@[i].mint,
    ensures
        forall|o: Seq<u8>, m: Seq<u8>| #[trigger] pre.has_holding(o, m) ==> post.has_holding(o, m),
{
    assert forall|o: Seq<u8>, m: Seq<u8>| #[trigger] pre.has_holding(o, m) implies post.has_holding(
        o,
        m,
    ) by {
        let i = pre.holding_index(o, m);
        assert(post.holdings@[i].is_for(o, m));
    }
}

} // verus!

verus! {

/// Creates the authority record with `bump` as its derivation nonce.
pub fn initialize_program_signer(
    custody: &mut Custody,
    ctx: &InitializeProgramSigner,
    bump: u8,
) -> (r: Result<(), MyError>)
    requires
        old(custody).wf(),
    ensures
        final(custody).wf(),
        r == match old(custody).signer_error(bump) {
            Some(e) => Err(e),
            None => Ok(()),
        },
        r is Err ==> *final(custody) == *old(custody),
        r is Ok ==> final(custody).signer == Some(
            SignerAccount { is_initialized: true, is_signer: true, bump },
        ),
        r is Ok ==> final(custody).program_id == old(custody).program_id,
        r is Ok ==> final(custody).holdings@ == old(custody).holdings@,
        r is Ok ==> final(custody).locked@ == old(custody).locked@,
{
    if custody.signer.is_some() {
        return Err(MyError::AlreadyInitialized);
    }
    if derive_signer(&custody.program_id, bump).is_none() {
        return Err(MyError::InvalidNonce);
    }
    custody.signer = Some(SignerAccount { is_initialized: true, is_signer: true, bump });
    Ok(())
}

/// Creates the pool of `ctx.token_mint`: an empty account owned by the authority.
pub fn initialize_program_associate_token_account(
    custody: &mut Custody,
    ctx: &InitializeProgramAssociatedTokenAccount,
) -> (r: Result<(), MyError>)
    requires
        old(custody).wf(),
    ensures
        final(custody).wf(),
        r == match old(custody).pool_error(ctx.token_mint@) {
            Some(e) => Err(e),
            None => Ok(()),
        },
        r is Err ==> *final(custody) == *old(custody),
        r is Ok ==> final(custody).program_id == old(custody).program_id,
        r is Ok ==> final(custody).signer == old(custody).signer,
        r is Ok ==> final(custody).holdings@.len() == old(custody).holdings@.len() + 1,
        r is Ok ==> final(custody).holdings@.drop_last() == old(custody).holdings@,
        r is Ok ==> final(custody).holdings@.last().owner@ == old(custody).authority()->0,
        r is Ok ==> final(custody).holdings@.last().mint == ctx.token_mint,
        r is Ok ==> final(custody).holdings@.last().amount == 0,
        r is Ok ==> final(custody).locked@ == old(custody).locked@,
{
    let d = match custody.current_authority() {
        Some(d) => d,
        None => return Err(MyError::AuthorityNotInitialized),
    };
    if custody.find_holding(&d, &ctx.token_mint).is_some() {
        return Err(MyError::AlreadyInitialized);
    }
    custody.push_holding(d, ctx.token_mint, 0);
    proof {
        assert(custody.holdings@.drop_last() =~= old(custody).holdings@);
    }
    Ok(())
}

/// Creates the locked-balance record of `ctx.user` for `ctx.token_mint`, at zero.
pub fn initialize_locked_token_account(
    custody: &mut Custody,
    ctx: &InitializeLockedTokenAccount,
) -> (r: Result<(), MyError>)
    requires
        old(custody).wf(),
    ensures
        final(custody).wf(),
        r == match old(custody).record_error(ctx.user@, ctx.token_mint@) {
            Some(e) => Err(e),
            None => Ok(()),
        },
        r is Err ==> *final(custody) == *old(custody),
        r is Ok ==> final(custody).program_id == old(custody).program_id,
        r is Ok ==> final(custody).signer == old(custody).signer,
        r is Ok ==> final(custody).holdings@ == old(custody).holdings@,
        r is Ok ==> final(custody).locked@.len() == old(custody).locked@.len() + 1,
        r is Ok ==> final(custody).locked@.drop_last() == old(custody).locked@,
        r is Ok ==> final(custody).locked@.last().is_for(
            ctx.user@,
            old(custody).authority()->0,
            ctx.token_mint@,
        ),
        r is Ok ==> final(custody).locked@.last().amount == 0,
{
    let d = match custody.current_authority() {
        Some(d) => d,
        None => return Err(MyError::AuthorityNotInitialized),
    };
    if custody.find_record(&ctx.user, &d, &ctx.token_mint).is_some() {
        return Err(MyError::AlreadyInitialized);
    }
    if ctx.user.same(&d) {
        return Err(MyError::InvalidDepositor);
    }
    if custody.find_holding(&ctx.user, &ctx.token_mint).is_none() || custody.find_holding(
        &d,
        &ctx.token_mint,
    ).is_none() {
        return Err(MyError::AssetMismatch);
    }
    let ghost pre = *custody;
    let rec = LockedTokenAccount { user: ctx.user, authority: d, token_mint: ctx.token_mint, amount: 0 };
    custody.locked.push(rec);
    proof {
        let n = pre.locked@.len();
        assert(custody.locked@.drop_last() =~= pre.locked@);
        assert forall|h: int| 0 <= h < custody.holdings@.len() implies locked_total(
            custody.locked@,
            #[trigger] custody.holdings@[h].owner@,
            custody.holdings@[h].mint@,
        ) <= custody.holdings@[h].amount by {
            lemma_total_push(pre.locked@, rec, custody.holdings@[h].owner@, custody.holdings@[h].mint@);
        }
        assert forall|k: int, l: int|
            0 <= k < custody.locked@.len() && 0 <= l < custody.locked@.len()
                && #[trigger] custody.locked@[k].is_for(
                custody.locked@[l].user@,
                custody.locked@[l].authority@,
                custody.locked@[l].token_mint@,
            ) implies k == l by {
            if k < n && l < n {
                assert(pre.locked@[k].is_for(pre.locked@[l].user@, pre.locked@[l].authority@, pre.locked@[l].token_mint@));
            } else if k < n {
                assert(pre.locked@[k].is_for(ctx.user@, d@, ctx.token_mint@));
            } else if l < n {
                assert(pre.locked@[l].is_for(ctx.user@, d@, ctx.token_mint@));
            }
        }
        assert forall|k: int| 0 <= k < custody.locked@.len() implies {
            let r = #[trigger] custody.locked@[k];
            &&& r.authority@ == d@
            &&& r.user@ != d@
            &&& custody.has_holding(d@, r.token_mint@)
            &&& custody.has_holding(r.user@, r.token_mint@)
        } by {
            if k < n {
                assert(custody.locked@[k] == pre.locked@[k]);
            }
        }
    }
    Ok(())
}

} // verus!

verus! {

impl Custody {
    /// Moves `amount` from account `from` to account `to` as the token program
    /// does: only `from`'s owner may authorize it, and neither balance may leave
    /// the range of `u64`.
    fn transfer(&mut self, from: usize, to: usize, amount: u64, signer: &Address) -> (r: Result<
        (),
        MyError,
    >)
        requires
            from < old(self).holdings@.len(),
            to < old(self).holdings@.len(),
            from != to,
        ensures
            r is Ok <==> (signer@ == old(self).holdings@[from as int].owner@ && amount
                <= old(self).holdings@[from as int].amount && old(self).holdings@[to as int].amount
                + amount <= u64::MAX),
            r is Err ==> r == Err::<(), MyError>(MyError::TransferFailed) && *final(self) == *old(
                self,
            ),
            r is Ok ==> final(self).holdings@ == old(self).holdings@.update(
                from as int,
                old(self).holdings@[from as int].with_amount(
                    (old(self).holdings@[from as int].amount - amount) as u64,
                ),
            ).update(
                to as int,
                old(self).holdings@[to as int].with_amount(
                    (old(self).holdings@[to as int].amount + amount) as u64,
                ),
            ),
            final(self).program_id == old(self).program_id,
            final(self).signer == old(self).signer,
            final(self).locked@ == old(self).locked@,
    {
        let src = self.holdings[from];
        let dst = self.holdings[to];
        if !src.owner.same(signer) || amount > src.amount || dst.amount > u64::MAX - amount {
            return Err(MyError::TransferFailed);
        }
        self.holdings.set(
            from,
            TokenHolding { owner: src.owner, mint: src.mint, amount: src.amount - amount },
        );
        self.holdings.set(to, TokenHolding { owner: dst.owner, mint: dst.mint, amount: dst.amount + amount });
        Ok(())
    }
}

/// A balance moved between a depositor's account and the pool, with the same
/// change on the depositor's record, keeps the state well formed.
proof fn lemma_shift_wf(
    pre: Custody,
    post: Custody,
    ui: int,
    pi: int,
    li: int,
    ua: u64,
    pa: u64,
    la: u64,
)
    requires
        pre.wf(),
        pre.authority() is Some,
        0 <= ui < pre.holdings@.len(),
        0 <= pi < pre.holdings@.len(),
        0 <= li < pre.locked@.len(),
        pre.holdings@[pi].is_for(pre.locked@[li].authority@, pre.locked@[li].token_mint@),
        pre.holdings@[ui].is_for(pre.locked@[li].user@, pre.locked@[li].token_mint@),
        post.program_id == pre.program_id,
        post.signer == pre.signer,
        post.holdings@.len() == pre.holdings@.len(),
        post.holdings@[ui] == pre.holdings@[ui].with_amount(ua),
        post.holdings@[pi] == pre.holdings@[pi].with_amount(pa),
        forall|j: int|
            0 <= j < pre.holdings@.len() && j != ui && j != pi ==> post.holdings@[j]
                == pre.holdings@[j],
        post.locked@ == pre.locked@.update(li, pre.locked@[li].with_amount(la)),
        pa + pre.locked@[li].amount == pre.holdings@[pi].amount + la,
    ensures
        post.wf(),
{
    let d = pre.authority()->0;
    let rec = pre.locked@[li];
    let m = rec.token_mint@;
    assert(rec.authority@ == d && rec.user@ != d);
    assert forall|i: int|
        0 <= i < post.holdings@.len() implies (#[trigger] post.holdings@[i]).owner
        == pre.holdings@[i].owner && post.holdings@[i].mint == pre.holdings@[i].mint by {
        if i != ui && i != pi {
            assert(post.holdings@[i] == pre.holdings@[i]);
        }
    }
    lemma_keys_kept(pre, post);
    assert forall|i: int, j: int|
        0 <= i < post.holdings@.len() && 0 <= j < post.holdings@.len()
            && #[trigger] post.holdings@[i].is_for(
            post.holdings@[j].owner@,
            post.holdings@[j].mint@,
        ) implies i == j by {
        assert(pre.holdings@[i].is_for(pre.holdings@[j].owner@, pre.holdings@[j].mint@));
    }
    assert forall|k: int, l: int|
        0 <= k < post.locked@.len() && 0 <= l < post.locked@.len()
            && #[trigger] post.locked@[k].is_for(
            post.locked@[l].user@,
            post.locked@[l].authority@,
            post.locked@[l].token_mint@,
        ) implies k == l by {
        assert(pre.locked@[k].is_for(
            pre.locked@[l].user@,
            pre.locked@[l].authority@,
            pre.locked@[l].token_mint@,
        ));
    }
    assert forall|k: int| 0 <= k < post.locked@.len() implies {
        let r = #[trigger] post.locked@[k];
        &&& r.authority@ == d
        &&& r.user@ != d
        &&& post.has_holding(d, r.token_mint@)
        &&& post.has_holding(r.user@, r.token_mint@)
    } by {
        let r = pre.locked@[k];
        assert(r.authority@ == d);
        assert(pre.has_holding(d, r.token_mint@));
        assert(pre.has_holding(r.user@, r.token_mint@));
    }
    assert forall|i: int|
        0 <= i < post.holdings@.len() implies locked_total(
        post.locked@,
        #[trigger] post.holdings@[i].owner@,
        post.holdings@[i].mint@,
    ) <= post.holdings@[i].amount by {
        let o = pre.holdings@[i].owner@;
        let mi = pre.holdings@[i].mint@;
        lemma_total_update(pre.locked@, li, la, o, mi);
        assert(locked_total(pre.locked@, o, mi) <= pre.holdings@[i].amount);
        if i == pi {
        } else if i == ui {
            assert forall|k: int| 0 <= k < pre.locked@.len() implies !(
            #[trigger] pre.locked@[k]).draws_on(o, mi) by {
                assert(pre.locked@[k].authority@ == d);
            }
            lemma_total_none(pre.locked@, o, mi);
        } else {
            if rec.draws_on(o, mi) {
                assert(pre.holdings@[i].is_for(pre.holdings@[pi].owner@, pre.holdings@[pi].mint@));
            }
        }
    }
}

/// Deposits `amount` of `ctx.token_mint` from `ctx.user`'s account into the pool,
/// authorized by the depositor, and adds it to the depositor's record.
pub fn stake_token(custody: &mut Custody, ctx: &StakeToken, amount: u64) -> (r: Result<(), MyError>)
    requires
        old(custody).wf(),
    ensures
        final(custody).wf(),
        r == match old(custody).stake_error(ctx.user@, ctx.token_mint@, amount) {
            Some(e) => Err(e),
            None => Ok(()),
        },
        r is Err ==> *final(custody) == *old(custody),
        r is Ok ==> old(custody).deposited(*final(custody), ctx.user@, ctx.token_mint@, amount),
{
    let d = match custody.current_authority() {
        Some(d) => d,
        None => return Err(MyError::AuthorityNotInitialized),
    };
    let li = match custody.find_record(&ctx.user, &d, &ctx.token_mint) {
        Some(k) => k,
        None => return Err(MyError::AccountNotInitialized),
    };
    let ui = match custody.find_holding(&ctx.user, &ctx.token_mint) {
        Some(i) => i,
        None => return Err(MyError::AssetMismatch),
    };
    let pi = match custody.find_holding(&d, &ctx.token_mint) {
        Some(i) => i,
        None => return Err(MyError::AssetMismatch),
    };
    let ghost pre = *custody;
    proof {
        assert(pre.locked@[li as int].user@ != d@);
        lemma_total_bounds_record(pre.locked@, li as int, d@, ctx.token_mint@);
    }
    match custody.transfer(ui, pi, amount, &ctx.user) {
        Ok(()) => {},
        Err(e) => return Err(e),
    }
    let rec = custody.locked[li];
    custody.locked.set(
        li,
        LockedTokenAccount {
            user: rec.user,
            authority: rec.authority,
            token_mint: rec.token_mint,
            amount: rec.amount + amount,
        },
    );
    proof {
        lemma_shift_wf(
            pre,
            *custody,
            ui as int,
            pi as int,
            li as int,
            (pre.holdings@[ui as int].amount - amount) as u64,
            (pre.holdings@[pi as int].amount + amount) as u64,
            (rec.amount + amount) as u64,
        );
    }
    Ok(())
}

/// Withdraws `amount` of `ctx.token_mint` from the pool back to `ctx.user`'s
/// account, authorized by the authority's identity recomputed from its nonce,
/// and takes it off the depositor's record.
pub fn unstake_token(custody: &mut Custody, ctx: &UnstakeToken, amount: u64) -> (r: Result<(), MyError>)
    requires
        old(custody).wf(),
    ensures
        final(custody).wf(),
        r == match old(custody).unstake_error(ctx.user@, ctx.token_mint@, amount) {
            Some(e) => Err(e),
            None => Ok(()),
        },
        r is Err ==> *final(custody) == *old(custody),
        r is Ok ==> old(custody).withdrawn(*final(custody), ctx.user@, ctx.token_mint@, amount),
{
    let d = match custody.current_authority() {
        Some(d) => d,
        None => return Err(MyError::AuthorityNotInitialized),
    };
    let li = match custody.find_record(&ctx.user, &d, &ctx.token_mint) {
        Some(k) => k,
        None => return Err(MyError::AccountNotInitialized),
    };
    let rec = custody.locked[li];
    if amount > rec.amount {
        return Err(MyError::AmountTooLarge);
    }
    let ui = match custody.find_holding(&ctx.user, &ctx.token_mint) {
        Some(i) => i,
        None => return Err(MyError::AssetMismatch),
    };
    let pi = match custody.find_holding(&d, &ctx.token_mint) {
        Some(i) => i,
        None => return Err(MyError::AssetMismatch),
    };
    let ghost pre = *custody;
    proof {
        assert(pre.locked@[li as int].user@ != d@);
    }
    let delegate = match custody.current_authority() {
        Some(k) => k,
        None => return Err(MyError::TransferFailed),
    };
    match custody.transfer(pi, ui, amount, &delegate) {
        Ok(()) => {},
        Err(e) => return Err(e),
    }
    custody.locked.set(
        li,
        LockedTokenAccount {
            user: rec.user,
            authority: rec.authority,
            token_mint: rec.token_mint,
            amount: rec.amount - amount,
        },
    );
    proof {
        lemma_shift_wf(
            pre,
            *custody,
            ui as int,
            pi as int,
            li as int,
            (pre.holdings@[ui as int].amount + amount) as u64,
            (pre.holdings@[pi as int].amount - amount) as u64,
            (rec.amount - amount) as u64,
        );
    }
    Ok(())
}

} // verus!
