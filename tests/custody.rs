use std::str::FromStr;

use anchor_lang::solana_program::pubkey::Pubkey;
use token_program::address::derive_signer;
use token_program::custody::{
    initialize_locked_token_account, initialize_program_associate_token_account,
    initialize_program_signer, stake_token, unstake_token,
};
use token_program::{
    Address, Custody, InitializeLockedTokenAccount, InitializeProgramAssociatedTokenAccount,
    InitializeProgramSigner, MyError, StakeToken, UnstakeToken,
};

fn addr(b: u8) -> Address {
    Address::new([b; 32])
}

/// A program identity under which `nonce` derives a valid authority.
fn program_accepting(nonce: u8) -> Address {
    let declared = Pubkey::from_str("HCWnGf6fEuaaSrYFTJoydHoJ4JtDesqtR3tWV5hSsCc7").unwrap();
    let mut id = Address::new(declared.to_bytes());
    let mut tweak: u8 = 0;
    while derive_signer(&id, nonce).is_none() {
        tweak += 1;
        id.bytes[0] = tweak;
    }
    id
}

fn amount_of(c: &Custody, owner: &Address, mint: &Address) -> u64 {
    c.holdings[c.find_holding(owner, mint).unwrap()].amount
}

fn locked_of(c: &Custody, user: &Address, mint: &Address) -> u64 {
    let d = c.current_authority().unwrap();
    c.locked[c.find_record(user, &d, mint).unwrap()].amount
}

/// Authority with nonce 7, pool of mint 9, user 1 holding `funds` with a record.
fn ready(funds: u64) -> (Custody, Address) {
    let mut c = Custody::new(program_accepting(7));
    let mint = addr(9);
    let user = addr(1);
    initialize_program_signer(&mut c, &InitializeProgramSigner { payer: user }, 7).unwrap();
    initialize_program_associate_token_account(
        &mut c,
        &InitializeProgramAssociatedTokenAccount { payer: user, token_mint: mint },
    )
    .unwrap();
    c.open_token_account(user, mint, funds).unwrap();
    initialize_locked_token_account(&mut c, &InitializeLockedTokenAccount { user, token_mint: mint })
        .unwrap();
    let d = c.current_authority().unwrap();
    (c, d)
}

fn stake(user: u8) -> StakeToken {
    StakeToken { user: addr(user), token_mint: addr(9) }
}

fn unstake(user: u8) -> UnstakeToken {
    UnstakeToken { user: addr(user), token_mint: addr(9) }
}

#[test]
fn scenario_nonce_seven() {
    let program_id = program_accepting(7);
    let mut c = Custody::new(program_id);
    let user = addr(1);
    let mint = addr(9);
    assert_eq!(initialize_program_signer(&mut c, &InitializeProgramSigner { payer: user }, 7), Ok(()));
    let d = derive_signer(&program_id, 7).unwrap();
    assert!(c.current_authority().unwrap().same(&d));
    assert_eq!(
        initialize_program_associate_token_account(
            &mut c,
            &InitializeProgramAssociatedTokenAccount { payer: user, token_mint: mint },
        ),
        Ok(())
    );
    let pool = c.holdings[c.find_holding(&d, &mint).unwrap()];
    assert!(pool.owner.same(&d));
    assert_eq!(pool.amount, 0);
    c.open_token_account(user, mint, 100).unwrap();
    initialize_locked_token_account(&mut c, &InitializeLockedTokenAccount { user, token_mint: mint })
        .unwrap();
    assert_eq!(stake_token(&mut c, &stake(1), 100), Ok(()));
    assert_eq!(locked_of(&c, &user, &mint), 100);
    assert_eq!(amount_of(&c, &d, &mint), 100);
    assert_eq!(unstake_token(&mut c, &unstake(1), 150), Err(MyError::AmountTooLarge));
    assert_eq!(locked_of(&c, &user, &mint), 100);
    assert_eq!(amount_of(&c, &d, &mint), 100);
    assert_eq!(unstake_token(&mut c, &unstake(1), 100), Ok(()));
    assert_eq!(locked_of(&c, &user, &mint), 0);
    assert_eq!(amount_of(&c, &d, &mint), 0);
    assert_eq!(amount_of(&c, &user, &mint), 100);
}

#[test]
fn derivation_matches_program_address() {
    let program_id = program_accepting(7);
    let d = derive_signer(&program_id, 7).unwrap();
    let expected = Pubkey::create_program_address(
        &[b"signer".as_ref(), &[7u8]],
        &Pubkey::new_from_array(program_id.bytes),
    )
    .unwrap();
    assert_eq!(d.bytes, expected.to_bytes());
    assert!(!d.same(&program_id));
    assert_eq!(derive_signer(&program_id, 7).unwrap().bytes, d.bytes);
}

#[test]
fn address_comparison() {
    assert!(addr(3).same(&addr(3)));
    let mut other = [3u8; 32];
    other[31] = 4;
    assert!(!addr(3).same(&Address::new(other)));
}

#[test]
fn deposit_adds_to_record_and_pool() {
    let (mut c, d) = ready(500);
    let (user, mint) = (addr(1), addr(9));
    assert_eq!(stake_token(&mut c, &stake(1), 120), Ok(()));
    assert_eq!(stake_token(&mut c, &stake(1), 30), Ok(()));
    assert_eq!(locked_of(&c, &user, &mint), 150);
    assert_eq!(amount_of(&c, &d, &mint), 150);
    assert_eq!(amount_of(&c, &user, &mint), 350);
}

#[test]
fn zero_deposit_changes_no_balance() {
    let (mut c, d) = ready(50);
    assert_eq!(stake_token(&mut c, &stake(1), 0), Ok(()));
    assert_eq!(locked_of(&c, &addr(1), &addr(9)), 0);
    assert_eq!(amount_of(&c, &d, &addr(9)), 0);
    assert_eq!(amount_of(&c, &addr(1), &addr(9)), 50);
}

#[test]
fn withdraw_within_balance() {
    let (mut c, d) = ready(80);
    stake_token(&mut c, &stake(1), 80).unwrap();
    assert_eq!(unstake_token(&mut c, &unstake(1), 30), Ok(()));
    assert_eq!(locked_of(&c, &addr(1), &addr(9)), 50);
    assert_eq!(amount_of(&c, &d, &addr(9)), 50);
    assert_eq!(amount_of(&c, &addr(1), &addr(9)), 30);
}

#[test]
fn withdraw_too_large_changes_nothing() {
    let (mut c, d) = ready(80);
    stake_token(&mut c, &stake(1), 40).unwrap();
    assert_eq!(unstake_token(&mut c, &unstake(1), 41), Err(MyError::AmountTooLarge));
    assert_eq!(locked_of(&c, &addr(1), &addr(9)), 40);
    assert_eq!(amount_of(&c, &d, &addr(9)), 40);
    assert_eq!(amount_of(&c, &addr(1), &addr(9)), 40);
}

#[test]
fn deposit_then_withdraw_round_trip() {
    let (mut c, d) = ready(75);
    stake_token(&mut c, &stake(1), 20).unwrap();
    let record_before = locked_of(&c, &addr(1), &addr(9));
    let user_before = amount_of(&c, &addr(1), &addr(9));
    assert_eq!(stake_token(&mut c, &stake(1), 33), Ok(()));
    assert_eq!(unstake_token(&mut c, &unstake(1), 33), Ok(()));
    assert_eq!(locked_of(&c, &addr(1), &addr(9)), record_before);
    assert_eq!(amount_of(&c, &addr(1), &addr(9)), user_before);
    assert_eq!(amount_of(&c, &d, &addr(9)), 20);
}

#[test]
fn second_initialization_refused() {
    let (mut c, d) = ready(10);
    let holdings = c.holdings.len();
    assert_eq!(
        initialize_program_signer(&mut c, &InitializeProgramSigner { payer: addr(1) }, 7),
        Err(MyError::AlreadyInitialized)
    );
    assert_eq!(
        initialize_program_signer(&mut c, &InitializeProgramSigner { payer: addr(1) }, 8),
        Err(MyError::AlreadyInitialized)
    );
    assert_eq!(c.signer.unwrap().bump, 7);
    assert_eq!(
        initialize_program_associate_token_account(
            &mut c,
            &InitializeProgramAssociatedTokenAccount { payer: addr(1), token_mint: addr(9) },
        ),
        Err(MyError::AlreadyInitialized)
    );
    assert_eq!(c.holdings.len(), holdings);
    assert!(c.current_authority().unwrap().same(&d));
    assert_eq!(
        initialize_locked_token_account(
            &mut c,
            &InitializeLockedTokenAccount { user: addr(1), token_mint: addr(9) },
        ),
        Err(MyError::AlreadyInitialized)
    );
    assert_eq!(c.locked.len(), 1);
}

#[test]
fn pool_covers_records_over_sequence() {
    let (mut c, d) = ready(1000);
    let mint = addr(9);
    c.open_token_account(addr(2), mint, 400).unwrap();
    initialize_locked_token_account(&mut c, &InitializeLockedTokenAccount { user: addr(2), token_mint: mint })
        .unwrap();
    let steps: [(u8, bool, u64); 7] =
        [(1, true, 300), (2, true, 400), (1, false, 100), (2, false, 500), (2, false, 150), (1, true, 5), (1, false, 205)];
    for (user, deposit, amount) in steps {
        if deposit {
            let _ = stake_token(&mut c, &stake(user), amount);
        } else {
            let _ = unstake_token(&mut c, &unstake(user), amount);
        }
        let total = locked_of(&c, &addr(1), &mint) + locked_of(&c, &addr(2), &mint);
        assert!(total <= amount_of(&c, &d, &mint));
    }
    assert_eq!(locked_of(&c, &addr(1), &mint), 0);
    assert_eq!(locked_of(&c, &addr(2), &mint), 250);
    assert_eq!(amount_of(&c, &d, &mint), 250);
}

#[test]
fn pool_before_authority_refused() {
    let mut c = Custody::new(program_accepting(7));
    assert_eq!(
        initialize_program_associate_token_account(
            &mut c,
            &InitializeProgramAssociatedTokenAccount { payer: addr(1), token_mint: addr(9) },
        ),
        Err(MyError::AuthorityNotInitialized)
    );
    assert_eq!(stake_token(&mut c, &stake(1), 1), Err(MyError::AuthorityNotInitialized));
    assert_eq!(unstake_token(&mut c, &unstake(1), 1), Err(MyError::AuthorityNotInitialized));
    assert_eq!(c.holdings.len(), 0);
}

#[test]
fn nonce_without_identity_refused() {
    let program_id = program_accepting(7);
    let mut nonce: u8 = 0;
    while derive_signer(&program_id, nonce).is_some() {
        nonce += 1;
    }
    let mut c = Custody::new(program_id);
    assert_eq!(
        initialize_program_signer(&mut c, &InitializeProgramSigner { payer: addr(1) }, nonce),
        Err(MyError::InvalidNonce)
    );
    assert!(c.signer.is_none());
}

#[test]
fn missing_record_refused() {
    let (mut c, _) = ready(10);
    c.open_token_account(addr(2), addr(9), 10).unwrap();
    assert_eq!(stake_token(&mut c, &stake(2), 5), Err(MyError::AccountNotInitialized));
    assert_eq!(unstake_token(&mut c, &unstake(2), 0), Err(MyError::AccountNotInitialized));
}

#[test]
fn missing_accounts_refused() {
    let (mut c, _) = ready(10);
    assert_eq!(
        initialize_locked_token_account(&mut c, &InitializeLockedTokenAccount { user: addr(2), token_mint: addr(9) }),
        Err(MyError::AssetMismatch)
    );
    c.open_token_account(addr(2), addr(8), 10).unwrap();
    assert_eq!(
        initialize_locked_token_account(&mut c, &InitializeLockedTokenAccount { user: addr(2), token_mint: addr(8) }),
        Err(MyError::AssetMismatch)
    );
    assert_eq!(c.locked.len(), 1);
}

#[test]
fn authority_as_depositor_refused() {
    let (mut c, d) = ready(10);
    assert_eq!(
        initialize_locked_token_account(&mut c, &InitializeLockedTokenAccount { user: d, token_mint: addr(9) }),
        Err(MyError::InvalidDepositor)
    );
}

#[test]
fn deposit_beyond_funds_refused() {
    let (mut c, d) = ready(10);
    assert_eq!(stake_token(&mut c, &stake(1), 11), Err(MyError::TransferFailed));
    assert_eq!(locked_of(&c, &addr(1), &addr(9)), 0);
    assert_eq!(amount_of(&c, &d, &addr(9)), 0);
    assert_eq!(amount_of(&c, &addr(1), &addr(9)), 10);
}

#[test]
fn withdraw_overflowing_account_refused() {
    let (mut c, d) = ready(100);
    stake_token(&mut c, &stake(1), 5).unwrap();
    let ui = c.find_holding(&addr(1), &addr(9)).unwrap();
    c.holdings[ui].amount = u64::MAX - 4;
    assert_eq!(unstake_token(&mut c, &unstake(1), 5), Err(MyError::TransferFailed));
    assert_eq!(locked_of(&c, &addr(1), &addr(9)), 5);
    assert_eq!(amount_of(&c, &d, &addr(9)), 5);
    assert_eq!(unstake_token(&mut c, &unstake(1), 4), Ok(()));
    assert_eq!(amount_of(&c, &addr(1), &addr(9)), u64::MAX);
}

#[test]
fn duplicate_token_account_refused() {
    let mut c = Custody::new(addr(4));
    assert_eq!(c.open_token_account(addr(1), addr(9), 3), Ok(()));
    assert_eq!(c.open_token_account(addr(1), addr(9), 5), Err(MyError::AlreadyInitialized));
    assert_eq!(amount_of(&c, &addr(1), &addr(9)), 3);
}
