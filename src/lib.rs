//! Custody ledger: a program-derived authority holds pooled tokens for
//! depositors, and a per-depositor record tracks how much each may withdraw.
pub mod address;
pub mod custody;
pub mod laws;
pub mod records;

pub use address::Address;
pub use custody::{
    initialize_locked_token_account, initialize_program_associate_token_account,
    initialize_program_signer, stake_token, unstake_token, Custody, InitializeLockedTokenAccount,
    InitializeProgramAssociatedTokenAccount, InitializeProgramSigner, MyError, StakeToken,
    UnstakeToken,
};
pub use records::{LockedTokenAccount, SignerAccount, TokenHolding};
