use vstd::prelude::*;

verus! {

/// A 32-byte account identity.
#[derive(Clone, Copy, Debug)]
pub struct Address {
    pub bytes: [u8; 32],
}

impl View for Address {
    type V = Seq<u8>;

    open spec fn view(&self) -> Seq<u8> {
        self.bytes@
    }
}

impl Address {
    pub fn new(bytes: [u8; 32]) -> (r: Address)
        ensures
            r@ == bytes@,
    {
        Address { bytes }
    }

    /// Byte-wise comparison of two identities.
    pub fn same(&self, other: &Address) -> (r: bool)
        ensures
            r == (self@ == other@),
    {
        let mut i: usize = 0;
        while i < 32
            invariant
                0 <= i <= 32,
                self.bytes@.len() == 32,
                other.bytes@.len() == 32,
                forall|j: int| 0 <= j < i ==> self.bytes@[j] == other.bytes@[j],
            decreases 32 - i,
        {
            if self.bytes[i] != other.bytes[i] {
                return false;
            }
            i = i + 1;
        }
        assert(self.bytes@ =~= other.bytes@);
        true
    }
}

/// What a program-address derivation from `seeds` under `program_id` yields:
/// the derived identity, or `None` where no valid address comes out.
pub uninterp spec fn program_address_of(seeds: Seq<Seq<u8>>, program_id: Seq<u8>) -> Option<
    Seq<u8>,
>;

pub open spec fn address_opt_view(a: Option<Address>) -> Option<Seq<u8>> {
    match a {
        Some(x) => Some(x@),
        None => None,
    }
}

/// The seeds of the authority's identity: the fixed label, then the nonce.
pub open spec fn signer_seeds(nonce: u8) -> Seq<Seq<u8>> {
    seq![seq![115u8, 105u8, 103u8, 110u8, 101u8, 114u8], seq![nonce]]
}

/// The authority identity that `nonce` yields under `program_id`.
pub open spec fn signer_address(program_id: Seq<u8>, nonce: u8) -> Option<Seq<u8>> {
    program_address_of(signer_seeds(nonce), program_id)
}

/// Relies on solana_program's `Pubkey::create_program_address` (as re-exported by
/// anchor_lang): its result depends on the seeds and the program id alone.
#[verifier::external_body]
fn create_program_address(label: &[u8], nonce: u8, program_id: &Address) -> (r: Option<Address>)
    ensures
        address_opt_view(r) == program_address_of(seq![label@, seq![nonce]], program_id@),
{
    let nonce_seed = [nonce];
    let id = anchor_lang::solana_program::pubkey::Pubkey::new_from_array(program_id.bytes);
    match anchor_lang::solana_program::pubkey::Pubkey::create_program_address(
        &[label, &nonce_seed],
        &id,
    ) {
        Ok(k) => Some(Address { bytes: k.to_bytes() }),
        Err(_) => None,
    }
}

/// Recomputes the authority's identity from the fixed label and `nonce`.
pub fn derive_signer(program_id: &Address, nonce: u8) -> (r: Option<Address>)
    ensures
        address_opt_view(r) == signer_address(program_id@, nonce),
{
    let label: [u8; 6] = [115, 105, 103, 110, 101, 114];
    let r = create_program_address(label.as_slice(), nonce, program_id);
    assert(label@ =~= seq![115u8, 105u8, 103u8, 110u8, 101u8, 114u8]);
    r
}

} // verus!
