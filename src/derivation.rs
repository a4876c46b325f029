use vstd::prelude::*;
use crate::accounts::Key;
use anchor_lang::solana_program::pubkey::Pubkey;

verus! {

/// The bytes of this program's address, which owns every escrow.
pub open spec fn program_id_bytes() -> Seq<u8> {
    seq![
        147u8, 107, 28, 249, 164, 27, 139, 248, 126, 234, 212, 228, 125, 124, 166, 202,
        168, 49, 255, 97, 251, 111, 122, 113, 201, 11, 42, 118, 49, 188, 5, 38,
    ]
}

/// The seed that opens every escrow's derivation: the bytes of `"escrow"`.
pub open spec fn escrow_seed_bytes() -> Seq<u8> {
    seq![101u8, 115, 99, 114, 111, 119]
}

/// The address of this program.
pub fn program_id() -> (r: Key)
    ensures
        r@ == program_id_bytes(),
{
    let r: Key = [
        147, 107, 28, 249, 164, 27, 139, 248, 126, 234, 212, 228, 125, 124, 166, 202,
        168, 49, 255, 97, 251, 111, 122, 113, 201, 11, 42, 118, 49, 188, 5, 38,
    ];
    assert(r@ =~= program_id_bytes());
    r
}

/// The seed `"escrow"`.
pub fn escrow_seed() -> (r: [u8; 6])
    ensures
        r@ == escrow_seed_bytes(),
{
    let r: [u8; 6] = [101, 115, 99, 114, 111, 119];
    assert(r@ =~= escrow_seed_bytes());
    r
}

/// The program address and bump found for the seeds `prefix` and `key`
/// under `program`, if any.
pub uninterp spec fn pda_found_for(prefix: Seq<u8>, key: Seq<u8>, program: Seq<u8>) -> Option<
    (Seq<u8>, u8),
>;

/// The program address made from the seeds `prefix`, `key` and `[bump]`
/// under `program`, if any.
pub uninterp spec fn pda_address_for(
    prefix: Seq<u8>,
    key: Seq<u8>,
    bump: u8,
    program: Seq<u8>,
) -> Option<Seq<u8>>;

/// The escrow address and bump nonce found for a job account, if any.
pub open spec fn escrow_found_for(job: Seq<u8>) -> Option<(Seq<u8>, u8)> {
    pda_found_for(escrow_seed_bytes(), job, program_id_bytes())
}

/// The escrow address made from a job account and a bump nonce, if any.
pub open spec fn escrow_address_for(job: Seq<u8>, bump: u8) -> Option<Seq<u8>> {
    pda_address_for(escrow_seed_bytes(), job, bump, program_id_bytes())
}

/// Relies on `Pubkey::try_find_program_address` over the seeds `prefix` and
/// `key` under `program`. Its result depends on those bytes alone, and the
/// address and bump it finds are the ones that `Pubkey::create_program_address`
/// gives back for the same seeds followed by the bump.
#[verifier::external_body]
fn find_program_address(prefix: &[u8; 6], key: &Key, program: &Key) -> (r: Option<(Key, u8)>)
    ensures
        match r {
            Some((a, b)) => pda_found_for(prefix@, key@, program@) == Some((a@, b))
                && pda_address_for(prefix@, key@, b, program@) == Some(a@),
            None => pda_found_for(prefix@, key@, program@).is_none(),
        },
{
    let seeds: [&[u8]; 2] = [&prefix[..], &key[..]];
    Pubkey::try_find_program_address(&seeds, &Pubkey::new_from_array(*program))
        .map(|(a, b)| (a.to_bytes(), b))
}

/// Relies on `Pubkey::create_program_address` over the seeds `prefix`, `key`
/// and `[bump]` under `program`.
#[verifier::external_body]
fn create_program_address(prefix: &[u8; 6], key: &Key, bump: u8, program: &Key) -> (r: Option<Key>)
    ensures
        match r {
            Some(a) => pda_address_for(prefix@, key@, bump, program@) == Some(a@),
            None => pda_address_for(prefix@, key@, bump, program@).is_none(),
        },
{
    let nonce = [bump];
    let seeds: [&[u8]; 3] = [&prefix[..], &key[..], &nonce];
    Pubkey::create_program_address(&seeds, &Pubkey::new_from_array(*program)).ok()
        .map(|a| a.to_bytes())
}

/// Finds the escrow of a job account: its address and bump nonce.
pub(crate) fn find_escrow(job: &Key) -> (r: Option<(Key, u8)>)
    ensures
        match r {
            Some((a, b)) => escrow_found_for(job@) == Some((a@, b))
                && escrow_address_for(job@, b) == Some(a@),
            None => escrow_found_for(job@).is_none(),
        },
{
    find_program_address(&escrow_seed(), job, &program_id())
}

/// Re-derives the escrow address of a job account from its stored nonce.
pub(crate) fn escrow_address(job: &Key, bump: u8) -> (r: Option<Key>)
    ensures
        match r {
            Some(a) => escrow_address_for(job@, bump) == Some(a@),
            None => escrow_address_for(job@, bump).is_none(),
        },
{
    create_program_address(&escrow_seed(), job, bump, &program_id())
}

} // verus!
