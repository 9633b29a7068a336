//! Ledger addresses of journal entries.

use vstd::prelude::*;

use crate::key::{utf8_bytes, Pubkey};

verus! {

/// Longest seed, in bytes, from which the ledger derives an address.
pub const MAX_SEED_LEN: usize = 32;

/// The program-derived address, with its bump seed, that the ledger finds for
/// the seeds `title` and `owner` under the program `program_id`; `None` when it
/// finds none.
pub uninterp spec fn program_address_of(title: Seq<u8>, owner: Seq<u8>, program_id: Seq<u8>) -> Option<
    (Seq<u8>, u8),
>;

/// Relies on solana_program's `Pubkey::try_find_program_address` (reached
/// through anchor_lang's prelude): its result depends on the seeds and the program id alone,
/// and it finds no address when a seed is longer than 32 bytes.
#[verifier::external_body]
fn find_program_address(title: &[u8], owner: &[u8; 32], program_id: &[u8; 32]) -> (r: Option<
    ([u8; 32], u8),
>)
    ensures
        match r {
            Some((a, b)) => program_address_of(title@, owner@, program_id@) == Some((a@, b)),
            None => program_address_of(title@, owner@, program_id@) is None,
        },
        title@.len() > MAX_SEED_LEN ==> r is None,
{
    let program = anchor_lang::prelude::Pubkey::new_from_array(*program_id);
    anchor_lang::prelude::Pubkey::try_find_program_address(&[title, owner.as_slice()], &program)
        .map(|(a, b)| (a.to_bytes(), b))
}

/// The ledger account of the entry (`title`, `owner`) under the program
/// `program_id`: its address and bump seed, derived from the seeds
/// `[title bytes, owner bytes]`. `None` when no address can be derived, which
/// is always the case for a title longer than a seed may be.
pub fn journal_entry_address(title: &str, owner: &Pubkey, program_id: &Pubkey) -> (r: Option<
    ([u8; 32], u8),
>)
    ensures
        match r {
            Some((a, b)) => program_address_of(utf8_bytes(title@), owner@, program_id@) == Some(
                (a@, b),
            ),
            None => program_address_of(utf8_bytes(title@), owner@, program_id@) is None,
        },
        utf8_bytes(title@).len() > MAX_SEED_LEN ==> r is None,
{
    find_program_address(title.as_bytes(), &owner.bytes, &program_id.bytes)
}

} // verus!
