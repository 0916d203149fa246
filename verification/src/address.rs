//! Addresses that a program derives from seeds.

use vstd::prelude::*;

use crate::pubkey::{ARCHER_PROGRAM_ID, Pubkey};

verus! {

/// The first seed of a market's registry, `maker_registry`.
pub const MAKER_REGISTRY_SEED: [u8; 14] = [
    109, 97, 107, 101, 114, 95, 114, 101, 103, 105, 115, 116, 114, 121,
];

/// The address and bump seed that `solana_pubkey`'s
/// `Pubkey::try_find_program_address` finds for two seeds under a program, if
/// it finds one.
pub uninterp spec fn program_address(first: Seq<u8>, second: Seq<u8>, program: Seq<u8>) -> Option<
    (Seq<u8>, u8),
>;

/// Calls `solana_pubkey`'s `Pubkey::try_find_program_address`.
///
/// Claimed of it: whether there is an address, and which, depend on the seeds
/// and the program alone; there is none where a seed is longer than 32 bytes.
#[verifier::external_body]
pub(crate) fn find_program_address(first: &[u8], second: &[u8], program: &Pubkey) -> (r: Option<
    (Pubkey, u8),
>)
    ensures
        match r {
            Some((key, bump)) => program_address(first@, second@, program.bytes@) == Some(
                (key.bytes@, bump),
            ),
            None => program_address(first@, second@, program.bytes@) is None,
        },
        first@.len() > 32 || second@.len() > 32 ==> r is None,
{
    let program = solana_pubkey::Pubkey::new_from_array(program.bytes);
    let (key, bump) = solana_pubkey::Pubkey::try_find_program_address(&[first, second], &program)?;
    Some((Pubkey { bytes: key.to_bytes() }, bump))
}

/// Whether a market has a registry address.
pub open spec fn has_registry(market: Pubkey) -> bool {
    program_address(MAKER_REGISTRY_SEED@, market.bytes@, ARCHER_PROGRAM_ID@) is Some
}

/// Whether `registry` is the registry address of a market.
pub open spec fn is_registry_of(registry: Pubkey, market: Pubkey) -> bool {
    match program_address(MAKER_REGISTRY_SEED@, market.bytes@, ARCHER_PROGRAM_ID@) {
        Some((bytes, _)) => registry.bytes@ == bytes,
        None => false,
    }
}

/// The registry address of a market, if it has one.
pub fn registry_address(market: &Pubkey) -> (r: Option<Pubkey>)
    ensures
        match r {
            Some(key) => is_registry_of(key, *market),
            None => !has_registry(*market),
        },
{
    let program: Pubkey = Pubkey::new_from_array(ARCHER_PROGRAM_ID);
    match find_program_address(
        MAKER_REGISTRY_SEED.as_slice(),
        market.bytes.as_slice(),
        &program,
    ) {
        Some((key, _)) => Some(key),
        None => None,
    }
}

/// A market's registry is the address that the program derives from the word
/// `maker_registry` and the market's address, in this order; so a market has at most
/// one, and it is there exactly where one is derived.
pub proof fn law_registry_is_derived_from_its_market(market: Pubkey, a: Pubkey, b: Pubkey)
    ensures
        ({
            let word = seq![109u8, 97, 107, 101, 114, 95, 114, 101, 103, 105, 115, 116, 114, 121];
            let derived = program_address(word, market.bytes@, ARCHER_PROGRAM_ID@);
            &&& is_registry_of(a, market) <==> (derived matches Some((bytes, _)) && bytes
                == a.bytes@)
            &&& has_registry(market) <==> derived is Some
        }),
        is_registry_of(a, market) ==> has_registry(market),
        is_registry_of(a, market) && is_registry_of(b, market) ==> a == b,
{
    let word = seq![109u8, 97, 107, 101, 114, 95, 114, 101, 103, 105, 115, 116, 114, 121];
    assert(MAKER_REGISTRY_SEED@ =~= word);
    if is_registry_of(a, market) && is_registry_of(b, market) {
        assert(a.bytes =~= b.bytes);
    }
}

} // verus!
