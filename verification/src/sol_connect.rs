//! The data that the client sends to the Solana program: instruction
//! arguments and the Anchor instruction encoding.

use crate::bits::append_bytes;
use crate::scalar::ScalarWrapper;
use crate::zkpgenerate::sha256_digest;
use anchor_lang::solana_program::pubkey::Pubkey;
use vstd::prelude::*;
use vstd::string::StringSliceAdditionalSpecFns;

verus! {

/// Arguments of the `user_sign_up` instruction.
pub struct UserData {
    pub public_input: Vec<ScalarWrapper>,
}

/// Arguments of the `user_sign_in` instruction.
pub struct SigninData {
    pub proof_bytes: Vec<u8>,
    pub vk_to_send: Vec<u8>,
}

/// What `anchor_lang::solana_program::hash::hash` returns for `data`, as bytes.
pub uninterp spec fn solana_hash(data: Seq<u8>) -> Seq<u8>;

/// `anchor_lang::solana_program::hash::hash(data).to_bytes()`: the 32-byte
/// SHA-256 hash of `data`, computed with `sha2::Sha256`, so the same bytes as
/// `sha2::Sha256::digest(data)`.
#[verifier::external_body]
fn hash_bytes(data: &[u8]) -> (hash: [u8; 32])
    ensures
        hash@ == solana_hash(data@),
        hash@ == sha256_digest(data@),
{
    anchor_lang::solana_program::hash::hash(data).to_bytes()
}

/// The text that names an instruction: the namespace, a colon, the name.
pub open spec fn discriminant_preimage(namespace: Seq<u8>, name: Seq<u8>) -> Seq<u8> {
    namespace + seq![0x3au8] + name
}

/// The discriminant of `name` in `namespace`: the first 8 bytes of the hash
/// of `"namespace:name"`.
pub open spec fn discriminant(namespace: Seq<u8>, name: Seq<u8>) -> Seq<u8> {
    solana_hash(discriminant_preimage(namespace, name)).subrange(0, 8)
}

/// Returns the 8-byte discriminant that selects the function `name` of
/// namespace `namespace`.
pub fn get_discriminant(namespace: &str, name: &str) -> (sighash: [u8; 8])
    ensures
        sighash@ == discriminant(namespace.spec_bytes(), name.spec_bytes()),
        sighash@ == sha256_digest(discriminant_preimage(namespace.spec_bytes(), name.spec_bytes())).subrange(0, 8),
        sighash@ == sha256_digest(namespace.spec_bytes() + seq![0x3au8] + name.spec_bytes()).subrange(0, 8),
{
    let mut preimage: Vec<u8> = Vec::new();
    append_bytes(&mut preimage, namespace.as_bytes());
    preimage.push(0x3a);
    append_bytes(&mut preimage, name.as_bytes());
    assert(preimage@ =~= discriminant_preimage(namespace.spec_bytes(), name.spec_bytes()));
    let hash = hash_bytes(preimage.as_slice());
    let mut sighash = [0u8; 8];
    for i in 0..8
        invariant
            forall|j: int| 0 <= j < i ==> sighash@[j] == hash@[j],
    {
        sighash[i] = hash[i];
    }
    assert(sighash@ =~= hash@.subrange(0, 8));
    sighash
}

/// The data of an Anchor instruction: the discriminant of
/// `instruction_name` in the `global` namespace, then the serialized
/// arguments.
pub fn instruction_data(instruction_name: &str, args: &[u8]) -> (data: Vec<u8>)
    ensures
        data@ == discriminant("global".spec_bytes(), instruction_name.spec_bytes()) + args@,
        data@ == sha256_digest("global".spec_bytes() + seq![0x3au8] + instruction_name.spec_bytes()).subrange(0, 8) + args@,
{
    let sighash = get_discriminant("global", instruction_name);
    let mut data: Vec<u8> = Vec::new();
    append_bytes(&mut data, &sighash);
    append_bytes(&mut data, args);
    data
}

/// An account that an instruction touches, by address.
pub struct AccountEntry {
    pub pubkey: [u8; 32],
    pub is_signer: bool,
    pub is_writable: bool,
}

/// What `Pubkey::try_find_program_address(&[seed], program_id)` returns, as
/// bytes: the program derived address and its bump seed, if one is found.
pub uninterp spec fn program_address(seed: Seq<u8>, program_id: Seq<u8>) -> Option<(Seq<u8>, u8)>;

/// `Pubkey::try_find_program_address` for a single seed.
#[verifier::external_body]
fn find_program_address(seed: &[u8], program_id: &[u8; 32]) -> (found: Option<([u8; 32], u8)>)
    ensures
        found is Some <==> program_address(seed@, program_id@) is Some,
        found matches Some(p) ==> program_address(seed@, program_id@) == Some((p.0@, p.1)),
{
    Pubkey::try_find_program_address(&[seed], &Pubkey::new_from_array(*program_id)).map(
        |(address, bump)| (address.to_bytes(), bump),
    )
}

/// `system_program::ID`, the address of the system program: 32 zero bytes.
#[verifier::external_body]
fn system_program_id() -> (id: [u8; 32])
    ensures
        id@ == Seq::new(32, |i: int| 0u8),
{
    anchor_lang::solana_program::system_program::ID.to_bytes()
}

/// The seed of the account that holds a user's data: the text `user_data`.
pub open spec fn user_data_seed() -> Seq<u8> {
    seq![0x75u8, 0x73u8, 0x65u8, 0x72u8, 0x5fu8, 0x64u8, 0x61u8, 0x74u8, 0x61u8]
}

/// The accounts of a sign-up or sign-in instruction: the user data account
/// derived from `user_data_seed()` (writable), the payer (signer), and the
/// system program. `None` when no address can be derived for the seed.
pub fn user_accounts(program_id: &[u8; 32], payer: &[u8; 32]) -> (accounts: Option<
    Vec<AccountEntry>,
>)
    ensures
        accounts is Some <==> program_address(user_data_seed(), program_id@) is Some,
        accounts matches Some(a) ==> {
            &&& a@.len() == 3
            &&& a@[0].pubkey@ == (program_address(user_data_seed(), program_id@)->0).0
            &&& !a@[0].is_signer && a@[0].is_writable
            &&& a@[1].pubkey == *payer
            &&& a@[1].is_signer && !a@[1].is_writable
            &&& a@[2].pubkey@ == Seq::new(32, |i: int| 0u8)
            &&& !a@[2].is_signer && !a@[2].is_writable
        },
{
    let seed: [u8; 9] = [0x75, 0x73, 0x65, 0x72, 0x5f, 0x64, 0x61, 0x74, 0x61];
    assert(seed@ =~= user_data_seed());
    let (address, _bump) = match find_program_address(&seed, program_id) {
        Some(found) => found,
        None => return None,
    };
    let mut accounts: Vec<AccountEntry> = Vec::new();
    accounts.push(AccountEntry { pubkey: address, is_signer: false, is_writable: true });
    accounts.push(AccountEntry { pubkey: *payer, is_signer: true, is_writable: false });
    accounts.push(AccountEntry { pubkey: system_program_id(), is_signer: false, is_writable: false });
    Some(accounts)
}

/// The text that names an instruction holds the namespace whole, then one
/// colon, then the name whole, whatever their lengths.
pub proof fn lemma_discriminant_preimage_layout(namespace: Seq<u8>, name: Seq<u8>)
    ensures
        discriminant_preimage(namespace, name).len() == namespace.len() + 1 + name.len(),
        forall|i: int| 0 <= i < namespace.len() ==> #[trigger] discriminant_preimage(namespace, name)[i]
            == namespace[i],
        discriminant_preimage(namespace, name)[namespace.len() as int] == 0x3au8,
        forall|j: int| 0 <= j < name.len() ==> #[trigger] discriminant_preimage(namespace, name)[namespace.len() + 1 + j]
            == name[j],
{
}

} // verus!
