//! State of the Solana program: the account that holds a user's public input.

use vstd::prelude::*;

verus! {

/// The longest public input that a user's account holds, in bytes.
pub const MAX_PUBLIC_INPUT_LEN: usize = 100;

/// The account of a signed-up user.
pub struct UserData {
    pub public_input: Vec<u8>,
}

/// Why a sign-up is refused.
#[derive(Debug, PartialEq, Eq, Structural)]
pub enum SignUpError {
    /// The user already has an account: it is created once, at the first
    /// sign-up.
    AccountAlreadyInUse,
    /// The input is longer than `MAX_PUBLIC_INPUT_LEN`, so the account that
    /// was allocated for it cannot hold it.
    AccountDidNotSerialize,
}

/// Signs a user up. `account` is the user's account, `None` while the user
/// has none.
///
/// A user without an account gets one that holds `public_input`, if the input
/// fits in it. A second sign-up, or an input longer than
/// `MAX_PUBLIC_INPUT_LEN` bytes, is refused and leaves the account as it was.
pub fn user_sign_up(account: &mut Option<UserData>, public_input: Vec<u8>) -> (res: Result<
    (),
    SignUpError,
>)
    ensures
        (*old(account)) is Some ==> res == Err::<(), SignUpError>(SignUpError::AccountAlreadyInUse),
        (*old(account)) is None && public_input@.len() > MAX_PUBLIC_INPUT_LEN ==> res == Err::<
            (),
            SignUpError,
        >(SignUpError::AccountDidNotSerialize),
        (*old(account)) is None && public_input@.len() <= MAX_PUBLIC_INPUT_LEN ==> res is Ok,
        res is Err ==> *final(account) == *old(account),
        res is Ok ==> ((*final(account)) matches Some(d) && d.public_input@ == public_input@),
{
    if account.is_some() {
        return Err(SignUpError::AccountAlreadyInUse);
    }
    if public_input.len() > MAX_PUBLIC_INPUT_LEN {
        return Err(SignUpError::AccountDidNotSerialize);
    }
    *account = Some(UserData { public_input });
    Ok(())
}

} // verus!
