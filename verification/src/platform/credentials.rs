//! The key for the reach history, kept where the platform keeps secrets.
//!
//! The application talks to the platform's credential store; this decides
//! what each answer means. When the store is absent or locked the caller
//! fails closed: keep protecting, keep recording, never overwrite what
//! cannot be read. A new key comes from the operating system's randomness
//! and is never shown to anybody.
use vstd::prelude::*;
use crate::ipc::state::sentence;
use crate::services::{Key, KeyUnavailable, Outcome, Trouble};
use crate::text::{push_str, string_of};

verus! {

/// What the credential store said, as plain values. `said` is the store's
/// whole answer in words; `inner` the platform's own part of it.
pub enum StoreProblem {
    /// Nothing is stored under Cairn's name.
    NoEntry,
    /// The store is there but could not be accessed, typically because it is
    /// locked.
    NoStorageAccess { said: String },
    /// The platform's store failed.
    PlatformFailure { inner: String, said: String },
    /// Anything else the store answered.
    Other { said: String },
}

/// The store's words for nothing being stored.
pub open spec fn no_entry_text() -> Seq<char> {
    "No matching entry found in secure storage"@
}

/// Why the key is unavailable, given what the store said when asked for it
/// (or asked to keep it): locked when it could not be accessed, no store
/// when the platform failed, unreadable otherwise.
pub open spec fn unavailable_as(problem: StoreProblem, unavailable: KeyUnavailable) -> bool {
    match problem {
        StoreProblem::NoStorageAccess { .. } => unavailable is Locked,
        StoreProblem::PlatformFailure { inner, .. } => unavailable == (KeyUnavailable::NoCredentialStore {
            because: inner,
        }),
        StoreProblem::Other { said } => unavailable == (KeyUnavailable::Unreadable { because: said }),
        StoreProblem::NoEntry => unavailable matches KeyUnavailable::Unreadable { because } && because@
            == no_entry_text(),
    }
}

/// Why the key is unavailable, given what the store said.
pub fn classify(problem: StoreProblem) -> (unavailable: KeyUnavailable)
    ensures
        unavailable_as(problem, unavailable),
{
    match problem {
        StoreProblem::NoStorageAccess { .. } => KeyUnavailable::Locked,
        StoreProblem::PlatformFailure { inner, .. } => KeyUnavailable::NoCredentialStore { because: inner },
        StoreProblem::Other { said } => KeyUnavailable::Unreadable { because: said },
        StoreProblem::NoEntry => KeyUnavailable::Unreadable {
            because: sentence("No matching entry found in secure storage"),
        },
    }
}

/// What the store holds, once asked for the key.
pub enum StoredKey {
    /// The secret stored under Cairn's name.
    Found { secret: Vec<u8> },
    /// The store could not give it.
    Failed(StoreProblem),
}

/// What to do with the store's answer to a request for the key.
pub enum KeyNext {
    /// The key is here, or it cannot be had.
    Done(Result<Key, KeyUnavailable>),
    /// There is none yet: make one, and keep it.
    Create,
}

/// The sentence when the stored key has the wrong length.
pub open spec fn wrong_length_text() -> Seq<char> {
    "the stored key is not the right length"@
}

/// What the store's answer means: a stored secret of exactly 32 bytes is
/// the key; any other length is unreadable; nothing stored means a key is to
/// be made (first run); any other problem is classified.
pub fn key_from_store(answer: StoredKey) -> (next: KeyNext)
    ensures
        match answer {
            StoredKey::Found { secret } => if secret@.len() == 32 {
                next matches KeyNext::Done(Ok(key)) && key@ == secret@
            } else {
                next matches KeyNext::Done(Err(KeyUnavailable::Unreadable { because })) && because@
                    == wrong_length_text()
            },
            StoredKey::Failed(StoreProblem::NoEntry) => next is Create,
            StoredKey::Failed(problem) => next matches KeyNext::Done(Err(unavailable)) && unavailable_as(
                problem,
                unavailable,
            ),
        },
{
    match answer {
        StoredKey::Found { secret } => {
            if secret.len() == 32 {
                let mut bytes: [u8; 32] = [0u8; 32];
                let mut i: usize = 0;
                while i < 32
                    invariant
                        i <= 32,
                        secret@.len() == 32,
                        forall|k: int| 0 <= k < i ==> bytes@[k] == secret@[k],
                    decreases 32 - i,
                {
                    bytes.set(i, secret[i]);
                    i = i + 1;
                }
                assert(bytes@ =~= secret@);
                KeyNext::Done(Ok(Key::from_bytes(bytes)))
            } else {
                KeyNext::Done(Err(KeyUnavailable::Unreadable { because: sentence("the stored key is not the right length") }))
            }
        },
        StoredKey::Failed(StoreProblem::NoEntry) => KeyNext::Create,
        StoredKey::Failed(problem) => KeyNext::Done(Err(classify(problem))),
    }
}

/// `getrandom::fill`, which fills `bytes` from the operating system's
/// randomness, or fails with an error, given here as its text. Nothing is
/// claimed of the bytes it writes, which are random; only that there are as
/// many as before.
#[verifier::external_body]
pub(crate) fn fill_random(bytes: &mut Vec<u8>) -> (filled: Result<(), String>)
    ensures
        final(bytes)@.len() == old(bytes)@.len(),
{
    getrandom::fill(bytes.as_mut_slice()).map_err(|error| error.to_string())
}

/// `n` bytes drawn from the operating system's randomness, or the reason
/// there are none.
pub fn random_bytes(n: usize) -> (drawn: Result<Vec<u8>, String>)
    ensures
        drawn matches Ok(bytes) ==> bytes@.len() == n,
{
    let mut bytes: Vec<u8> = Vec::new();
    let mut i: usize = 0;
    while i < n
        invariant
            i <= n,
            bytes@.len() == i,
        decreases n - i,
    {
        bytes.push(0u8);
        i = i + 1;
    }
    match fill_random(&mut bytes) {
        Ok(()) => Ok(bytes),
        Err(because) => Err(because),
    }
}

/// The thirty-two bytes drawn for a new key, or the reason there are none.
fn draw_key_bytes() -> (drawn: Result<[u8; 32], String>) {
    let bytes = match random_bytes(32) {
        Ok(bytes) => bytes,
        Err(because) => {
            return Err(because);
        },
    };
    let mut key: [u8; 32] = [0u8; 32];
    let mut i: usize = 0;
    while i < 32
        invariant
            i <= 32,
            bytes@.len() == 32,
        decreases 32 - i,
    {
        key.set(i, bytes[i]);
        i = i + 1;
    }
    Ok(key)
}

/// What a draw of randomness for a new key comes to: the key made of exactly
/// the bytes drawn, or, when there were none, an unreadable key with the
/// reason.
pub fn key_from_draw(drawn: Result<[u8; 32], String>) -> (made: Result<Key, KeyUnavailable>)
    ensures
        match drawn {
            Ok(bytes) => made matches Ok(key) && key@ == bytes@,
            Err(because) => made matches Err(KeyUnavailable::Unreadable { because: said })
                && said@ == because@,
        },
{
    match drawn {
        Ok(bytes) => Ok(Key::from_bytes(bytes)),
        Err(because) => Err(KeyUnavailable::Unreadable { because }),
    }
}

/// A new key from the operating system's randomness, for a first run; a
/// failure to get randomness makes the key unreadable, with its reason.
pub fn fresh_key() -> (made: Result<Key, KeyUnavailable>)
    ensures
        made matches Ok(key) ==> key@.len() == 32,
        made matches Err(unavailable) ==> unavailable is Unreadable,
{
    key_from_draw(draw_key_bytes())
}

/// The sentence when the key could not be removed.
pub open spec fn key_not_removed_text(error: Seq<char>) -> Seq<char> {
    "Cairn could not remove the key it kept for your history ("@ + error + ")."@
}

/// What removing the key came to: gone, or never there, is done; anything
/// else is said, in the store's own words.
pub fn key_removed(deleted: Result<(), StoreProblem>) -> (outcome: Outcome<()>)
    ensures
        match deleted {
            Ok(()) => outcome is Ok,
            Err(StoreProblem::NoEntry) => outcome is Ok,
            Err(StoreProblem::NoStorageAccess { said }) => outcome matches Err(trouble) && trouble.message@
                == key_not_removed_text(said@),
            Err(StoreProblem::PlatformFailure { said, .. }) => outcome matches Err(trouble) && trouble.message@
                == key_not_removed_text(said@),
            Err(StoreProblem::Other { said }) => outcome matches Err(trouble) && trouble.message@
                == key_not_removed_text(said@),
        },
{
    let words = match deleted {
        Ok(()) => {
            return Ok(());
        },
        Err(StoreProblem::NoEntry) => {
            return Ok(());
        },
        Err(StoreProblem::NoStorageAccess { said }) => said,
        Err(StoreProblem::PlatformFailure { said, .. }) => said,
        Err(StoreProblem::Other { said }) => said,
    };
    let mut out: Vec<char> = Vec::new();
    push_str(&mut out, "Cairn could not remove the key it kept for your history (");
    push_str(&mut out, words.as_str());
    push_str(&mut out, ").");
    Err(Trouble::new(string_of(out.as_slice())))
}

} // verus!
