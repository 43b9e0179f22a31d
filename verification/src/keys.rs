//! What is said of a sender's key.

use vstd::prelude::*;

use crate::text::{chars_of, find_from, holds};

verus! {

/// How the sender's key came into the keyring.
#[derive(Debug, Clone, Copy, PartialEq, Eq, Structural)]
pub enum KeyNews {
    /// The message carried it.
    FromMessage,
    /// It was fetched.
    Fetched,
    /// It was there already.
    AlreadyThere,
}

/// What came of the key that the message carried, `imported` being the number of keys
/// in it where it could be read. Nothing means that the key has yet to be fetched.
pub fn carried_key(imported: Option<usize>) -> (r: Option<KeyNews>)
    ensures
        r == (match imported {
            Some(n) => if n > 0 {
                Some(KeyNews::FromMessage)
            } else {
                None
            },
            None => None,
        }),
{
    match imported {
        Some(n) => if n > 0 {
            Some(KeyNews::FromMessage)
        } else {
            None
        },
        None => None,
    }
}

/// What came of fetching the key, `imported` being the number of keys that are new.
pub fn fetched_key(imported: usize) -> (r: KeyNews)
    ensures
        r == (if imported > 0 {
            KeyNews::Fetched
        } else {
            KeyNews::AlreadyThere
        }),
{
    if imported > 0 {
        KeyNews::Fetched
    } else {
        KeyNews::AlreadyThere
    }
}

/// Whether a key could not be trusted for want of a key of one's own to sign it with,
/// going by what the error says.
pub fn wants_own_key(error: &str) -> (r: bool)
    ensures
        r == (holds(error@, "secret key"@) || holds(error@, "default"@)),
{
    let s = chars_of(error);
    find_from(&s, &chars_of("secret key"), 0, s.len()).is_some() || find_from(
        &s,
        &chars_of("default"),
        0,
        s.len(),
    ).is_some()
}

} // verus!
