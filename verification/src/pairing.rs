//! Pairing with a host: the challenge ciphers, the identity of the client and the exchange.
use vstd::prelude::*;

use crate::error::{is_not_implemented, Error};

pub mod crypto;
pub mod exchange;
pub mod identity;
pub mod ladder;

pub use identity::ClientIdentity;
pub use ladder::PairingClient;

verus! {

/// The key material of a session.
#[derive(Debug, Clone, PartialEq, Eq)]
pub struct SessionKeys {
    pub ri_key: Vec<u8>,
    pub ri_iv: Vec<u8>,
}

/// Pair with the host at an address in one call. Not there yet.
pub fn pair(_address: &str) -> (r: Result<(), Error>)
    ensures
        r matches Err(e) && is_not_implemented(
            e,
            "pairing::pair"@,
            "protocol/02-pairing-and-crypto.md"@,
        ),
{
    Err(Error::NotImplemented("pairing::pair", "protocol/02-pairing-and-crypto.md"))
}

} // verus!
