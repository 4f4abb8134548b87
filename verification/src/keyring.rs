//! The keyring that encrypts the log at rest, and the cell that holds it.

use arc_swap::ArcSwapOption;
use std::sync::Arc;
use vstd::prelude::*;

verus! {

/// The version that a keyring stamps when none was provisioned.
pub const INITIAL_WAL_KEY_VERSION: u32 = 1;

/// The handle under which the encryption layer keeps a cipher.
#[derive(Debug, Clone, Copy, PartialEq, Eq, Structural)]
pub struct CipherHandle(pub u64);

/// A keyring: the cipher that new segments are written with, and the key
/// version that they are stamped with. A rotation moves on to the next
/// generation; the ciphers of earlier ones stay with the encryption layer, which
/// finds the cipher of a segment by the version that it is stamped with.
#[derive(Debug, Clone, Copy, PartialEq, Eq, Structural)]
pub struct WalKeyring {
    pub cipher: CipherHandle,
    pub version: u32,
}

impl WalKeyring {
    /// A keyring of one generation, at the initial version.
    pub fn single(cipher: CipherHandle) -> (keyring: Self)
        ensures
            keyring == (WalKeyring { cipher, version: 1 }),
    {
        WalKeyring { cipher, version: INITIAL_WAL_KEY_VERSION }
    }

    /// A keyring of one generation, at a provisioned version.
    pub fn single_versioned(cipher: CipherHandle, version: u32) -> (keyring: Self)
        ensures
            keyring == (WalKeyring { cipher, version }),
    {
        WalKeyring { cipher, version }
    }
}

/// The keyring that a log starts with: none without a cipher, and else one at
/// the provisioned version, if there is one.
pub open spec fn initial_keyring(
    cipher: Option<CipherHandle>,
    version: Option<u32>,
) -> Option<WalKeyring> {
    match cipher {
        None => None,
        Some(cipher) => Some(
            WalKeyring {
                cipher,
                version: match version {
                    Some(v) => v,
                    None => 1,
                },
            },
        ),
    }
}

/// Build the keyring that a log starts with.
pub fn build_initial_keyring(cipher: Option<CipherHandle>, version: Option<u32>) -> (keyring:
    Option<WalKeyring>)
    ensures
        keyring == initial_keyring(cipher, version),
{
    match cipher {
        None => None,
        Some(cipher) => match version {
            Some(v) => Some(WalKeyring::single_versioned(cipher, v)),
            None => Some(WalKeyring::single(cipher)),
        },
    }
}

/// A cell that holds at most one keyring, swapped as a whole.
#[verifier::external_body]
pub struct KeyringCell {
    cell: ArcSwapOption<WalKeyring>,
}

/// The keyring that a [`KeyringCell`] holds.
pub uninterp spec fn keyring_in(cell: KeyringCell) -> Option<WalKeyring>;

impl KeyringCell {
    /// Makes an `arc_swap::ArcSwapOption` with its `From` implementation. The
    /// claim is that the new cell holds the value that it was made from.
    #[verifier::external_body]
    pub(crate) fn new(keyring: Option<WalKeyring>) -> (cell: Self)
        ensures
            keyring_in(cell) == keyring,
    {
        KeyringCell { cell: ArcSwapOption::from(keyring.map(Arc::new)) }
    }

    /// Calls `load_full` of `arc_swap::ArcSwapOption`. The claim is that it
    /// returns the value that the cell holds.
    #[verifier::external_body]
    pub(crate) fn load(&self) -> (keyring: Option<WalKeyring>)
        ensures
            keyring == keyring_in(*self),
    {
        self.cell.load_full().map(|keyring| *keyring)
    }

    /// Calls `store` of `arc_swap::ArcSwapOption`. The claim is that the cell
    /// holds the new value afterwards.
    #[verifier::external_body]
    pub(crate) fn store(&mut self, keyring: Option<WalKeyring>)
        ensures
            keyring_in(*final(self)) == keyring,
    {
        self.cell.store(keyring.map(Arc::new));
    }
}

} // verus!
