use vstd::prelude::*;

verus! {

/// Every way in which an operation on the vault can fail.
#[derive(Debug, Clone, Copy, PartialEq, Eq, Structural)]
pub enum VaultError {
    /// The stored blob is no ciphertext of this passphrase.
    WrongPassphrase,
    /// A decrypted line holds no `:` delimiter, or the blob is not UTF-8.
    MalformedRecord,
    /// A secret is no Base32 key: it is refused when added, and fails when
    /// its code is made.
    InvalidSecret,
    /// A name holds the delimiter or a line break, or a secret a line break.
    InvalidEntry,
    /// There is nothing to display.
    EmptyVault,
}

impl VaultError {
    /// The status with which the program stops on this error: every error is
    /// fatal and reported with status 1.
    pub fn exit_code(&self) -> (r: i32)
        ensures
            r == 1,
    {
        1
    }
}

} // verus!
