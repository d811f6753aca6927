use vstd::prelude::*;
use magic_crypt::{MagicCrypt256, MagicCryptError, MagicCryptTrait};
use crate::error::VaultError;

verus! {

/// The ciphertext that magic_crypt's AES-256 cipher, keyed by a passphrase,
/// makes of a plaintext.
pub uninterp spec fn sealed(passphrase: Seq<char>, plain: Seq<u8>) -> Seq<u8>;

/// The plaintext that magic_crypt's AES-256 cipher, keyed by a passphrase,
/// recovers from bytes; `None` where it refuses them.
pub uninterp spec fn opened(passphrase: Seq<char>, ciphertext: Seq<u8>) -> Option<Seq<u8>>;

#[verifier::external_type_specification]
#[verifier::external_body]
pub struct ExMagicCryptError(MagicCryptError);

/// Relies on magic_crypt's MagicCrypt256::new (key: SHA-256 of the passphrase,
/// IV: zeros) and encrypt_bytes_to_bytes (CBC, PKCS7 padding): the output is
/// a function of passphrase and plaintext, in whole 16-byte blocks, one more
/// than the plaintext fills.
#[verifier::external_body]
fn encrypt_with(passphrase: &str, plain: &[u8]) -> (r: Vec<u8>)
    ensures
        r@ == sealed(passphrase@, plain@),
        r@.len() == 16 * (plain@.len() / 16 + 1),
{
    MagicCrypt256::new(passphrase, None::<String>).encrypt_bytes_to_bytes(plain)
}

/// Relies on magic_crypt's MagicCrypt256::new and decrypt_bytes_to_bytes: under
/// the same passphrase it undoes encrypt_bytes_to_bytes, and otherwise its
/// outcome depends on passphrase and bytes alone.
#[verifier::external_body]
fn decrypt_with(passphrase: &str, ciphertext: &[u8]) -> (r: Result<Vec<u8>, MagicCryptError>)
    ensures
        r is Ok <==> opened(passphrase@, ciphertext@) is Some,
        r matches Ok(v) ==> opened(passphrase@, ciphertext@) == Some(v@),
        forall|b: Seq<u8>|
            ciphertext@ == #[trigger] sealed(passphrase@, b) ==> (r is Ok && r->Ok_0@ == b),
{
    MagicCrypt256::new(passphrase, None::<String>).decrypt_bytes_to_bytes(ciphertext)
}

/// The symmetric key of a vault, derived from its passphrase alone.
pub struct SecretCipher {
    passphrase: String,
}

impl View for SecretCipher {
    type V = Seq<char>;

    closed spec fn view(&self) -> Seq<char> {
        self.passphrase@
    }
}

impl SecretCipher {
    /// The key of a passphrase: the same passphrase always gives the same key.
    pub fn derive_key(passphrase: &str) -> (k: SecretCipher)
        ensures
            k@ == passphrase@,
    {
        SecretCipher { passphrase: passphrase.to_owned() }
    }

    pub fn encrypt(&self, plain: &[u8]) -> (r: Vec<u8>)
        ensures
            r@ == sealed(self@, plain@),
            r@.len() > 0,
    {
        encrypt_with(self.passphrase.as_str(), plain)
    }

    /// Undoes `encrypt` under the same key; any failure is a wrong passphrase.
    pub fn decrypt(&self, ciphertext: &[u8]) -> (r: Result<Vec<u8>, VaultError>)
        ensures
            match opened(self@, ciphertext@) {
                Some(p) => r is Ok && r->Ok_0@ == p,
                None => r is Err && r->Err_0 == VaultError::WrongPassphrase,
            },
            forall|b: Seq<u8>|
                ciphertext@ == #[trigger] sealed(self@, b) ==> (r is Ok && r->Ok_0@ == b),
            r is Err ==> r->Err_0 == VaultError::WrongPassphrase,
    {
        match decrypt_with(self.passphrase.as_str(), ciphertext) {
            Ok(plain) => Ok(plain),
            Err(_) => Err(VaultError::WrongPassphrase),
        }
    }
}

} // verus!
