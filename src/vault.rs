use vstd::prelude::*;
use vstd::string::StrSliceExecFns;
use vstd::string::StringExecFns;
use vstd::utf8::{decode_utf8, encode_utf8, valid_utf8, encode_utf8_decode_utf8, encode_utf8_valid_utf8};
use crate::cipher::{opened, sealed, SecretCipher};
use crate::totp::{base32_key, secret_is_base32};
use crate::codec::{
    decode, decoded, encode, encoded, entries_view, record, valid_entries, valid_name,
    valid_secret, TotpEntry,
};
use crate::error::VaultError;

verus! {

broadcast use {encode_utf8_decode_utf8, encode_utf8_valid_utf8};

/// Relies on String::from_utf8: it fails exactly on bytes that are no UTF-8,
/// and otherwise holds the characters that they encode.
#[verifier::external_body]
fn string_from_utf8(bytes: Vec<u8>) -> (r: Option<String>)
    ensures
        r is Some <==> valid_utf8(bytes@),
        r matches Some(s) ==> s@ == decode_utf8(bytes@),
{
    match String::from_utf8(bytes) {
        Ok(s) => Some(s),
        Err(_) => None,
    }
}

/// The bytes of the vault's plaintext for a list of entries.
pub open spec fn blob_of(es: Seq<(Seq<char>, Seq<char>)>) -> Seq<u8> {
    encode_utf8(encoded(es))
}

/// The entries that a decrypted plaintext holds; `None` where it is no UTF-8
/// or a line holds no `:`.
pub open spec fn entries_of(plain: Seq<u8>) -> Option<Seq<(Seq<char>, Seq<char>)>> {
    if valid_utf8(plain) {
        decoded(decode_utf8(plain))
    } else {
        None
    }
}

/// The entries that a decrypted plaintext holds.
pub fn read_entries(plain: Vec<u8>) -> (r: Result<Vec<TotpEntry>, VaultError>)
    ensures
        !valid_utf8(plain@) ==> r is Err && r->Err_0 == VaultError::MalformedRecord,
        valid_utf8(plain@) ==> match decoded(decode_utf8(plain@)) {
            Some(es) => r is Ok && entries_view(r->Ok_0@) == es,
            None => r is Err && r->Err_0 == VaultError::MalformedRecord,
        },
{
    match string_from_utf8(plain) {
        Some(text) => decode(text.as_str()),
        None => Err(VaultError::MalformedRecord),
    }
}

/// Opens the vault's file contents under a passphrase. An empty file is a
/// fresh vault: it holds no entries, and nothing is decrypted.
pub fn open_vault(passphrase: &str, file: &Vec<u8>) -> (r: Result<Vec<TotpEntry>, VaultError>)
    ensures
        file@.len() == 0 ==> r is Ok && r->Ok_0@.len() == 0,
        file@.len() > 0 ==> match opened(passphrase@, file@) {
            None => r is Err && r->Err_0 == VaultError::WrongPassphrase,
            Some(plain) => match entries_of(plain) {
                Some(es) => r is Ok && entries_view(r->Ok_0@) == es,
                None => r is Err && r->Err_0 == VaultError::MalformedRecord,
            },
        },
        forall|es: Seq<(Seq<char>, Seq<char>)>|
            file@.len() > 0 && valid_entries(es) && file@ == sealed(passphrase@, #[trigger] blob_of(es))
                ==> r is Ok && entries_view(r->Ok_0@) == es,
        r is Err ==> file@.len() > 0 && (r->Err_0 == VaultError::WrongPassphrase || r->Err_0
            == VaultError::MalformedRecord),
{
    if file.len() == 0 {
        return Ok(Vec::new());
    }
    let key = SecretCipher::derive_key(passphrase);
    let plain = key.decrypt(file.as_slice())?;
    proof {
        assert forall|es: Seq<(Seq<char>, Seq<char>)>|
            valid_entries(es) && file@ == sealed(passphrase@, #[trigger] blob_of(es))
            implies decoded(decode_utf8(plain@)) == Some(es) by {
            crate::codec::lemma_decode_encode(es);
        }
    }
    read_entries(plain)
}

/// The file contents that store the entries under a passphrase.
pub fn seal_vault(passphrase: &str, entries: &Vec<TotpEntry>) -> (r: Vec<u8>)
    ensures
        r@ == sealed(passphrase@, blob_of(entries_view(entries@))),
        r@.len() > 0,
{
    let key = SecretCipher::derive_key(passphrase);
    let text = encode(entries);
    let plain = text.as_str().as_bytes_vec();
    key.encrypt(plain.as_slice())
}

/// Tells whether a name can be stored: no `:` and no line break.
pub fn name_is_valid(name: &str) -> (r: bool)
    ensures
        r == valid_name(name@),
        name@.contains(':') ==> !r,
{
    let n = name.unicode_len();
    let mut i: usize = 0;
    while i < n
        invariant
            n == name@.len(),
            i <= n,
            forall|k: int| 0 <= k < i ==> name@[k] != ':' && name@[k] != '\n',
        decreases n - i,
    {
        let c = name.get_char(i);
        if c == ':' || c == '\n' {
            proof {
                assert(name@.contains(c));
            }
            return false;
        }
        i = i + 1;
    }
    true
}

/// Tells whether a secret can be stored: no line break.
pub fn secret_is_valid(secret: &str) -> (r: bool)
    ensures
        r == valid_secret(secret@),
{
    let n = secret.unicode_len();
    let mut i: usize = 0;
    while i < n
        invariant
            n == secret@.len(),
            i <= n,
            forall|k: int| 0 <= k < i ==> secret@[k] != '\n',
        decreases n - i,
    {
        if secret.get_char(i) == '\n' {
            proof {
                assert(secret@.contains(secret@[i as int]));
            }
            return false;
        }
        i = i + 1;
    }
    true
}

/// Adds one entry to the vault's file contents: its record is appended to
/// the plaintext, which is encrypted anew. A name with `:` or a line break,
/// or a secret with a line break, and then a secret that is no Base32 key,
/// are refused before the vault is touched; so are contents that do not
/// decrypt under the passphrase.
pub fn add_entry(passphrase: &str, file: &Vec<u8>, name: &str, secret: &str) -> (r: Result<
    Vec<u8>,
    VaultError,
>)
    ensures
        name@.contains(':') ==> r is Err && r->Err_0 == VaultError::InvalidEntry,
        !(valid_name(name@) && valid_secret(secret@)) ==> r is Err && r->Err_0
            == VaultError::InvalidEntry,
        valid_name(name@) && valid_secret(secret@) && base32_key(secret@) is None ==> r is Err
            && r->Err_0 == VaultError::InvalidSecret,
        valid_name(name@) && valid_secret(secret@) && base32_key(secret@) is Some && file@.len()
            == 0 ==> r is Ok && r->Ok_0@ == sealed(passphrase@, encode_utf8(record(name@, secret@))),
        valid_name(name@) && valid_secret(secret@) && base32_key(secret@) is Some && file@.len()
            > 0 ==> match opened(passphrase@, file@) {
            None => r is Err && r->Err_0 == VaultError::WrongPassphrase,
            Some(b) => r is Ok && r->Ok_0@ == sealed(
                passphrase@,
                b + encode_utf8(record(name@, secret@)),
            ),
        },
        forall|b: Seq<u8>|
            valid_name(name@) && valid_secret(secret@) && base32_key(secret@) is Some && file@.len()
                > 0 && file@ == #[trigger] sealed(passphrase@, b) ==> r is Ok && r->Ok_0@ == sealed(
                passphrase@,
                b + encode_utf8(record(name@, secret@)),
            ),
        r is Ok ==> r->Ok_0@.len() > 0,
        r is Err ==> r->Err_0 == VaultError::InvalidEntry || r->Err_0 == VaultError::InvalidSecret
            || (file@.len() > 0 && r->Err_0 == VaultError::WrongPassphrase),
{
    if !name_is_valid(name) || !secret_is_valid(secret) {
        return Err(VaultError::InvalidEntry);
    }
    if !secret_is_base32(secret) {
        return Err(VaultError::InvalidSecret);
    }
    let key = SecretCipher::derive_key(passphrase);
    let mut plain = if file.len() == 0 {
        Vec::new()
    } else {
        key.decrypt(file.as_slice())?
    };
    let ghost old_plain = plain@;
    let mut line = String::new();
    line.append(name);
    line.append(":");
    line.append(secret);
    line.append("\n");
    proof {
        reveal_strlit(":");
        reveal_strlit("\n");
        assert(line@ =~= record(name@, secret@));
    }
    let mut bytes = line.as_str().as_bytes_vec();
    plain.append(&mut bytes);
    proof {
        if file@.len() == 0 {
            assert(plain@ =~= encode_utf8(record(name@, secret@)));
        }
    }
    Ok(key.encrypt(plain.as_slice()))
}

proof fn lemma_encode_utf8_concat(a: Seq<char>, b: Seq<char>)
    ensures
        encode_utf8(a + b) == encode_utf8(a) + encode_utf8(b),
    decreases a.len(),
{
    if a.len() == 0 {
        assert(a + b =~= b);
        assert(encode_utf8(a) + encode_utf8(b) =~= encode_utf8(b));
    } else {
        assert((a + b).drop_first() =~= a.drop_first() + b);
        assert((a + b)[0] == a[0]);
        lemma_encode_utf8_concat(a.drop_first(), b);
        assert(encode_utf8(a + b) =~= encode_utf8(a) + encode_utf8(b));
    }
}

/// Adding an entry to a stored list stores the longer list: the plaintext
/// that `add_entry` encrypts for a list's plaintext is that of the list with
/// the entry at its end, and it decodes to that list.
pub proof fn lemma_add_to_stored(es: Seq<(Seq<char>, Seq<char>)>, e: (Seq<char>, Seq<char>))
    requires
        valid_entries(es),
        valid_name(e.0),
        valid_secret(e.1),
    ensures
        blob_of(es) + encode_utf8(record(e.0, e.1)) == blob_of(es.push(e)),
        decoded(decode_utf8(blob_of(es.push(e)))) == Some(es.push(e)),
{
    crate::codec::lemma_encoded_push(es, e);
    lemma_encode_utf8_concat(encoded(es), record(e.0, e.1));
    let longer = es.push(e);
    assert(valid_entries(longer)) by {
        assert forall|i: int| 0 <= i < longer.len() implies valid_name(#[trigger] longer[i].0)
            && valid_secret(longer[i].1) by {
            if i < es.len() {
                assert(longer[i] == es[i]);
            }
        }
    }
    crate::codec::lemma_decode_encode(longer);
}

} // verus!
