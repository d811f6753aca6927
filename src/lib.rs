//! A password-encrypted vault of TOTP secrets: the record codec, the
//! passphrase cipher, code generation and the decisions of the live display.
pub mod error;
pub mod codec;
pub mod cipher;
pub mod totp;
pub mod vault;
pub mod display;

pub use cipher::SecretCipher;
pub use codec::{decode, encode, TotpEntry};
pub use display::{codes_at, next_frame, Frame};
pub use error::VaultError;
pub use totp::{remaining_seconds, secret_is_base32, totp_code};
pub use vault::{add_entry, name_is_valid, open_vault, read_entries, seal_vault, secret_is_valid};
