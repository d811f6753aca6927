use oxideauth::{
    add_entry, codes_at, decode, encode, name_is_valid, next_frame, open_vault, read_entries,
    remaining_seconds, seal_vault, secret_is_base32, secret_is_valid, totp_code, SecretCipher, TotpEntry,
    VaultError,
};

const RFC_SECRET: &str = "GEZDGNBVGY3TQOJQGEZDGNBVGY3TQOJQ";

fn entry(name: &str, secret: &str) -> TotpEntry {
    TotpEntry { name: name.to_string(), secret: secret.to_string() }
}

fn pairs(v: &[TotpEntry]) -> Vec<(String, String)> {
    v.iter().map(|e| (e.name.clone(), e.secret.clone())).collect()
}

#[test]
fn encode_writes_records_in_order() {
    let es = vec![entry("github", "JBSWY3DPEHPK3PXP"), entry("mail", "ABCDEF")];
    assert_eq!(encode(&es), "github:JBSWY3DPEHPK3PXP\nmail:ABCDEF\n");
}

#[test]
fn encode_of_nothing_is_empty() {
    assert_eq!(encode(&vec![]), "");
}

#[test]
fn decode_reverses_encode() {
    let es = vec![entry("a", "b"), entry("", ""), entry("x y", "s:t")];
    let back = decode(&encode(&es)).unwrap();
    assert_eq!(pairs(&back), pairs(&es));
}

#[test]
fn decode_splits_at_first_delimiter() {
    let back = decode("a:b:c").unwrap();
    assert_eq!(pairs(&back), vec![("a".to_string(), "b:c".to_string())]);
}

#[test]
fn decode_empty_is_empty() {
    assert!(decode("").unwrap().is_empty());
}

#[test]
fn decode_line_without_delimiter_fails() {
    assert_eq!(decode("a:b\nnodelim\n").err(), Some(VaultError::MalformedRecord));
    assert_eq!(decode("a:b\n\nc:d\n").err(), Some(VaultError::MalformedRecord));
}

#[test]
fn read_entries_refuses_bad_utf8() {
    assert_eq!(read_entries(vec![0xff, b':', b'\n']).err(), Some(VaultError::MalformedRecord));
    let v = read_entries(b"n:s\n".to_vec()).unwrap();
    assert_eq!(pairs(&v), vec![("n".to_string(), "s".to_string())]);
}

#[test]
fn cipher_round_trip() {
    let key = SecretCipher::derive_key("pass phrase");
    let plain = b"github:JBSWY3DPEHPK3PXP\n".to_vec();
    let c = key.encrypt(&plain);
    assert_ne!(c, plain);
    assert_eq!(c.len(), 32);
    assert_eq!(key.decrypt(&c).unwrap(), plain);
    let again = SecretCipher::derive_key("pass phrase");
    assert_eq!(again.encrypt(&plain), c);
}

#[test]
fn cipher_round_trip_empty_plaintext() {
    let key = SecretCipher::derive_key("");
    let c = key.encrypt(&[]);
    assert_eq!(c.len(), 16);
    assert_eq!(key.decrypt(&c).unwrap(), Vec::<u8>::new());
}

#[test]
fn wrong_passphrase_is_detected() {
    let c = SecretCipher::derive_key("right").encrypt(b"a:b\n");
    let r = SecretCipher::derive_key("wrong").decrypt(&c);
    assert_eq!(r.err(), Some(VaultError::WrongPassphrase));
}

#[test]
fn empty_file_opens_without_decrypting() {
    assert!(open_vault("anything", &vec![]).unwrap().is_empty());
    assert!(open_vault("", &vec![]).unwrap().is_empty());
}

#[test]
fn seal_then_open_gives_entries_back() {
    let es = vec![entry("one", "AAAA"), entry("two", "BBBB")];
    let file = seal_vault("pw", &es);
    assert!(!file.is_empty());
    assert_eq!(pairs(&open_vault("pw", &file).unwrap()), pairs(&es));
}

#[test]
fn totp_matches_reference_vectors() {
    assert_eq!(totp_code(RFC_SECRET, 59).unwrap(), "287082");
    assert_eq!(totp_code(RFC_SECRET, 1111111109).unwrap(), "081804");
    assert_eq!(totp_code(RFC_SECRET, 1111111111).unwrap(), "050471");
    assert_eq!(totp_code(RFC_SECRET, 1234567890).unwrap(), "005924");
    assert_eq!(totp_code(RFC_SECRET, 2000000000).unwrap(), "279037");
    assert_eq!(totp_code(RFC_SECRET, 20000000000).unwrap(), "353130");
}

#[test]
fn totp_of_standard_test_key() {
    let c = totp_code("JBSWY3DPEHPK3PXP", 1700000000).unwrap();
    assert_eq!(c.len(), 6);
    assert!(c.chars().all(|ch| ch.is_ascii_digit()));
    assert_eq!(totp_code("JBSWY3DPEHPK3PXP", 1699999980).unwrap(), c);
    assert_eq!(totp_code("JBSWY3DPEHPK3PXP", 1700000009).unwrap(), c);
}

#[test]
fn totp_refuses_bad_secret() {
    assert_eq!(totp_code("!!!", 0).err(), Some(VaultError::InvalidSecret));
}

#[test]
fn countdown_stays_in_window() {
    assert_eq!(remaining_seconds(0), 30);
    assert_eq!(remaining_seconds(1), 29);
    assert_eq!(remaining_seconds(29), 1);
    assert_eq!(remaining_seconds(59), 1);
    assert_eq!(remaining_seconds(60), 30);
    assert_eq!(remaining_seconds(1234567890), 30);
    assert_eq!(remaining_seconds(u64::MAX), 30 - u64::MAX % 30);
    for t in 0..200u64 {
        let r = remaining_seconds(t);
        assert!((1..=30).contains(&r));
    }
}

#[test]
fn delimiter_in_name_is_rejected() {
    assert!(!name_is_valid("git:hub"));
    assert!(!name_is_valid("git\nhub"));
    assert!(name_is_valid("github"));
    assert!(!secret_is_valid("AB\nCD"));
    assert!(secret_is_valid("AB:CD"));
    let r = add_entry("pw", &vec![], "git:hub", "JBSWY3DPEHPK3PXP");
    assert_eq!(r.err(), Some(VaultError::InvalidEntry));
    let r = add_entry("pw", &vec![], "github", "JBSW\nY3DP");
    assert_eq!(r.err(), Some(VaultError::InvalidEntry));
}

#[test]
fn fresh_vault_end_to_end() {
    let file = add_entry("pw", &vec![], "github", "JBSWY3DPEHPK3PXP").unwrap();
    let loaded = open_vault("pw", &file).unwrap();
    assert_eq!(pairs(&loaded), vec![("github".to_string(), "JBSWY3DPEHPK3PXP".to_string())]);
    let err = open_vault("wrong", &file).err().unwrap();
    assert_eq!(err, VaultError::WrongPassphrase);
    assert_eq!(err.exit_code(), 1);
}

#[test]
fn adding_appends_in_order() {
    let file = add_entry("pw", &vec![], "a", "JBSWY3DPEHPK3PXP").unwrap();
    let file = add_entry("pw", &file, "b", RFC_SECRET).unwrap();
    let loaded = open_vault("pw", &file).unwrap();
    assert_eq!(
        pairs(&loaded),
        vec![
            ("a".to_string(), "JBSWY3DPEHPK3PXP".to_string()),
            ("b".to_string(), RFC_SECRET.to_string())
        ]
    );
    let r = add_entry("other", &file, "c", "JBSWY3DPEHPK3PXP");
    assert_eq!(r.err(), Some(VaultError::WrongPassphrase));
}

#[test]
fn adding_refuses_non_base32_secret() {
    assert!(secret_is_base32("JBSWY3DPEHPK3PXP"));
    assert!(!secret_is_base32("not base32!"));
    let r = add_entry("pw", &vec![], "github", "not base32!");
    assert_eq!(r.err(), Some(VaultError::InvalidSecret));
    let file = add_entry("pw", &vec![], "github", "JBSWY3DPEHPK3PXP").unwrap();
    let r = add_entry("pw", &file, "bad", "!!!");
    assert_eq!(r.err(), Some(VaultError::InvalidSecret));
}

#[test]
fn opening_garbage_is_wrong_passphrase() {
    let garbage = vec![1u8, 2, 3, 4, 5];
    assert_eq!(open_vault("pw", &garbage).err(), Some(VaultError::WrongPassphrase));
    assert_eq!(
        add_entry("pw", &garbage, "a", "JBSWY3DPEHPK3PXP").err(),
        Some(VaultError::WrongPassphrase)
    );
}

#[test]
fn codes_follow_list_order() {
    let es = vec![entry("rfc", RFC_SECRET), entry("again", RFC_SECRET)];
    let codes = codes_at(&es, 59).unwrap();
    assert_eq!(codes, vec!["287082".to_string(), "287082".to_string()]);
    let bad = vec![entry("rfc", RFC_SECRET), entry("bad", "!!!")];
    assert_eq!(codes_at(&bad, 59).err(), Some(VaultError::InvalidSecret));
}

#[test]
fn frame_decisions() {
    assert_eq!(next_frame(&vec![], true, 0).err(), Some(VaultError::EmptyVault));
    let es = vec![entry("rfc", RFC_SECRET)];
    let f = next_frame(&es, true, 59).unwrap();
    assert_eq!(f.codes, Some(vec!["287082".to_string()]));
    assert_eq!(f.remaining, 1);
    assert!(f.window_ends);
    let g = next_frame(&es, false, 45).unwrap();
    assert!(g.codes.is_none());
    assert_eq!(g.remaining, 15);
    assert!(!g.window_ends);
    let bad = vec![entry("bad", "!!!")];
    assert_eq!(next_frame(&bad, true, 0).err(), Some(VaultError::InvalidSecret));
    assert!(next_frame(&bad, false, 0).is_ok());
}
