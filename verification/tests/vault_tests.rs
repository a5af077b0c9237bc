use aeroe::vault::Keycrypt;
use base64::Engine;

// Small key-derivation costs so the memory-hard hash stays fast in tests;
// the format and the cipher are the real ones.
fn test_vault(stored: Option<String>) -> Keycrypt {
    Keycrypt::with_kdf_cost(stored, 8, 1)
}

#[test]
fn vault_round_trip() {
    let mut v = test_vault(None);
    assert!(!v.vault_exists());
    assert!(!v.is_loaded());
    v.create("hunter2".to_string()).unwrap();
    assert!(v.is_loaded());
    assert!(v.vault_exists());
    v.add_wallet("alice".to_string(), "seed words one".to_string()).unwrap();
    v.add_wallet("bob".to_string(), "other seed".to_string()).unwrap();
    let blob = v.stored_blob().unwrap().clone();

    let mut w = test_vault(Some(blob));
    assert!(w.vault_exists());
    assert!(!w.is_loaded());
    w.load("hunter2".to_string()).unwrap();
    assert!(w.is_loaded());
    let mut names = w.get_wallets();
    names.sort();
    assert_eq!(names, vec!["alice".to_string(), "bob".to_string()]);
    assert_eq!(w.get_seedphrase("alice".to_string()).unwrap(), "seed words one");
    assert_eq!(w.get_seedphrase("bob".to_string()).unwrap(), "other seed");
}

#[test]
fn vault_round_trip_many_entries_exact() {
    let entries = [
        ("wallet-c", "seed charlie"),
        ("wallet-a", "seed alpha"),
        ("wallet-b", "tab\tand\nnewline"),
        ("wallet-d", ""),
    ];
    let mut v = test_vault(None);
    v.create("pass".to_string()).unwrap();
    for (name, secret) in entries {
        v.add_wallet(name.to_string(), secret.to_string()).unwrap();
    }
    let blob = v.stored_blob().unwrap().clone();
    let mut w = test_vault(Some(blob));
    w.load("pass".to_string()).unwrap();
    // Exactly the inserted map comes back: no entry missing, none added,
    // each secret under its own name, regardless of enumeration order.
    let mut names = w.get_wallets();
    names.sort();
    let mut expected: Vec<String> = entries.iter().map(|(n, _)| n.to_string()).collect();
    expected.sort();
    assert_eq!(names, expected);
    for (name, secret) in entries {
        assert_eq!(w.get_seedphrase(name.to_string()).unwrap(), secret);
    }
}

#[test]
fn vault_round_trip_tabs_and_newlines() {
    let mut v = test_vault(None);
    v.create("pw".to_string()).unwrap();
    v.add_wallet("tab\tname".to_string(), "multi\nline\tsecret".to_string()).unwrap();
    let blob = v.stored_blob().unwrap().clone();
    let mut w = test_vault(Some(blob));
    w.load("pw".to_string()).unwrap();
    assert_eq!(w.get_wallets(), vec!["tab\tname".to_string()]);
    assert_eq!(
        w.get_seedphrase("tab\tname".to_string()).unwrap(),
        "multi\nline\tsecret"
    );
}

#[test]
fn vault_wrong_passphrase_fails_and_stays_locked() {
    let mut v = test_vault(None);
    v.create("right".to_string()).unwrap();
    v.add_wallet("w".to_string(), "s".to_string()).unwrap();
    let blob = v.stored_blob().unwrap().clone();
    let mut w = test_vault(Some(blob));
    let err = w.load("wrong".to_string()).unwrap_err();
    assert_eq!(err, "Decryption failed: wrong password or corrupted file");
    assert!(!w.is_loaded());
    assert!(w.get_wallets().is_empty());
}

#[test]
fn vault_blob_is_framed_and_sealed() {
    let mut v = test_vault(None);
    v.create("pw".to_string()).unwrap();
    v.add_wallet("alice".to_string(), "seed".to_string()).unwrap();
    let blob = v.stored_blob().unwrap().clone();
    let bytes = base64::engine::general_purpose::STANDARD
        .decode(&blob)
        .expect("stored blob is valid base64");
    assert_eq!(&bytes[..8], b"79CLOVER");
    // magic(8) + salt(16) + nonce(24) + ciphertext(plaintext + 16-byte tag)
    let plaintext = "alice\tseed";
    assert_eq!(bytes.len(), 48 + plaintext.len() + 16);
    // the ciphertext is not the plaintext
    assert_ne!(&bytes[48..48 + plaintext.len()], plaintext.as_bytes());
}

#[test]
fn vault_fresh_salt_and_nonce_each_write() {
    let mut a = test_vault(None);
    a.create("pw".to_string()).unwrap();
    let blob1 = a.stored_blob().unwrap().clone();
    let mut b = test_vault(None);
    b.create("pw".to_string()).unwrap();
    let blob2 = b.stored_blob().unwrap().clone();
    assert_ne!(blob1, blob2);
    let d1 = base64::engine::general_purpose::STANDARD.decode(&blob1).unwrap();
    let d2 = base64::engine::general_purpose::STANDARD.decode(&blob2).unwrap();
    assert_ne!(&d1[8..24], &d2[8..24], "salts must differ");
    assert_ne!(&d1[24..48], &d2[24..48], "nonces must differ");
}

#[test]
fn vault_guards() {
    let mut v = test_vault(None);
    let err = v.add_wallet("a".to_string(), "s".to_string()).unwrap_err();
    assert_eq!(err, "Vault not loaded");
    let err = v.get_seedphrase("a".to_string()).unwrap_err();
    assert_eq!(err, "Vault not loaded");
    v.create("pw".to_string()).unwrap();
    v.add_wallet("a".to_string(), "s".to_string()).unwrap();
    let err = v.add_wallet("a".to_string(), "s2".to_string()).unwrap_err();
    assert_eq!(err, "Wallet a already exists");
    let err = v.get_seedphrase("missing".to_string()).unwrap_err();
    assert_eq!(err, "Wallet missing not found");
}

#[test]
fn vault_load_errors() {
    let mut none = test_vault(None);
    assert_eq!(
        none.load("pw".to_string()).unwrap_err(),
        "Failed to read encrypted file"
    );
    let mut bad64 = test_vault(Some("!!!not-base64!!!".to_string()));
    assert_eq!(bad64.load("pw".to_string()).unwrap_err(), "Base64 decoding failed");
    let short = base64::engine::general_purpose::STANDARD.encode(b"1234");
    let mut shortv = test_vault(Some(short));
    assert_eq!(
        shortv.load("pw".to_string()).unwrap_err(),
        "File too short or corrupted (missing header)"
    );
    let badmagic = base64::engine::general_purpose::STANDARD.encode(b"WRONGMAG-and-some-more-bytes-here-to-pass-length");
    let mut badv = test_vault(Some(badmagic));
    assert_eq!(
        badv.load("pw".to_string()).unwrap_err(),
        "Invalid file format or wrong version"
    );
    let nosalt = base64::engine::general_purpose::STANDARD.encode(b"79CLOVERxx");
    let mut nosaltv = test_vault(Some(nosalt));
    assert_eq!(
        nosaltv.load("pw".to_string()).unwrap_err(),
        "File too short or corrupted (missing salt)"
    );
    let nononce = base64::engine::general_purpose::STANDARD.encode(b"79CLOVER0123456789abcdef");
    let mut nononcev = test_vault(Some(nononce));
    assert_eq!(
        nononcev.load("pw".to_string()).unwrap_err(),
        "File too short or corrupted (missing nonce)"
    );
}

#[test]
fn vault_create_resets_entries() {
    let mut v = test_vault(None);
    v.create("pw".to_string()).unwrap();
    v.add_wallet("a".to_string(), "s".to_string()).unwrap();
    v.create("pw2".to_string()).unwrap();
    assert!(v.get_wallets().is_empty());
}

#[test]
fn vault_codec_escape_round_trip() {
    let escaped = aeroe::vault::escape_text("a\tb\nc");
    assert_eq!(escaped, "a\\tb\\nc");
    let back = aeroe::vault::unescape_text(&escaped);
    assert_eq!(back, "a\tb\nc");
}

#[test]
fn vault_codec_parse_lines() {
    let entries = aeroe::vault::parse_entries("alice\tseed one\nbob\tseed two\njunk-no-tab\n");
    let pairs: Vec<(String, String)> = entries
        .iter()
        .map(|e| (e.name.clone(), e.secret.clone()))
        .collect();
    assert_eq!(
        pairs,
        vec![
            ("alice".to_string(), "seed one".to_string()),
            ("bob".to_string(), "seed two".to_string()),
        ]
    );
    assert!(aeroe::vault::parse_entries("").is_empty());
}
