use aeroe::kernel::{
    atom_text_bytes, atom_to_u64, peek_payload, split_ws_bytes, strip_nul_bytes, KernelValue,
};
use aeroe::status::{
    aeroe_status, parse_peek_command, peek_command_name, NockchainPeek, NockchainStatus,
};
use aeroe::wallet::{
    notes_payload_bytes, parse_balance, parse_master_pubkey, parse_seedphrase, Wallet,
};
use aeroe::vault::Keycrypt;

fn atom(bytes: &[u8]) -> KernelValue {
    KernelValue::Atom(bytes.to_vec())
}

fn wrapped(payload: KernelValue) -> KernelValue {
    // result wrapper around an option wrapper around the payload
    KernelValue::Cell(
        Box::new(atom(&[0])),
        Box::new(KernelValue::Cell(Box::new(atom(&[0])), Box::new(payload))),
    )
}

#[test]
fn peek_payload_strips_two_wrappers() {
    let v = wrapped(atom(&[7]));
    let payload = peek_payload(v).unwrap();
    assert!(matches!(payload, KernelValue::Atom(b) if b == vec![7]));
    assert_eq!(peek_payload(atom(&[1])).unwrap_err(), "invalid noun");
    let shallow = KernelValue::Cell(Box::new(atom(&[0])), Box::new(atom(&[0])));
    assert_eq!(peek_payload(shallow).unwrap_err(), "invalid noun");
}

#[test]
fn atoms_read_little_endian() {
    assert_eq!(atom_to_u64(&vec![]), Some(0));
    assert_eq!(atom_to_u64(&vec![0x39, 0x05]), Some(0x0539));
    assert_eq!(atom_to_u64(&vec![0, 0, 1]), Some(65536));
    assert_eq!(atom_to_u64(&vec![0xff; 8]), Some(u64::MAX));
    assert_eq!(atom_to_u64(&vec![0, 0, 0, 0, 0, 0, 0, 0, 1]), None);
}

#[test]
fn byte_helpers() {
    assert_eq!(strip_nul_bytes(&b"a\0b\0".to_vec()), b"ab".to_vec());
    assert_eq!(atom_text_bytes(&b"abc\0junk".to_vec()), b"abc".to_vec());
    assert_eq!(atom_text_bytes(&b"abc".to_vec()), b"abc".to_vec());
    let words = split_ws_bytes(&b"  one two\tthree\n".to_vec());
    assert_eq!(words, vec![b"one".to_vec(), b"two".to_vec(), b"three".to_vec()]);
}

#[test]
fn balance_reply_decodes() {
    let reply = vec![wrapped(atom(&[0x40, 0x42, 0x0f]))];
    assert_eq!(parse_balance(reply).unwrap(), 1_000_000);
    let reply = vec![wrapped(KernelValue::Cell(
        Box::new(atom(&[1])),
        Box::new(atom(&[2])),
    ))];
    assert_eq!(parse_balance(reply).unwrap_err(), "balance: noun is not an atom");
    let reply = vec![atom(&[1])];
    assert_eq!(parse_balance(reply).unwrap_err(), "invalid noun");
    let reply = vec![wrapped(atom(&[0, 0, 0, 0, 0, 0, 0, 0, 1]))];
    assert_eq!(
        parse_balance(reply).unwrap_err(),
        "balance: atom is not a valid i64"
    );
}

#[test]
fn pubkey_reply_decodes() {
    let reply = vec![wrapped(atom(b"3fPUBKEY\0\0\0"))];
    assert_eq!(parse_master_pubkey(reply).unwrap(), "3fPUBKEY");
    let reply = vec![wrapped(atom(&[0xff, 0xfe]))];
    assert_eq!(
        parse_master_pubkey(reply).unwrap_err(),
        "pubkey: pubkey atom bytes are not valid UTF-8"
    );
    let reply = vec![wrapped(KernelValue::Cell(
        Box::new(atom(&[1])),
        Box::new(atom(&[2])),
    ))];
    assert_eq!(
        parse_master_pubkey(reply).unwrap_err(),
        "pubkey: pubkey is not an atom"
    );
}

#[test]
fn seedphrase_reply_splits_words() {
    let reply = vec![wrapped(atom(b"correct horse battery staple\0\0\0"))];
    let words = parse_seedphrase(reply).unwrap();
    assert_eq!(
        words,
        vec![
            "correct".to_string(),
            "horse".to_string(),
            "battery".to_string(),
            "staple".to_string(),
        ]
    );
    let reply = vec![wrapped(KernelValue::Cell(
        Box::new(atom(&[1])),
        Box::new(atom(&[2])),
    ))];
    assert_eq!(
        parse_seedphrase(reply).unwrap_err(),
        "seedphrase: phrase is not an atom"
    );
}

#[test]
fn notes_reply_trims_padding() {
    let reply = vec![wrapped(atom(b"[{\"first\":\"a\"}]\0\0pad"))];
    assert_eq!(notes_payload_bytes(reply).unwrap(), b"[{\"first\":\"a\"}]".to_vec());
    let reply = vec![atom(&[9])];
    assert_eq!(notes_payload_bytes(reply).unwrap_err(), "invalid noun");
}

#[test]
fn peek_names_round_trip() {
    for p in [
        NockchainPeek::Height,
        NockchainPeek::HeavySummary,
        NockchainPeek::Transactions,
    ] {
        let name = peek_command_name(p);
        assert_eq!(parse_peek_command(&name), Some(p));
    }
    assert_eq!(peek_command_name(NockchainPeek::Height), "height");
    assert_eq!(peek_command_name(NockchainPeek::HeavySummary), "heavy-summary");
    assert_eq!(peek_command_name(NockchainPeek::Transactions), "transactions");
    assert_eq!(parse_peek_command("nonsense"), None);
}

#[test]
fn status_height_reads_its_reply() {
    let s = NockchainStatus::new(NockchainPeek::Height, atom(&[0x10, 0x27]));
    assert_eq!(s.command(), &NockchainPeek::Height);
    assert_eq!(s.height().unwrap(), 10_000);
    let s = NockchainStatus::new(NockchainPeek::Transactions, atom(&[1]));
    assert_eq!(s.height().unwrap_err(), "not a height command");
    let s = NockchainStatus::new(
        NockchainPeek::Height,
        KernelValue::Cell(Box::new(atom(&[1])), Box::new(atom(&[2]))),
    );
    assert_eq!(s.height().unwrap_err(), "invalid noun, not an atom");
    let s = NockchainStatus::new(NockchainPeek::Height, atom(&[0, 0, 0, 0, 1]));
    assert_eq!(s.height().unwrap_err(), "invalid noun, not a valid u32");
}

#[test]
fn aeroe_status_reports_all_layers() {
    let mut vault = Keycrypt::with_kdf_cost(None, 8, 1);
    vault.create("pw".to_string()).unwrap();
    vault.add_wallet("alice".to_string(), "seed".to_string()).unwrap();
    let mut wallet = Wallet::new("drafts".to_string());
    wallet.set_wallet_name("alice".to_string());
    wallet.update(41, 0);
    let status = aeroe_status(&vault, &wallet, true, 2);
    assert!(status.vault_exists);
    assert!(status.vault_loaded);
    assert!(status.master_node_running);
    assert_eq!(status.block_height, Some(41));
    assert_eq!(status.num_miners, 2);
    assert_eq!(status.wallets, vec!["alice".to_string()]);
    assert_eq!(status.active_wallet, Some("alice".to_string()));
}
