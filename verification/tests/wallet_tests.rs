use aeroe::wallet::{
    CommandKind, Commands, NockchainTxStatus, Note, SyncDecision, TransactionEntry, Wallet,
    WalletApp,
};

fn note(first: &str, last: &str, assets: &str) -> Note {
    Note {
        first: first.to_string(),
        last: last.to_string(),
        assets: assets.to_string(),
    }
}

fn loaded_wallet(balance: u64) -> Wallet {
    let mut w = Wallet::new("drafts".to_string());
    w.set_wallet_name("main".to_string());
    w.apply_master_pubkey("PUBKEY".to_string());
    w.set_balance(balance);
    w
}

#[test]
fn update_records_height_and_requests_resync() {
    let mut w = Wallet::new("drafts".to_string());
    assert_eq!(w.get_block_height(), None);
    let d = w.update(5, 1_000);
    assert_eq!(d, SyncDecision::Resync);
    assert_eq!(w.get_block_height(), Some(5));
}

#[test]
fn update_same_height_is_idempotent() {
    let mut w = Wallet::new("drafts".to_string());
    let d1 = w.update(7, 1_000);
    assert_eq!(d1, SyncDecision::Resync);
    w.mark_synced(1_000);
    // Second notification with the same height: no resync, no change.
    let d2 = w.update(7, 2_000);
    assert_eq!(d2, SyncDecision::Unchanged);
    let d3 = w.update(7, 50_000);
    assert_eq!(d3, SyncDecision::Unchanged);
}

#[test]
fn update_throttles_within_quiescence_window() {
    let mut w = Wallet::new("drafts".to_string());
    assert_eq!(w.update(1, 1_000), SyncDecision::Resync);
    w.mark_synced(1_000);
    // A different height inside the 20 s window is recorded but deferred.
    assert_eq!(w.update(2, 5_000), SyncDecision::Deferred);
    assert_eq!(w.get_block_height(), Some(2));
    // Past the window, a new height resyncs again.
    assert_eq!(w.update(3, 21_001), SyncDecision::Resync);
}

#[test]
fn coin_selection_picks_largest_first() {
    let w = loaded_wallet(100);
    let txs = vec![TransactionEntry { recipient: "alice-addr".to_string(), amount: 5 }];
    let notes = vec![note("n5f", "n5l", "5"), note("n3f", "n3l", "3"), note("n2f", "n2l", "2")];
    // required = 5 + fee 1 = 6: the greedy pick is [5, 3], totalling 8.
    let plan = w
        .create_tx(txs, 1, notes, "d1".to_string(), 42)
        .unwrap();
    let picked: Vec<u64> = plan.selected.iter().map(|nv| nv.value).collect();
    assert_eq!(picked, vec![5, 3]);
    match plan.command {
        Commands::AeroeSpend { names, recipients, gifts, fee, file_path } => {
            assert_eq!(names, "[n5f n5l],[n3f n3l]");
            assert_eq!(recipients, "[1 alice-addr]");
            assert_eq!(gifts, "5");
            assert_eq!(fee, 1);
            assert_eq!(file_path, "drafts/main/d1.draft");
        }
        other => panic!("expected a spend command, got {:?}", other),
    }
    assert_eq!(plan.draft.metadata.draft_id, "d1");
    assert_eq!(plan.draft.metadata.created_at, "42");
    assert!(matches!(plan.draft.metadata.status, NockchainTxStatus::Draft));
}

#[test]
fn coin_selection_insufficient_notes_beats_stale_balance() {
    // The cached balance says 100, but the notes only carry 4.
    let w = loaded_wallet(100);
    let txs = vec![TransactionEntry { recipient: "r".to_string(), amount: 5 }];
    let notes = vec![note("a", "b", "3"), note("c", "d", "1")];
    let err = w.create_tx(txs, 1, notes, "d1".to_string(), 0).unwrap_err();
    assert_eq!(err, "insufficient funds in available notes");
}

#[test]
fn coin_selection_skips_unparseable_notes_and_reads_separators() {
    let w = loaded_wallet(2_000);
    let txs = vec![TransactionEntry { recipient: "r".to_string(), amount: 900 }];
    let notes = vec![
        note("bad", "bad", "5x"),
        note("big", "big", "1.000"),
        note("small", "small", "7"),
    ];
    let plan = w.create_tx(txs, 100, notes, "d".to_string(), 0).unwrap();
    let picked: Vec<u64> = plan.selected.iter().map(|nv| nv.value).collect();
    // "1.000" parses as 1000 (separators dropped), "5x" is skipped.
    assert_eq!(picked, vec![1000]);
}

#[test]
fn create_tx_rejections() {
    let w = loaded_wallet(10);
    let err = w
        .create_tx(vec![], 1, vec![], "d".to_string(), 0)
        .unwrap_err();
    assert_eq!(err, "no transactions");
    let txs = || vec![TransactionEntry { recipient: "r".to_string(), amount: 5 }];
    let err = w.create_tx(txs(), 0, vec![], "d".to_string(), 0).unwrap_err();
    assert_eq!(err, "fee is 0");
    let err = w.create_tx(txs(), 6, vec![], "d".to_string(), 0).unwrap_err();
    assert_eq!(err, "spending amount is greater than balance");
    let mut unloaded = Wallet::new("drafts".to_string());
    let err = unloaded
        .create_tx(txs(), 1, vec![], "d".to_string(), 0)
        .unwrap_err();
    assert_eq!(err, "balance is not set");
    unloaded.set_balance(10);
    // balance is set but no wallet name: selection succeeds, naming fails
    let err = unloaded
        .create_tx(txs(), 1, vec![note("a", "b", "9")], "d".to_string(), 0)
        .unwrap_err();
    assert_eq!(err, "wallet name is not set");
}

#[test]
fn draft_lifecycle_is_monotonic() {
    let mut w = loaded_wallet(100);
    let txs = vec![TransactionEntry { recipient: "r".to_string(), amount: 5 }];
    let notes = vec![note("a", "b", "9")];
    let plan = w.create_tx(txs, 1, notes, "d1".to_string(), 7).unwrap();
    let meta = w.register_draft(plan.draft);
    assert!(matches!(meta.status, NockchainTxStatus::Draft));

    let id = "d1".to_string();
    // Broadcasting before signing fails.
    let err = w.send_tx_request(&id).unwrap_err();
    assert_eq!(err, "draft not signed");

    // Signing points the kernel at the unsigned artifact and the signed target.
    match w.sign_tx_request(&id).unwrap() {
        Commands::SignAeroeTx { draft, index, file_path } => {
            assert_eq!(draft, "drafts/main/d1.draft");
            assert_eq!(index, None);
            assert_eq!(file_path, "drafts/main/d1.signed");
        }
        other => panic!("expected a sign command, got {:?}", other),
    }
    let meta = w.mark_signed(&id, 8).unwrap();
    assert!(matches!(meta.status, NockchainTxStatus::Signed));
    assert_eq!(meta.signed_at, Some("8".to_string()));

    // Broadcasting a signed draft uses the signed artifact.
    match w.send_tx_request(&id).unwrap() {
        Commands::MakeTx { draft } => assert_eq!(draft, "drafts/main/d1.signed"),
        other => panic!("expected a broadcast command, got {:?}", other),
    }
    let meta = w.mark_broadcast(&id, 9).unwrap();
    assert!(matches!(meta.status, NockchainTxStatus::Pending));
    assert_eq!(meta.broadcasted_at, Some("9".to_string()));

    // A pending draft never regresses.
    assert_eq!(w.sign_tx_request(&id).unwrap_err(), "draft already broadcast");
    assert_eq!(w.mark_signed(&id, 10).unwrap_err(), "draft already broadcast");
    assert_eq!(w.send_tx_request(&id).unwrap_err(), "draft already broadcast");

    let listed = w.list_unsent_txs();
    assert_eq!(listed.len(), 1);
    assert!(matches!(listed[0].status, NockchainTxStatus::Pending));
}

#[test]
fn draft_unknown_id_fails() {
    let w = loaded_wallet(10);
    assert_eq!(
        w.sign_tx_request(&"nope".to_string()).unwrap_err(),
        "draft not found"
    );
    assert_eq!(
        w.send_tx_request(&"nope".to_string()).unwrap_err(),
        "draft not found"
    );
}

#[test]
fn wallet_name_scoping() {
    let w = loaded_wallet(10);
    assert!(w.check_wallet_name(&"main".to_string()).is_ok());
    assert_eq!(
        w.check_wallet_name(&"other".to_string()).unwrap_err(),
        "wallet name mismatch"
    );
    let fresh = Wallet::new("drafts".to_string());
    assert_eq!(
        fresh.check_wallet_name(&"main".to_string()).unwrap_err(),
        "wallet name mismatch"
    );
    assert_eq!(w.get_active_wallet(), Some("main".to_string()));
    assert_eq!(fresh.get_active_wallet(), None);
}

#[test]
fn wallet_getters_and_requests() {
    let mut w = Wallet::new("drafts".to_string());
    assert_eq!(w.get_balance().unwrap_err(), "balance is not set");
    assert_eq!(
        w.get_master_pubkey().unwrap_err(),
        "master pubkey is not set"
    );
    assert_eq!(
        w.update_state_request().unwrap_err(),
        "wallet is not loaded"
    );
    assert_eq!(
        w.peek_master_pubkey_request().unwrap_err(),
        "wallet is not loaded"
    );
    assert_eq!(w.peek_balance_request().unwrap_err(), "wallet is not loaded");
    w.set_wallet_name("main".to_string());
    assert_eq!(
        w.peek_balance_request().unwrap_err(),
        "master pubkey is not set"
    );
    w.apply_master_pubkey("PK".to_string());
    match w.peek_balance_request().unwrap() {
        Commands::PeekBalance { pubkey } => assert_eq!(pubkey, "PK"),
        other => panic!("unexpected command {:?}", other),
    }
    match w.peek_notes_request().unwrap() {
        Commands::PeekNotes { pubkey } => assert_eq!(pubkey, "PK"),
        other => panic!("unexpected command {:?}", other),
    }
    w.set_balance(77);
    assert_eq!(w.get_balance().unwrap(), 77);
    assert_eq!(w.get_master_pubkey().unwrap(), "PK");
    assert!(matches!(w.update_state_request().unwrap(), Commands::UpdateState));
    assert!(matches!(w.peek_seedphrase_request(), Commands::PeekSeedphrase));
    assert!(matches!(w.keygen_request(), Commands::Keygen));
    match w.gen_master_privkey_request("some seed".to_string()) {
        Commands::GenMasterPrivkey { seedphrase } => assert_eq!(seedphrase, "some seed"),
        other => panic!("unexpected command {:?}", other),
    }
}

#[test]
fn command_kinds() {
    assert_eq!(
        WalletApp::command_kind(&Commands::PeekSeedphrase),
        CommandKind::Peek
    );
    assert_eq!(
        WalletApp::command_kind(&Commands::PeekBalance { pubkey: "pk".to_string() }),
        CommandKind::Peek
    );
    assert_eq!(WalletApp::command_kind(&Commands::Keygen), CommandKind::Poke);
    assert_eq!(
        WalletApp::command_kind(&Commands::MakeTx { draft: "d".to_string() }),
        CommandKind::Poke
    );
    assert_eq!(
        WalletApp::command_kind(&Commands::UpdateState),
        CommandKind::Poke
    );
}
