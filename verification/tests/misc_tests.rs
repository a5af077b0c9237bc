use aeroe::strutil::{join_strings, parse_dec_u64, replace_all, str_starts_with, u64_to_dec};
use aeroe::terms::{flag_from_file, parse_flag_content, TermsState};
use aeroe::updater::{DownloadProgress, UpdateInfo};
use aeroe::watcher::{liveness_restart, Watcher};

#[test]
fn decimal_rendering() {
    assert_eq!(u64_to_dec(0), "0");
    assert_eq!(u64_to_dec(7), "7");
    assert_eq!(u64_to_dec(1234567890123), "1234567890123");
    assert_eq!(u64_to_dec(u64::MAX), "18446744073709551615");
}

#[test]
fn decimal_parsing() {
    let chars = |s: &str| s.chars().collect::<Vec<char>>();
    assert_eq!(parse_dec_u64(&chars("0")), Some(0));
    assert_eq!(parse_dec_u64(&chars("1000")), Some(1000));
    assert_eq!(parse_dec_u64(&chars("18446744073709551615")), Some(u64::MAX));
    assert_eq!(parse_dec_u64(&chars("18446744073709551616")), None);
    assert_eq!(parse_dec_u64(&chars("")), None);
    assert_eq!(parse_dec_u64(&chars("12a")), None);
}

#[test]
fn string_helpers() {
    let parts = vec!["a".to_string(), "b".to_string(), "c".to_string()];
    assert_eq!(join_strings(&parts, ","), "a,b,c");
    assert_eq!(join_strings(&vec![], ","), "");
    assert_eq!(join_strings(&vec!["x".to_string()], ","), "x");
    assert_eq!(
        replace_all("w/a.draft.draft", ".draft", ".signed"),
        "w/a.signed.signed"
    );
    assert_eq!(replace_all("none here", ".draft", ".signed"), "none here");
    assert!(str_starts_with("worker17", "worker"));
    assert!(!str_starts_with("master", "worker"));
    assert!(!str_starts_with("work", "worker"));
}

#[test]
fn flag_files_parse_tolerantly() {
    assert_eq!(parse_flag_content("true"), Some(true));
    assert_eq!(parse_flag_content("  true\n"), Some(true));
    assert_eq!(parse_flag_content("false"), Some(false));
    assert_eq!(parse_flag_content("\tfalse \r\n"), Some(false));
    assert_eq!(parse_flag_content("True"), None);
    assert_eq!(parse_flag_content(""), None);
    assert_eq!(parse_flag_content("yes"), None);

    // A missing or corrupt file counts as unaccepted and asks for a rewrite.
    assert_eq!(flag_from_file(Some("true")), (true, false));
    assert_eq!(flag_from_file(Some("garbage")), (false, true));
    assert_eq!(flag_from_file(None), (false, true));
}

#[test]
fn terms_state_accepts() {
    let mut t = TermsState::new(false, false);
    assert!(!t.is_terms_of_use_accepted());
    assert!(!t.is_privacy_policy_accepted());
    t.accept_terms_of_use();
    assert!(t.is_terms_of_use_accepted());
    assert!(!t.is_privacy_policy_accepted());
    t.accept_privacy_policy();
    assert!(t.is_privacy_policy_accepted());
    let restored = TermsState::new(true, false);
    assert!(restored.is_terms_of_use_accepted());
    assert!(!restored.is_privacy_policy_accepted());
}

#[test]
fn update_reports() {
    let info = UpdateInfo::new(true, "1.2.3".to_string());
    assert!(info.has_update);
    assert_eq!(info.update_version, "1.2.3");
    let found = UpdateInfo::from_check(Some("2.0.0".to_string()));
    assert!(found.has_update);
    assert_eq!(found.update_version, "2.0.0");
    let none = UpdateInfo::from_check(None);
    assert!(!none.has_update);
    assert_eq!(none.update_version, "");
}

#[test]
fn download_progress_advances() {
    let p = DownloadProgress { downloaded: 0, total: 0 };
    let p = p.advanced(512, Some(4096));
    assert_eq!(p.downloaded, 512);
    assert_eq!(p.total, 4096);
    let p = p.advanced(512, None);
    assert_eq!(p.downloaded, 1024);
    assert_eq!(p.total, 0);
}

#[test]
fn watcher_restart_rule() {
    // Only a probe that failed with "no such process" restarts the daemon.
    assert!(liveness_restart(true, true));
    assert!(!liveness_restart(true, false));
    assert!(!liveness_restart(false, false));
    assert!(!liveness_restart(false, true));
}

#[test]
fn watcher_paths() {
    let w = Watcher::new("/data/wallet".to_string(), "/data".to_string());
    assert_eq!(w.wallet_dir(), "/data/wallet");
    assert_eq!(w.log_file(), "/data/watcher.log");
}
