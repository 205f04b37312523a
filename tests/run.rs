use aqa_publisher::run::{
    exchange_url, fmt_duration, is_mainnet_setting, parse_signer_keys, retry_delay_secs,
    seconds_until_next_execution, summarize_votes,
};
use aqa_publisher::SofrError;

const KEY_A: &str = "0x1111111111111111111111111111111111111111111111111111111111111111";
const KEY_B: &str = "2222222222222222222222222222222222222222222222222222222222222222";

#[test]
fn retry_schedule() {
    assert_eq!(retry_delay_secs(1), Some(30));
    assert_eq!(retry_delay_secs(2), Some(60));
    assert_eq!(retry_delay_secs(3), None);
}

#[test]
fn next_execution() {
    assert_eq!(seconds_until_next_execution(0, 22), 22 * 3600);
    assert_eq!(seconds_until_next_execution(22 * 3600, 22), 86_400);
    assert_eq!(seconds_until_next_execution(23 * 3600, 22), 23 * 3600);
    assert_eq!(fmt_duration(3 * 3600 + 25 * 60 + 7), "3h 25m 7s");
    assert_eq!(fmt_duration(0), "0h 0m 0s");
}

#[test]
fn network_selection() {
    assert!(is_mainnet_setting(None));
    assert!(is_mainnet_setting(Some("mainnet")));
    assert!(is_mainnet_setting(Some("Testnet")));
    assert!(!is_mainnet_setting(Some("testnet")));
    assert_eq!(exchange_url(true), "https://api.hyperliquid.xyz/exchange");
    assert_eq!(exchange_url(false), "https://api.hyperliquid-testnet.xyz/exchange");
}

#[test]
fn vote_tally() {
    assert_eq!(summarize_votes(&vec![true, false, true]).unwrap(), (2, 1));
    assert!(matches!(summarize_votes(&vec![false, false]), Err(SofrError::AllVotesFailed)));
    assert!(matches!(summarize_votes(&vec![]), Err(SofrError::AllVotesFailed)));
}

#[test]
fn signer_keys() {
    let list = format!("{} , {}", KEY_A, KEY_B);
    let keys = parse_signer_keys(&list).unwrap();
    assert_eq!(keys, vec![vec![0x11u8; 32], vec![0x22u8; 32]]);
    assert!(matches!(parse_signer_keys(""), Err(SofrError::ConfigError)));
    assert!(matches!(parse_signer_keys(&format!("{},", KEY_A)), Err(SofrError::ConfigError)));
    assert!(matches!(parse_signer_keys("0x1234"), Err(SofrError::ConfigError)));
    let zero = "0".repeat(64);
    assert!(matches!(parse_signer_keys(&zero), Err(SofrError::ConfigError)));
    assert_eq!(parse_signer_keys(&KEY_B.to_uppercase()).unwrap(), vec![vec![0x22u8; 32]]);
}
