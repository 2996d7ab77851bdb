use mintaka::types::VtIpReputation;
use mintaka::virustotal::{file_verdict, ip_reputation, process_vt_report, throttle_wait, VtCacheData, VtClient, MIN_INTERVAL_SECS};

fn client() -> VtClient {
    VtClient::new("test-key".to_string(), None, VtCacheData::new())
}

fn reputation(ip: &str, votes: u32) -> VtIpReputation {
    VtIpReputation { ip: ip.to_string(), malicious_votes: votes, harmless_votes: 0, country: None, owner: None }
}

#[test]
fn cache_gives_back_what_was_stored() {
    let mut c = VtCacheData::new();
    assert_eq!(c.file_entry("aa"), None);
    c.insert_file("aa".to_string(), (3, 70));
    c.insert_file("bb".to_string(), (0, 70));
    assert_eq!(c.file_entry("aa"), Some((3, 70)));
    c.insert_file("aa".to_string(), (5, 71));
    assert_eq!(c.file_entry("aa"), Some((5, 71)));
    assert_eq!(c.file_entry("bb"), Some((0, 70)));
    assert_eq!(c.file_entries().len(), 2);
    c.insert_ip("8.8.8.8".to_string(), reputation("8.8.8.8", 2));
    assert_eq!(c.ip_entry("8.8.8.8").map(|r| r.malicious_votes), Some(2));
    assert_eq!(c.ip_entries().len(), 1);
    assert_eq!(c.file_entry("8.8.8.8"), None);
}

#[test]
fn verdict_sums_engines() {
    assert_eq!(file_verdict(Some(3), Some(50), Some(1), Some(10)), (4, 64));
    assert_eq!(file_verdict(None, None, None, None), (0, 0));
    assert_eq!(file_verdict(Some(2), None, None, Some(5)), (2, 7));
}

#[test]
fn verdict_counts_wrap_at_32_bits() {
    assert_eq!(file_verdict(Some(u32::MAX as u64), None, Some(1), None), (0, 0));
    assert_eq!(file_verdict(Some((1u64 << 32) + 7), None, None, None), (7, 7));
}

#[test]
fn ip_reputation_takes_votes_and_attributes() {
    let r = ip_reputation("1.2.3.4", Some(4), Some(60), Some("US".to_string()), None);
    assert_eq!(r.ip, "1.2.3.4");
    assert_eq!(r.malicious_votes, 4);
    assert_eq!(r.harmless_votes, 60);
    assert_eq!(r.country, Some("US".to_string()));
    assert_eq!(r.owner, None);
}

#[test]
fn file_reply_is_read_and_cached() {
    let mut c = client();
    let body = r#"{"data":{"attributes":{"last_analysis_stats":{"malicious":5,"harmless":40,"suspicious":2,"undetected":20}}}}"#;
    assert_eq!(c.record_file_reply("abc", body), Some((7, 67)));
    assert_eq!(c.cached_file_verdict("abc"), Some((7, 67)));
}

#[test]
fn file_reply_with_missing_stats_counts_zero() {
    let mut c = client();
    assert_eq!(c.record_file_reply("abc", r#"{"error":{"code":"NotFoundError"}}"#), Some((0, 0)));
}

#[test]
fn malformed_reply_changes_nothing() {
    let mut c = client();
    assert_eq!(c.record_file_reply("abc", "<html>rate limited</html>"), None);
    assert_eq!(c.cached_file_verdict("abc"), None);
    assert!(c.record_ip_reply("8.8.8.8", "not json").is_none());
    assert!(c.cached_ip_reputation("8.8.8.8").is_none());
}

#[test]
fn ip_reply_is_read_and_cached() {
    let mut c = client();
    let body = r#"{"data":{"attributes":{"country":"DE","as_owner":"Hetzner","last_analysis_stats":{"malicious":3,"harmless":70}}}}"#;
    let rep = c.record_ip_reply("5.9.1.1", body).unwrap();
    assert_eq!(rep.ip, "5.9.1.1");
    assert_eq!(rep.malicious_votes, 3);
    assert_eq!(rep.harmless_votes, 70);
    assert_eq!(rep.country, Some("DE".to_string()));
    assert_eq!(rep.owner, Some("Hetzner".to_string()));
    assert_eq!(c.cached_ip_reputation("5.9.1.1").map(|r| r.malicious_votes), Some(3));
}

#[test]
fn private_addresses_are_never_looked_up() {
    assert!(VtClient::ip_lookup_skipped("127.0.0.1"));
    assert!(VtClient::ip_lookup_skipped("10.1.2.3"));
    assert!(VtClient::ip_lookup_skipped("192.168.0.10"));
    assert!(VtClient::ip_lookup_skipped("0.0.0.0"));
    assert!(!VtClient::ip_lookup_skipped("172.16.0.1"));
    assert!(!VtClient::ip_lookup_skipped("8.8.8.8"));
    let mut cache = VtCacheData::new();
    cache.insert_ip("10.0.0.1".to_string(), reputation("10.0.0.1", 9));
    let c = VtClient::new("k".to_string(), None, cache);
    assert!(c.cached_ip_reputation("10.0.0.1").is_none());
}

#[test]
fn report_urls() {
    assert_eq!(VtClient::file_report_url("abc"), "https://www.virustotal.com/api/v3/files/abc");
    assert_eq!(VtClient::ip_report_url("1.1.1.1"), "https://www.virustotal.com/api/v3/ip_addresses/1.1.1.1");
}

#[test]
fn process_figures_come_from_the_cache() {
    let mut cache = VtCacheData::new();
    cache.insert_file("exe".to_string(), (12, 70));
    cache.insert_file("dll1".to_string(), (2, 70));
    cache.insert_file("dll2".to_string(), (0, 70));
    cache.insert_ip("8.8.8.8".to_string(), reputation("8.8.8.8", 1));
    cache.insert_ip("9.9.9.9".to_string(), reputation("9.9.9.9", 0));
    let c = VtClient::new("k".to_string(), None, cache);
    let dlls = vec!["dll1".to_string(), "dll2".to_string(), "dll3".to_string()];
    let ips = vec!["8.8.8.8".to_string(), "9.9.9.9".to_string(), "127.0.0.1".to_string()];
    let r = c.analyze_process_vt(Some("exe"), &dlls, &ips);
    assert_eq!((r.exe_positives, r.exe_total, r.malicious_dll_count, r.malicious_ip_count), (12, 70, 1, 1));
    let none = c.analyze_process_vt(None, &[], &[]);
    assert_eq!((none.exe_positives, none.exe_total, none.malicious_dll_count, none.malicious_ip_count), (0, 0, 0, 0));
}

#[test]
fn throttle_keeps_requests_apart() {
    assert_eq!(MIN_INTERVAL_SECS, 15);
    assert_eq!(throttle_wait(None, 15_000), 0);
    assert_eq!(throttle_wait(Some(4_000), 15_000), 11_000);
    assert_eq!(throttle_wait(Some(15_000), 15_000), 0);
    assert_eq!(throttle_wait(Some(90_000), 15_000), 0);
}

#[test]
fn client_keeps_its_key_and_interval() {
    let c = VtClient::new("key-123".to_string(), Some("/tmp/cache.json".to_string()), VtCacheData::new());
    assert_eq!(c.api_key(), "key-123");
    assert_eq!(c.cache_path(), Some("/tmp/cache.json"));
    assert_eq!(c.min_interval_secs(), 15);
}

#[test]
fn process_figures_count_each_lookup_result() {
    // the same module hash looked up twice: the first request failed, the second found positives
    let dlls = vec![None, Some((3, 70)), Some((0, 70))];
    let ips = vec![Some(reputation("8.8.8.8", 0)), None, Some(reputation("1.2.3.4", 2))];
    let r = process_vt_report(Some((12, 70)), &dlls, &ips);
    assert_eq!((r.exe_positives, r.exe_total, r.malicious_dll_count, r.malicious_ip_count), (12, 70, 1, 1));
    let none = process_vt_report(None, &[], &[]);
    assert_eq!((none.exe_positives, none.exe_total, none.malicious_dll_count, none.malicious_ip_count), (0, 0, 0, 0));
}
