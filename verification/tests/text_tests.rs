use solana_rpc_cluster::error::ProxyError;
use solana_rpc_cluster::names::NameMap;
use solana_rpc_cluster::net::{IpAddr, IpSet};
use solana_rpc_cluster::text::{
    begins_with, holds_word, join, memchr_find, split_on, to_decimal, trim,
};

#[test]
fn needles_are_found_anywhere() {
    assert!(memchr_find(b"abcdef", b"abc"));
    assert!(memchr_find(b"abcdef", b"def"));
    assert!(memchr_find(b"abcdef", b"abcdef"));
    assert!(!memchr_find(b"abcdef", b"abd"));
    assert!(!memchr_find(b"ab", b"abc"));
    assert!(!memchr_find(b"abc", b""));
    assert!(holds_word("a sendTransaction b".as_bytes(), "sendTransaction"));
}

#[test]
fn text_is_trimmed_split_and_joined() {
    assert_eq!(trim(" \u{a0}\u{3000}x y\n"), "x y");
    assert_eq!(trim("  "), "");
    assert_eq!(split_on("a,,b", ','), vec!["a", "", "b"]);
    assert_eq!(split_on("", ','), vec![""]);
    assert_eq!(join(&vec!["1".to_string(), "2".to_string(), "3".to_string()], ", "), "1, 2, 3");
    assert_eq!(join(&Vec::new(), ", "), "");
    assert_eq!(to_decimal(0), "0");
    assert_eq!(to_decimal(u64::MAX), "18446744073709551615");
    assert!(begins_with("schlüssel", "schlü"));
    assert!(!begins_with("sch", "schl"));
}

#[test]
fn proxy_errors_have_their_texts() {
    assert_eq!(ProxyError::Unauthorized.message(), "Unauthorized");
    assert_eq!(ProxyError::RateLimited { is_tps: true }.message(), "TPS rate limit exceeded");
    assert_eq!(ProxyError::RateLimited { is_tps: false }.message(), "RPS rate limit exceeded");
    assert_eq!(ProxyError::UpstreamError("x".to_string()).message(), "Upstream error: x");
    assert_eq!(ProxyError::NoHealthyNodes.message(), "No healthy upstream nodes");
    assert_eq!(ProxyError::AllUpstreamsFailed.message(), "All upstream nodes failed");
    assert_eq!(ProxyError::BodyTooLarge.message(), "Request body too large");
    assert_eq!(ProxyError::InvalidRequest("x".to_string()).message(), "Invalid request: x");
    assert_eq!(ProxyError::Internal("x".to_string()).message(), "Internal error: x");
}

#[test]
fn name_map_keeps_one_value_per_name() {
    let mut m: NameMap<u32> = NameMap::new();
    assert!(m.is_empty());
    m.insert("a".to_string(), 1);
    m.insert("b".to_string(), 2);
    m.insert("a".to_string(), 3);
    assert_eq!(m.get("a"), Some(&3));
    assert_eq!(m.get("b"), Some(&2));
    assert_eq!(m.entries.len(), 2);
    assert!(m.remove("a"));
    assert!(!m.remove("a"));
    assert!(!m.contains("a"));
    assert!(m.contains("b"));
}

#[test]
fn addresses_of_both_versions_are_told_apart() {
    let mut s = IpSet::new();
    s.insert(IpAddr::V4(7));
    assert!(s.contains(&IpAddr::V4(7)));
    assert!(!s.contains(&IpAddr::V6(7)));
    s.insert(IpAddr::V6(7));
    assert_eq!(s.to_vec().len(), 2);
    s.remove(&IpAddr::V4(7));
    assert_eq!(s.to_vec(), vec![IpAddr::V6(7)]);
    assert_eq!(IpAddr::from_key(IpAddr::V4(u32::MAX).key()), IpAddr::V4(u32::MAX));
    assert_eq!(IpAddr::from_key(IpAddr::V6(1).key()), IpAddr::V6(1));
}
