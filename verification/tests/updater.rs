use nexa::updater::{
    cache_is_stale, is_newer, parse_version, snapshot_needs_update, title_sha, version_sha, UpdateCache,
    CACHE_TTL_SECS,
};
use std::time::{SystemTime, UNIX_EPOCH};

fn now_secs() -> u64 {
    SystemTime::now().duration_since(UNIX_EPOCH).map(|d| d.as_secs()).unwrap_or(0)
}

#[test]
fn semver_parsing() {
    assert_eq!(parse_version("v1.2.3"), Some((1, 2, 3)));
    assert_eq!(parse_version("0.10.0"), Some((0, 10, 0)));
    assert_eq!(parse_version("v2.0.0-beta.1"), Some((2, 0, 0)));
    assert_eq!(parse_version("invalid"), None);
    assert_eq!(parse_version(""), None);
}

#[test]
fn version_comparison() {
    assert!(is_newer("v0.2.0", "0.1.9"));
    assert!(is_newer("1.0.0", "0.99.99"));
    assert!(!is_newer("v0.1.0", "0.1.0"));
    assert!(!is_newer("v0.0.9", "0.1.0"));
}

#[test]
fn cache_staleness() {
    let now = now_secs();
    let fresh = UpdateCache { checked_at: now, channel: "stable".into(), ..Default::default() };
    assert!(!cache_is_stale(&fresh, "stable", now));

    let old = UpdateCache { checked_at: now - CACHE_TTL_SECS - 1, channel: "stable".into(), ..Default::default() };
    assert!(cache_is_stale(&old, "stable", now));

    // Wrong channel → stale
    assert!(cache_is_stale(&fresh, "snapshot", now));
}

#[test]
fn cache_exactly_at_ttl_is_fresh_and_never_checked_is_stale() {
    let at = UpdateCache { checked_at: 1000, channel: "stable".into(), ..Default::default() };
    assert!(!cache_is_stale(&at, "stable", 1000 + CACHE_TTL_SECS));
    assert!(cache_is_stale(&at, "stable", 1001 + CACHE_TTL_SECS));
    // a clock behind the check counts as no time passed
    assert!(!cache_is_stale(&at, "stable", 10));
    let never = UpdateCache { checked_at: 0, channel: "stable".into(), ..Default::default() };
    assert!(cache_is_stale(&never, "stable", 5));
}

#[test]
fn version_parsing_edges() {
    assert_eq!(parse_version("vv1.2.3"), Some((1, 2, 3)));
    assert_eq!(parse_version("1.2.3.4"), None);
    assert_eq!(parse_version("1.2"), None);
    assert_eq!(parse_version("+1.2.3"), Some((1, 2, 3)));
    assert_eq!(parse_version("1.2.4294967296"), None);
    assert_eq!(parse_version("1.2.4294967295"), Some((1, 2, 4294967295)));
    assert_eq!(parse_version("1..3"), None);
    assert!(!is_newer("garbage", "0.1.0"));
    assert!(is_newer("0.1.10", "0.1.9"));
}

#[test]
fn sha_extraction() {
    assert_eq!(version_sha("0.1.0-snapshot.abc1234"), Some("abc1234".to_string()));
    assert_eq!(version_sha("0.1.0-dev.abc1234"), Some("abc1234".to_string()));
    assert_eq!(version_sha("0.1.0"), None);
    assert_eq!(version_sha("0.1.0-beta"), None);
    assert_eq!(title_sha("Snapshot – 2026-04-03 10:00 UTC (abc1234)"), Some("abc1234".to_string()));
    assert_eq!(title_sha("Snapshot ( abc1234 )"), Some("abc1234".to_string()));
    assert_eq!(title_sha("no parens"), None);
    assert_eq!(title_sha("()"), None);
    assert_eq!(title_sha(") before ("), None);
}

#[test]
fn snapshot_update_decision() {
    assert!(snapshot_needs_update("0.1.0", "Snapshot (abc1234)"));
    assert!(snapshot_needs_update("0.1.0-snapshot.abc1234", "Snapshot"));
    assert!(snapshot_needs_update("0.1.0-snapshot.abc1234", "Snapshot (def5678)"));
    assert!(!snapshot_needs_update("0.1.0-snapshot.abc1234", "Snapshot (abc1234)"));
}

use nexa::updater::{check_for_update, GithubAsset, GithubRelease};

fn release(tag: &str, title: &str, assets: &[&str]) -> GithubRelease {
    GithubRelease {
        tag_name: tag.to_string(),
        name: title.to_string(),
        assets: assets
            .iter()
            .map(|a| GithubAsset { name: a.to_string(), browser_download_url: format!("https://dl/{a}") })
            .collect(),
    }
}

#[test]
fn stable_update_offered_when_newer_and_assets_present() {
    let rel = release("v0.3.0", "v0.3.0", &["nexa-linux-x86_64.tar.gz", "nexa-linux-x86_64.tar.gz.sha256"]);
    let info = check_for_update("stable", "0.2.9", Some("nexa-linux-x86_64.tar.gz"), Some(&rel)).unwrap();
    assert_eq!(info.version, "0.3.0");
    assert_eq!(info.download_url, "https://dl/nexa-linux-x86_64.tar.gz");
    assert_eq!(info.checksum_url, "https://dl/nexa-linux-x86_64.tar.gz.sha256");
}

#[test]
fn no_update_when_current_missing_asset_or_unsupported() {
    let rel = release("v0.3.0", "", &["a.zip", "a.zip.sha256"]);
    assert!(check_for_update("stable", "0.3.0", Some("a.zip"), Some(&rel)).is_none());
    assert!(check_for_update("stable", "0.1.0", Some("b.zip"), Some(&rel)).is_none());
    assert!(check_for_update("stable", "0.1.0", None, Some(&rel)).is_none());
    assert!(check_for_update("stable", "0.1.0", Some("a.zip"), None).is_none());
    let no_sum = release("v0.3.0", "", &["a.zip"]);
    assert!(check_for_update("stable", "0.1.0", Some("a.zip"), Some(&no_sum)).is_none());
}

#[test]
fn snapshot_update_named_after_build_hash() {
    let rel = release("snapshot", "Snapshot – 2026-04-03 10:00 UTC (def5678)", &["a.zip", "a.zip.sha256"]);
    let info = check_for_update("snapshot", "0.12.3-snapshot.abc1234", Some("a.zip"), Some(&rel)).unwrap();
    assert_eq!(info.version, "0.12.3-snapshot.def5678");
    assert!(check_for_update("snapshot", "0.12.3-snapshot.def5678", Some("a.zip"), Some(&rel)).is_none());
    let untitled = release("snapshot", "Snapshot", &["a.zip", "a.zip.sha256"]);
    let info = check_for_update("snapshot", "weird", Some("a.zip"), Some(&untitled)).unwrap();
    assert_eq!(info.version, "0.1.0-snapshot.latest");
}

#[test]
fn stale_cache_stays_stale_later() {
    let c = UpdateCache { checked_at: 100, channel: "stable".into(), ..Default::default() };
    let first = 100 + CACHE_TTL_SECS + 1;
    assert!(cache_is_stale(&c, "stable", first));
    for later in [first, first + 1, first + 1_000_000] {
        assert!(cache_is_stale(&c, "stable", later));
    }
}

use nexa::updater::{cached_update_available, refreshed_cache};

#[test]
fn cached_release_announced_only_when_newer_on_same_channel() {
    let c = UpdateCache { checked_at: 1, channel: "stable".into(), latest_version: "0.3.0".into(), ..Default::default() };
    assert!(cached_update_available(&c, "stable", "0.2.0"));
    assert!(!cached_update_available(&c, "stable", "0.3.0"));
    assert!(!cached_update_available(&c, "snapshot", "0.2.0"));
    let empty = UpdateCache { checked_at: 1, channel: "stable".into(), ..Default::default() };
    assert!(!cached_update_available(&empty, "stable", "0.0.1"));
    let snap = UpdateCache {
        checked_at: 1,
        channel: "snapshot".into(),
        latest_version: "0.1.0-snapshot.def".into(),
        ..Default::default()
    };
    assert!(cached_update_available(&snap, "snapshot", "0.1.0-snapshot.abc"));
    assert!(!cached_update_available(&snap, "snapshot", "0.9.0-snapshot.def"));
    assert!(cached_update_available(&snap, "snapshot", "0.1.0"));
}

#[test]
fn refreshed_cache_records_the_release() {
    let rel = release("v1.2.3", "", &["a.zip", "a.zip.sha256"]);
    let c = refreshed_cache("stable", 42, "a.zip", &rel);
    assert_eq!(c.checked_at, 42);
    assert_eq!(c.channel, "stable");
    assert_eq!(c.latest_version, "1.2.3");
    assert_eq!(c.download_url, "https://dl/a.zip");
    assert_eq!(c.checksum_url, "https://dl/a.zip.sha256");
    let no_sum = release("v1.2.3", "", &["a.zip"]);
    assert_eq!(refreshed_cache("stable", 42, "a.zip", &no_sum).checksum_url, "");
    let other = refreshed_cache("snapshot", 7, "b.zip", &rel);
    assert_eq!(other.latest_version, "");
    assert_eq!(other.download_url, "");
    assert_eq!(other.channel, "snapshot");
}
