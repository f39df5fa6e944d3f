use ggok::release::{
    asset_filename, asset_url, is_newer, latest_page_url, parse_latest_tag, parse_repo,
    parse_version, sha256sums_url, version_string, ReleaseError,
};
use ggok::version::{cache_hit, version_view, CacheHit};

#[test]
fn versions_parse_and_print() {
    let v = parse_version(" v1.2.3-rc.1 ").unwrap();
    assert_eq!((v.major, v.minor, v.patch), (1, 2, 3));
    assert_eq!(v.pre.as_deref(), Some("rc.1"));
    assert_eq!(version_string(&v), "1.2.3-rc.1");
    assert_eq!(version_string(&parse_version("V0.10.0").unwrap()), "0.10.0");
    assert!(parse_version("1.2").is_err());
    assert!(parse_version("latest").is_err());
    assert!(parse_version("1.2.3+build").is_err());
    assert!(parse_version("1.2.3-").is_err());
    assert_eq!(parse_version("x.y.z").err(), Some(ReleaseError::InvalidVersion));
}

#[test]
fn newer_versions() {
    assert!(is_newer("v1.2.4", "1.2.3"));
    assert!(!is_newer("1.2.3", "1.2.3"));
    assert!(!is_newer("1.2.3-rc.1", "1.2.3"));
    assert!(is_newer("1.2.3", "1.2.3-rc.1"));
    assert!(!is_newer("1.2.3-rc.10", "1.2.3-rc.9"));
    assert!(!is_newer("garbage", "1.0.0"));
    assert!(is_newer("2.0.0", "1.99.99") && !is_newer("1.99.99", "2.0.0"));
}

#[test]
fn release_urls() {
    assert_eq!(asset_filename("0.3.0", "linux", "amd64"), "ggok_0.3.0_linux_amd64.tar.gz");
    assert_eq!(
        asset_url("v0.3.0", "linux", "amd64", None).unwrap(),
        "https://github.com/jjdufu/ggok/releases/download/v0.3.0/ggok_0.3.0_linux_amd64.tar.gz"
    );
    assert_eq!(asset_url("0.3.0", "windows", "amd64", None), Err(ReleaseError::UnsupportedOs));
    assert_eq!(asset_url("0.3.0", "linux", "x86", None), Err(ReleaseError::UnsupportedArch));
    assert_eq!(asset_url("bad", "linux", "amd64", None), Err(ReleaseError::InvalidVersion));
    assert_eq!(
        sha256sums_url("0.3.0", Some("me/fork")).unwrap(),
        "https://github.com/me/fork/releases/download/v0.3.0/SHA256SUMS"
    );
    assert_eq!(latest_page_url(None).unwrap(), "https://github.com/jjdufu/ggok/releases/latest");
}

#[test]
fn repositories() {
    assert_eq!(parse_repo(" owner/name ").unwrap(), "owner/name");
    assert_eq!(parse_repo(""), Err(ReleaseError::EmptyRepo));
    assert_eq!(parse_repo("owner/name.git"), Err(ReleaseError::RepoEndsWithGit));
    assert_eq!(parse_repo("o/.git"), Err(ReleaseError::RepoEndsWithGit));
    assert_eq!(parse_repo(" O/N.GIT "), Err(ReleaseError::RepoEndsWithGit));
    assert_eq!(parse_repo("o/git").unwrap(), "o/git");
    assert_eq!(parse_repo("a/b/c"), Err(ReleaseError::NotOwnerName));
    assert_eq!(parse_repo("a/b c"), Err(ReleaseError::InvalidRepo));
    assert_eq!(parse_repo("../b"), Err(ReleaseError::InvalidRepo));
}

#[test]
fn latest_tags() {
    assert_eq!(parse_latest_tag("https://github.com/jjdufu/ggok/releases/tag/v0.4.1/").unwrap(), "0.4.1");
    assert_eq!(parse_latest_tag("  "), Err(ReleaseError::EmptyLatestUrl));
    assert_eq!(parse_latest_tag("https://github.com/x/y/releases/latest"), Err(ReleaseError::NotReleaseTag));
    assert_eq!(parse_latest_tag("https://github.com/x/y/releases/tag/nope"), Err(ReleaseError::InvalidVersion));
}

#[test]
fn version_payload_and_cache() {
    let v = version_view("0.1.0", Some("v0.2.0"));
    assert_eq!(v.version, "0.1.0");
    assert_eq!(v.latest.as_deref(), Some("v0.2.0"));
    assert!(v.update_available);
    assert!(!version_view("0.2.0", Some("0.2.0")).update_available);
    assert!(!version_view("0.2.0", None).update_available);
    assert!(matches!(cache_hit(None), CacheHit::Miss));
    assert!(matches!(cache_hit(Some((1000, Some("0.2.0")))), CacheHit::FreshOk(ref s) if s == "0.2.0"));
    assert!(matches!(cache_hit(Some((61_000, Some("0.2.0")))), CacheHit::StaleOk));
    assert!(matches!(cache_hit(Some((1000, None))), CacheHit::FreshErr));
    assert!(matches!(cache_hit(Some((16_000, None))), CacheHit::Miss));
}
