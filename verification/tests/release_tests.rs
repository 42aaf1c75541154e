use update_manifest::error::UpdateError;
use update_manifest::release::{
    bearer, is_not_found_status, releases_url, select_latest_available, user_agent, ReleaseAsset,
    ReleasesData,
};

fn asset(name: &str, url: &str) -> ReleaseAsset {
    ReleaseAsset { name: name.to_string(), browser_download_url: url.to_string() }
}

fn release(tag: &str, draft: bool, prerelease: bool, assets: Vec<ReleaseAsset>) -> ReleasesData {
    ReleasesData {
        tag_name: tag.to_string(),
        name: format!("Release {tag}"),
        draft,
        prerelease,
        published_at: "2024-01-01T00:00:00Z".to_string(),
        assets,
    }
}

#[test]
fn available_is_false_for_draft() {
    let r = release("v1.0.0", true, false, vec![asset("a.zip", "u")]);
    assert!(!r.available());
}

#[test]
fn available_is_false_for_prerelease() {
    let r = release("v1.0.0", false, true, vec![asset("a.zip", "u")]);
    assert!(!r.available());
}

#[test]
fn available_is_false_for_empty_assets() {
    let r = release("v1.0.0", false, false, vec![]);
    assert!(!r.available());
}

#[test]
fn available_is_true_otherwise() {
    let r = release("v1.0.0", false, false, vec![asset("a.zip", "u")]);
    assert!(r.available());
}

#[test]
fn selects_first_available_release() {
    let releases = vec![
        release("v2.0.0", false, false, vec![asset("a.zip", "u")]),
        release("v1.9.0", false, false, vec![asset("b.zip", "u")]),
    ];
    let i = select_latest_available(&releases).unwrap();
    assert_eq!(i, 0);
    assert_eq!(releases[i].tag_name, "v2.0.0");
}

#[test]
fn skips_unavailable_releases() {
    let releases = vec![
        release("v2.1.0", true, false, vec![asset("a.zip", "u")]),
        release("v2.0.0", false, true, vec![asset("a.zip", "u")]),
        release("v1.9.0", false, false, vec![]),
        release("v1.8.0", false, false, vec![asset("c.zip", "u")]),
    ];
    let i = select_latest_available(&releases).unwrap();
    assert_eq!(i, 3);
    assert_eq!(releases[i].tag_name, "v1.8.0");
}

#[test]
fn empty_release_list_is_a_typed_error() {
    let releases: Vec<ReleasesData> = vec![];
    assert_eq!(select_latest_available(&releases).unwrap_err(), UpdateError::NoAvailableRelease);
}

#[test]
fn all_unavailable_is_a_typed_error() {
    let releases = vec![
        release("v2.0.0", true, false, vec![asset("a.zip", "u")]),
        release("v1.9.0", false, false, vec![]),
    ];
    assert_eq!(select_latest_available(&releases).unwrap_err(), UpdateError::NoAvailableRelease);
}

#[test]
fn builds_releases_endpoint_url() {
    assert_eq!(
        releases_url("octo", "updater"),
        "https://api.github.com/repos/octo/updater/releases"
    );
}

#[test]
fn builds_user_agent_and_bearer() {
    assert_eq!(user_agent("0.1.0"), "RustRuntime/0.1.0");
    assert_eq!(bearer("sometoken"), "Bearer sometoken");
}

#[test]
fn recognizes_not_found_status() {
    assert!(is_not_found_status(404));
    assert!(!is_not_found_status(200));
    assert!(!is_not_found_status(500));
}

#[test]
fn no_available_release_description() {
    assert_eq!(UpdateError::NoAvailableRelease.describe(), "no available release");
}
