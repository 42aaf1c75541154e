use update_manifest::platform::{
    entry_from_fetch, find_asset_with_suffix, new, platform_pattern_table, resolve_targets,
    str_ends_with,
};
use update_manifest::release::{ReleaseAsset, ReleasesData};

fn asset(name: &str, url: &str) -> ReleaseAsset {
    ReleaseAsset { name: name.to_string(), browser_download_url: url.to_string() }
}

fn release_with(assets: Vec<ReleaseAsset>) -> ReleasesData {
    ReleasesData {
        tag_name: "v1.0.0".to_string(),
        name: "Release One".to_string(),
        draft: false,
        prerelease: false,
        published_at: "2024-01-01T00:00:00Z".to_string(),
        assets,
    }
}

#[test]
fn builder_copies_signature_and_url() {
    let e = new("dW50cnVzdGVk", "https://example.invalid/app.tar.gz");
    assert_eq!(e.signature, "dW50cnVzdGVk");
    assert_eq!(e.url, "https://example.invalid/app.tar.gz");
}

#[test]
fn entry_from_failed_fetch_has_empty_signature() {
    let e = entry_from_fetch(None, "https://example.invalid/app.tar.gz");
    assert_eq!(e.signature, "");
    assert_eq!(e.url, "https://example.invalid/app.tar.gz");
}

#[test]
fn entry_from_successful_fetch_is_verbatim() {
    let e = entry_from_fetch(Some("SIG BODY\n".to_string()), "u");
    assert_eq!(e.signature, "SIG BODY\n");
}

#[test]
fn suffix_matching_is_end_anchored() {
    assert!(str_ends_with("App-x64_zh-TW.msi.zip", "x64_zh-TW.msi.zip"));
    assert!(!str_ends_with("x64_zh-TW.msi.zip.txt", "x64_zh-TW.msi.zip"));
    assert!(!str_ends_with("zip", "x64_zh-TW.msi.zip"));
    assert!(str_ends_with("x64_zh-TW.msi.zip", "x64_zh-TW.msi.zip"));
}

#[test]
fn suffix_matching_is_literal_not_pattern() {
    // the dots in the table suffixes match only a literal dot
    assert!(!str_ends_with("myappXtarYgz", "app.tar.gz"));
    assert!(str_ends_with("myapp.tar.gz", "app.tar.gz"));
}

#[test]
fn pattern_table_is_fixed_and_ordered() {
    let table = platform_pattern_table();
    assert_eq!(table.len(), 4);
    assert_eq!(table[0], ("x64_zh-TW.msi.zip", "windows-x86_64"));
    assert_eq!(table[1], ("x86_zh-TW.msi.zip", "windows-i686"));
    assert_eq!(table[2], ("amd64.AppImage.tar.gz", "linux-x86_64"));
    assert_eq!(table[3], ("app.tar.gz", "darwin-x86_64"));
}

#[test]
fn finds_first_matching_asset() {
    let assets = vec![
        asset("other.txt", "u0"),
        asset("first-app.tar.gz", "u1"),
        asset("second-app.tar.gz", "u2"),
    ];
    assert_eq!(find_asset_with_suffix(&assets, "app.tar.gz"), Some(1));
    assert_eq!(find_asset_with_suffix(&assets, "missing.zip"), None);
}

#[test]
fn resolves_windows_platform_with_signature() {
    let r = release_with(vec![
        asset("App-x64_zh-TW.msi.zip", "https://dl/App-x64_zh-TW.msi.zip"),
        asset("App-x64_zh-TW.msi.zip.sig", "https://dl/App-x64_zh-TW.msi.zip.sig"),
    ]);
    let targets = resolve_targets(&r);
    assert_eq!(targets.len(), 1);
    assert_eq!(targets[0].platform_id, "windows-x86_64");
    assert_eq!(targets[0].download_url, "https://dl/App-x64_zh-TW.msi.zip");
    assert_eq!(targets[0].sig_url, "https://dl/App-x64_zh-TW.msi.zip.sig");
}

#[test]
fn asset_without_signature_asset_yields_no_target() {
    let r = release_with(vec![asset("App-x64_zh-TW.msi.zip", "https://dl/a.zip")]);
    let targets = resolve_targets(&r);
    assert!(targets.is_empty());
}

#[test]
fn first_matching_asset_supplies_the_url() {
    let r = release_with(vec![
        asset("one-app.tar.gz", "https://dl/one"),
        asset("two-app.tar.gz", "https://dl/two"),
        asset("one-app.tar.gz.sig", "https://dl/one.sig"),
    ]);
    let targets = resolve_targets(&r);
    assert_eq!(targets.len(), 1);
    assert_eq!(targets[0].platform_id, "darwin-x86_64");
    assert_eq!(targets[0].download_url, "https://dl/one");
    assert_eq!(targets[0].sig_url, "https://dl/one.sig");
}

#[test]
fn resolves_multiple_platforms_in_table_order() {
    let r = release_with(vec![
        asset("app-amd64.AppImage.tar.gz", "https://dl/linux"),
        asset("app-amd64.AppImage.tar.gz.sig", "https://dl/linux.sig"),
        asset("App-x64_zh-TW.msi.zip", "https://dl/win"),
        asset("App-x64_zh-TW.msi.zip.sig", "https://dl/win.sig"),
    ]);
    let targets = resolve_targets(&r);
    assert_eq!(targets.len(), 2);
    assert_eq!(targets[0].platform_id, "windows-x86_64");
    assert_eq!(targets[1].platform_id, "linux-x86_64");
}
