use update_manifest::json::{manifest_from_json, manifest_to_json};
use update_manifest::manifest::{assemble, assemble_manifest, finish_platforms, Manifest};
use update_manifest::platform::{resolve_targets, PlatformEntry};
use update_manifest::release::{ReleaseAsset, ReleasesData};

fn asset(name: &str, url: &str) -> ReleaseAsset {
    ReleaseAsset { name: name.to_string(), browser_download_url: url.to_string() }
}

fn release(tag: &str, name: &str, assets: Vec<ReleaseAsset>) -> ReleasesData {
    ReleasesData {
        tag_name: tag.to_string(),
        name: name.to_string(),
        draft: false,
        prerelease: false,
        published_at: "2024-02-03T04:05:06Z".to_string(),
        assets,
    }
}

fn entry(signature: &str, url: &str) -> PlatformEntry {
    PlatformEntry { signature: signature.to_string(), url: url.to_string() }
}

#[test]
fn manifest_version_is_the_selected_tag() {
    let r = release("v2.0.0", "Two", vec![asset("a-app.tar.gz", "u")]);
    let m = assemble(&r, None, vec![]);
    assert_eq!(m.version, "v2.0.0");
    assert_ne!(m.version, "v1.9.0");
    assert_eq!(m.pub_date, "2024-02-03T04:05:06Z");
}

#[test]
fn notes_fall_back_to_release_name() {
    let r = release("v2.0.0", "Release Two", vec![]);
    let m = assemble(&r, None, vec![]);
    assert_eq!(m.notes, "Release Two");
}

#[test]
fn notes_override_wins() {
    let r = release("v2.0.0", "Release Two", vec![]);
    let m = assemble(&r, Some("See the changelog".to_string()), vec![]);
    assert_eq!(m.notes, "See the changelog");
}

#[test]
fn failed_signature_fetch_still_emits_the_platform() {
    let r = release(
        "v1.2.3",
        "One",
        vec![
            asset("App-x64_zh-TW.msi.zip", "https://dl/win.zip"),
            asset("App-x64_zh-TW.msi.zip.sig", "https://dl/win.zip.sig"),
        ],
    );
    let targets = resolve_targets(&r);
    let platforms = finish_platforms(&targets, &vec![None]);
    assert_eq!(platforms.len(), 1);
    assert_eq!(platforms[0].0, "windows-x86_64");
    assert_eq!(platforms[0].1.signature, "");
    assert_eq!(platforms[0].1.url, "https://dl/win.zip");
}

#[test]
fn fetched_signature_is_used_verbatim() {
    let r = release(
        "v1.2.3",
        "One",
        vec![
            asset("App-x64_zh-TW.msi.zip", "https://dl/win.zip"),
            asset("App-x64_zh-TW.msi.zip.sig", "https://dl/win.zip.sig"),
        ],
    );
    let targets = resolve_targets(&r);
    let m = assemble_manifest(&r, None, &targets, &vec![Some("SIGDATA==".to_string())]);
    assert_eq!(m.platforms.len(), 1);
    assert_eq!(m.platforms[0].0, "windows-x86_64");
    assert_eq!(m.platforms[0].1.signature, "SIGDATA==");
    assert_eq!(m.platforms[0].1.url, "https://dl/win.zip");
}

#[test]
fn renders_the_documented_json_shape() {
    let m = Manifest {
        version: "v1.0.0".to_string(),
        notes: "Notes".to_string(),
        pub_date: "2024-01-01T00:00:00Z".to_string(),
        platforms: vec![("windows-x86_64".to_string(), entry("SIG", "https://e/x.zip"))],
    };
    let expected = "{\n  \"version\": \"v1.0.0\",\n  \"notes\": \"Notes\",\n  \"pub_date\": \"2024-01-01T00:00:00Z\",\n  \"platforms\": {\n    \"windows-x86_64\": {\n      \"signature\": \"SIG\",\n      \"url\": \"https://e/x.zip\"\n    }\n  }\n}";
    assert_eq!(manifest_to_json(&m), expected);
}

#[test]
fn renders_empty_platforms_object() {
    let m = Manifest {
        version: "v1".to_string(),
        notes: "".to_string(),
        pub_date: "d".to_string(),
        platforms: vec![],
    };
    let expected = "{\n  \"version\": \"v1\",\n  \"notes\": \"\",\n  \"pub_date\": \"d\",\n  \"platforms\": {}\n}";
    assert_eq!(manifest_to_json(&m), expected);
}

#[test]
fn round_trip_preserves_every_field() {
    let m = Manifest {
        version: "v2.0.0".to_string(),
        notes: "line one\nsaid \"hi\"\tback\\slash\r".to_string(),
        pub_date: "2024-02-03T04:05:06Z".to_string(),
        platforms: vec![
            ("windows-x86_64".to_string(), entry("c2ln\"na\"ture", "https://dl/win.zip")),
            ("darwin-x86_64".to_string(), entry("", "https://dl/mac.tar.gz")),
        ],
    };
    let text = manifest_to_json(&m);
    let back = manifest_from_json(text.as_str()).expect("rendered text must parse");
    assert_eq!(back.version, m.version);
    assert_eq!(back.notes, m.notes);
    assert_eq!(back.pub_date, m.pub_date);
    assert_eq!(back.platforms.len(), m.platforms.len());
    for (got, want) in back.platforms.iter().zip(m.platforms.iter()) {
        assert_eq!(got.0, want.0);
        assert_eq!(got.1.signature, want.1.signature);
        assert_eq!(got.1.url, want.1.url);
    }
}

#[test]
fn round_trip_with_empty_platforms() {
    let m = Manifest {
        version: "v0.0.1".to_string(),
        notes: "nothing resolved".to_string(),
        pub_date: "2023-12-31T23:59:59Z".to_string(),
        platforms: vec![],
    };
    let text = manifest_to_json(&m);
    let back = manifest_from_json(text.as_str()).expect("rendered text must parse");
    assert_eq!(back.version, m.version);
    assert_eq!(back.notes, m.notes);
    assert_eq!(back.pub_date, m.pub_date);
    assert!(back.platforms.is_empty());
}

#[test]
fn malformed_documents_do_not_parse() {
    assert!(manifest_from_json("").is_none());
    assert!(manifest_from_json("{}").is_none());
    assert!(manifest_from_json("{\n  \"version\": \"v1").is_none());
    let valid = "{\n  \"version\": \"v1\",\n  \"notes\": \"\",\n  \"pub_date\": \"d\",\n  \"platforms\": {}\n}";
    assert!(manifest_from_json(valid).is_some());
    let trailing = format!("{valid} ");
    assert!(manifest_from_json(trailing.as_str()).is_none());
}
