//! Per-platform update payloads: matching a release's asset names against
//! the fixed table of platform suffixes, and building platform entries.

use vstd::prelude::*;

use crate::release::{AssetView, ReleaseAsset, ReleasesData};

verus! {

/// The mathematical value of a [`PlatformEntry`].
pub ghost struct EntryView {
    pub signature: Seq<char>,
    pub url: Seq<char>,
}

/// One platform's update payload: a detached signature (possibly empty,
/// when the signature could not be retrieved) and the download URL.
pub struct PlatformEntry {
    pub signature: String,
    pub url: String,
}

impl View for PlatformEntry {
    type V = EntryView;

    open spec fn view(&self) -> EntryView {
        EntryView { signature: self.signature@, url: self.url@ }
    }
}

/// Builds a platform entry from a signature string and a download URL.
pub fn new(signature: &str, url: &str) -> (r: PlatformEntry)
    ensures
        r@.signature == signature@,
        r@.url == url@,
{
    PlatformEntry { signature: signature.to_owned(), url: url.to_owned() }
}

/// Builds the platform entry for a signature fetch that may have failed:
/// the downloaded text is used verbatim, and a failed fetch degrades to an
/// empty signature rather than suppressing the entry.
pub fn entry_from_fetch(signature: Option<String>, url: &str) -> (r: PlatformEntry)
    ensures
        r@.url == url@,
        match signature {
            Some(s) => r@.signature == s@,
            None => r@.signature == Seq::<char>::empty(),
        },
{
    match signature {
        Some(s) => PlatformEntry { signature: s, url: url.to_owned() },
        None => PlatformEntry { signature: String::new(), url: url.to_owned() },
    }
}

/// Whether `s` ends with `suffix`, by literal end-anchored comparison of
/// the character sequences.
pub fn str_ends_with(s: &str, suffix: &str) -> (r: bool)
    ensures
        r == suffix@.is_suffix_of(s@),
{
    let n = s.unicode_len();
    let m = suffix.unicode_len();
    if m > n {
        return false;
    }
    let off = n - m;
    let mut j: usize = 0;
    while j < m
        invariant
            0 <= j <= m,
            m <= n,
            off == n - m,
            n == s@.len(),
            m == suffix@.len(),
            forall|k: int| 0 <= k < j ==> s@[off + k] == suffix@[k],
        decreases m - j,
    {
        if s.get_char(off + j) != suffix.get_char(j) {
            proof {
                assert(s@.subrange(off as int, n as int)[j as int] == s@[off + j]);
            }
            return false;
        }
        j = j + 1;
    }
    proof {
        assert(suffix@ =~= s@.subrange(off as int, n as int));
    }
    true
}

/// The index of the first asset whose name ends with `suffix`, if any.
pub open spec fn first_match_index(assets: Seq<AssetView>, suffix: Seq<char>) -> Option<int>
    decreases assets.len(),
{
    if assets.len() == 0 {
        None
    } else if suffix.is_suffix_of(assets[0].name) {
        Some(0int)
    } else {
        match first_match_index(assets.skip(1), suffix) {
            None => None,
            Some(i) => Some(i + 1),
        }
    }
}

/// What `first_match_index` returns: the first index whose asset name ends
/// with the suffix, and `None` exactly when no asset name does.
pub proof fn lemma_first_match_index(assets: Seq<AssetView>, suffix: Seq<char>)
    ensures
        match first_match_index(assets, suffix) {
            Some(i) => {
                &&& 0 <= i < assets.len()
                &&& suffix.is_suffix_of(assets[i].name)
                &&& forall|j: int| 0 <= j < i ==> !suffix.is_suffix_of(assets[j].name)
            },
            None => forall|j: int| 0 <= j < assets.len() ==> !suffix.is_suffix_of(assets[j].name),
        },
    decreases assets.len(),
{
    if assets.len() > 0 && !suffix.is_suffix_of(assets[0].name) {
        let rest = assets.skip(1);
        lemma_first_match_index(rest, suffix);
        assert(forall|j: int| 0 <= j < rest.len() ==> rest[j] == assets[j + 1]);
        match first_match_index(rest, suffix) {
            Some(i) => {
                assert(assets[i + 1] == rest[i]);
                assert forall|j: int| 0 <= j < i + 1 implies !suffix.is_suffix_of(
                    assets[j].name,
                ) by {
                    if j > 0 {
                        assert(assets[j] == rest[j - 1]);
                    }
                }
            },
            None => {
                assert forall|j: int| 0 <= j < assets.len() implies !suffix.is_suffix_of(
                    assets[j].name,
                ) by {
                    if j > 0 {
                        assert(assets[j] == rest[j - 1]);
                    }
                }
            },
        }
    }
}

/// Finds the first asset of `assets` whose name ends with `suffix`.
pub fn find_asset_with_suffix(assets: &Vec<ReleaseAsset>, suffix: &str) -> (r: Option<usize>)
    ensures
        ({
            let views = assets@.map_values(|a: ReleaseAsset| a@);
            match r {
                Some(i) => i < assets@.len() && first_match_index(views, suffix@) == Some(
                    i as int,
                ),
                None => first_match_index(views, suffix@) is None,
            }
        }),
{
    let ghost views = assets@.map_values(|a: ReleaseAsset| a@);
    let mut i: usize = 0;
    while i < assets.len()
        invariant
            0 <= i <= assets.len(),
            views == assets@.map_values(|a: ReleaseAsset| a@),
            forall|j: int| 0 <= j < i ==> !suffix@.is_suffix_of(views[j].name),
        decreases assets.len() - i,
    {
        if str_ends_with(assets[i].name.as_str(), suffix) {
            proof {
                lemma_first_match_index(views, suffix@);
                if first_match_index(views, suffix@) is None {
                    assert(!suffix@.is_suffix_of(views[i as int].name));
                }
                let k = first_match_index(views, suffix@)->Some_0;
                if k < i {
                    assert(!suffix@.is_suffix_of(views[k].name));
                }
                if k > i {
                    assert(!suffix@.is_suffix_of(views[i as int].name));
                }
            }
            return Some(i);
        }
        i = i + 1;
    }
    proof {
        lemma_first_match_index(views, suffix@);
        if first_match_index(views, suffix@) is Some {
            let k = first_match_index(views, suffix@)->Some_0;
            assert(!suffix@.is_suffix_of(views[k].name));
        }
    }
    None
}

/// The fixed table of asset-name suffixes and the platform identifier each
/// one stands for, iterated in this documented order.
pub open spec fn pattern_table() -> Seq<(Seq<char>, Seq<char>)> {
    seq![
        ("x64_zh-TW.msi.zip"@, "windows-x86_64"@),
        ("x86_zh-TW.msi.zip"@, "windows-i686"@),
        ("amd64.AppImage.tar.gz"@, "linux-x86_64"@),
        ("app.tar.gz"@, "darwin-x86_64"@),
    ]
}

/// The pattern table as executable values, in the same order as
/// [`pattern_table`].
pub fn platform_pattern_table() -> (r: Vec<(&'static str, &'static str)>)
    ensures
        r@.len() == pattern_table().len(),
        forall|i: int|
            0 <= i < r@.len() ==> r@[i].0@ == pattern_table()[i].0 && r@[i].1@
                == pattern_table()[i].1,
{
    let mut table: Vec<(&'static str, &'static str)> = Vec::new();
    table.push(("x64_zh-TW.msi.zip", "windows-x86_64"));
    table.push(("x86_zh-TW.msi.zip", "windows-i686"));
    table.push(("amd64.AppImage.tar.gz", "linux-x86_64"));
    table.push(("app.tar.gz", "darwin-x86_64"));
    table
}

/// The mathematical value of a [`PlatformTarget`].
pub ghost struct TargetView {
    pub platform_id: Seq<char>,
    pub download_url: Seq<char>,
    pub sig_url: Seq<char>,
}

/// One platform for which the release carries both a payload asset and a
/// detached-signature asset: the caller fetches `sig_url` and folds the
/// result into a [`PlatformEntry`] for `download_url`.
pub struct PlatformTarget {
    pub platform_id: String,
    pub download_url: String,
    pub sig_url: String,
}

impl View for PlatformTarget {
    type V = TargetView;

    open spec fn view(&self) -> TargetView {
        TargetView {
            platform_id: self.platform_id@,
            download_url: self.download_url@,
            sig_url: self.sig_url@,
        }
    }
}

/// The target emitted for one table row, if any: the first asset whose
/// name ends with `suffix` supplies the download URL, and the first asset
/// whose name ends with `suffix + ".sig"` supplies the signature URL.
/// Without a payload match, or without a signature asset, the platform is
/// skipped altogether.
pub open spec fn target_for(
    assets: Seq<AssetView>,
    suffix: Seq<char>,
    platform_id: Seq<char>,
) -> Option<TargetView> {
    match first_match_index(assets, suffix) {
        None => None,
        Some(i) => match first_match_index(assets, suffix + ".sig"@) {
            None => None,
            Some(k) => Some(
                TargetView {
                    platform_id: platform_id,
                    download_url: assets[i].download_url,
                    sig_url: assets[k].download_url,
                },
            ),
        },
    }
}

/// An asset may match a platform suffix while no asset matches the
/// corresponding signature suffix: then no entry for that platform is
/// emitted at all, not even one with an empty signature.
pub proof fn lemma_no_signature_no_entry(
    assets: Seq<AssetView>,
    suffix: Seq<char>,
    platform_id: Seq<char>,
)
    requires
        first_match_index(assets, suffix + ".sig"@) is None,
    ensures
        target_for(assets, suffix, platform_id) is None,
{
}

/// The targets for the table rows `table`, in table order, skipping rows
/// for which [`target_for`] yields nothing.
pub open spec fn targets_over(
    assets: Seq<AssetView>,
    table: Seq<(Seq<char>, Seq<char>)>,
) -> Seq<TargetView>
    decreases table.len(),
{
    if table.len() == 0 {
        Seq::empty()
    } else {
        match target_for(assets, table[0].0, table[0].1) {
            None => targets_over(assets, table.skip(1)),
            Some(t) => seq![t] + targets_over(assets, table.skip(1)),
        }
    }
}

/// The platform targets of a release's assets, over the whole pattern
/// table in its documented order.
pub open spec fn resolved_targets(assets: Seq<AssetView>) -> Seq<TargetView> {
    targets_over(assets, pattern_table())
}

/// Resolves the release's assets against the pattern table: one target per
/// platform whose payload asset and signature asset are both present.
pub fn resolve_targets(release: &ReleasesData) -> (r: Vec<PlatformTarget>)
    ensures
        r@.map_values(|t: PlatformTarget| t@) == resolved_targets(release@.assets),
{
    let ghost asset_views = release@.assets;
    let table = platform_pattern_table();
    let ghost table_views = pattern_table();
    let mut out: Vec<PlatformTarget> = Vec::new();
    let mut k: usize = 0;
    proof {
        assert(table_views.skip(0) =~= table_views);
        assert(out@.map_values(|t: PlatformTarget| t@) =~= Seq::<TargetView>::empty());
        assert(Seq::<TargetView>::empty() + targets_over(asset_views, table_views)
            =~= targets_over(asset_views, table_views));
    }
    while k < table.len()
        invariant
            0 <= k <= table.len(),
            table@.len() == table_views.len(),
            forall|i: int|
                0 <= i < table@.len() ==> table@[i].0@ == table_views[i].0 && table@[i].1@
                    == table_views[i].1,
            asset_views == release@.assets,
            table_views == pattern_table(),
            targets_over(asset_views, table_views) == out@.map_values(|t: PlatformTarget| t@)
                + targets_over(asset_views, table_views.skip(k as int)),
        decreases table.len() - k,
    {
        let (suffix, platform_id) = table[k];
        let ghost out_before = out@.map_values(|t: PlatformTarget| t@);
        let ghost rest = table_views.skip(k as int);
        proof {
            assert(rest[0] == table_views[k as int]);
            assert(rest.skip(1) =~= table_views.skip(k as int + 1));
        }
        match find_asset_with_suffix(&release.assets, suffix) {
            None => {
                proof {
                    assert(target_for(asset_views, suffix@, platform_id@) is None);
                }
            },
            Some(i) => {
                let sig_suffix = String::from_str(suffix).concat(".sig");
                match find_asset_with_suffix(&release.assets, sig_suffix.as_str()) {
                    None => {
                        proof {
                            assert(target_for(asset_views, suffix@, platform_id@) is None);
                        }
                    },
                    Some(s) => {
                        let target = PlatformTarget {
                            platform_id: String::from_str(platform_id),
                            download_url: release.assets[i].browser_download_url.clone(),
                            sig_url: release.assets[s].browser_download_url.clone(),
                        };
                        proof {
                            assert(asset_views[i as int] == release.assets@[i as int]@);
                            assert(asset_views[s as int] == release.assets@[s as int]@);
                            assert(target_for(asset_views, suffix@, platform_id@) == Some(
                                target@,
                            ));
                        }
                        out.push(target);
                        proof {
                            assert(out@.map_values(|t: PlatformTarget| t@) =~= out_before
                                + seq![target@]);
                            assert(out_before + (seq![target@] + targets_over(
                                asset_views,
                                rest.skip(1),
                            )) =~= (out_before + seq![target@]) + targets_over(
                                asset_views,
                                rest.skip(1),
                            ));
                        }
                    },
                }
            },
        }
        k = k + 1;
    }
    proof {
        assert(table_views.skip(table_views.len() as int) =~= Seq::<(Seq<char>, Seq<char>)>::empty());
        assert(out@.map_values(|t: PlatformTarget| t@) + Seq::<TargetView>::empty() =~= out@
            .map_values(|t: PlatformTarget| t@));
    }
    out
}

} // verus!
