//! The manifest handed to update clients, and its assembly from a selected
//! release, an optional notes override, and the fetched signatures.

use vstd::prelude::*;

use crate::platform::{
    entry_from_fetch, resolved_targets, EntryView, PlatformEntry, PlatformTarget, TargetView,
};
use crate::release::ReleasesData;

verus! {

/// The mathematical value of a [`Manifest`].
pub ghost struct ManifestView {
    pub version: Seq<char>,
    pub notes: Seq<char>,
    pub pub_date: Seq<char>,
    pub platforms: Seq<(Seq<char>, EntryView)>,
}

/// The sole persisted artifact of a run: the release tag as version, the
/// notes, the publication date passed through verbatim, and one entry per
/// resolved platform, keyed by platform identifier in pattern-table order.
pub struct Manifest {
    pub version: String,
    pub notes: String,
    pub pub_date: String,
    pub platforms: Vec<(String, PlatformEntry)>,
}

impl View for Manifest {
    type V = ManifestView;

    open spec fn view(&self) -> ManifestView {
        ManifestView {
            version: self.version@,
            notes: self.notes@,
            pub_date: self.pub_date@,
            platforms: self.platforms@.map_values(|p: (String, PlatformEntry)| (p.0@, p.1@)),
        }
    }
}

/// The views of a sequence of fetched signature bodies: `None` where the
/// fetch failed.
pub open spec fn sig_views(signatures: Seq<Option<String>>) -> Seq<Option<Seq<char>>> {
    signatures.map_values(
        |s: Option<String>|
            match s {
                Some(x) => Some(x@),
                None => None,
            },
    )
}

/// The entry built for one platform: the fetched signature body verbatim,
/// or the empty string where the fetch failed.
pub open spec fn entry_for(sig: Option<Seq<char>>, url: Seq<char>) -> EntryView {
    EntryView {
        signature: match sig {
            Some(s) => s,
            None => Seq::empty(),
        },
        url: url,
    }
}

/// The platform entries assembled from the resolved targets and the
/// fetched signatures, positionally: every target yields an entry, whether
/// or not its signature fetch succeeded.
pub open spec fn assembled_platforms(
    targets: Seq<TargetView>,
    sigs: Seq<Option<Seq<char>>>,
) -> Seq<(Seq<char>, EntryView)>
    recommends
        sigs.len() == targets.len(),
{
    Seq::new(
        targets.len(),
        |i: int| (targets[i].platform_id, entry_for(sigs[i], targets[i].download_url)),
    )
}

/// A failed signature fetch does not suppress the platform: its entry is
/// still emitted, with an empty signature and the matched download URL.
pub proof fn lemma_failed_fetch_still_emitted(
    targets: Seq<TargetView>,
    sigs: Seq<Option<Seq<char>>>,
    i: int,
)
    requires
        sigs.len() == targets.len(),
        0 <= i < targets.len(),
        sigs[i] is None,
    ensures
        assembled_platforms(targets, sigs).len() == targets.len(),
        assembled_platforms(targets, sigs)[i] == (
            targets[i].platform_id,
            EntryView { signature: Seq::<char>::empty(), url: targets[i].download_url },
        ),
{
}

/// Builds the platform entries for the resolved targets from the fetched
/// signature bodies, `None` standing for a failed fetch.
pub fn finish_platforms(targets: &Vec<PlatformTarget>, signatures: &Vec<Option<String>>) -> (r:
    Vec<(String, PlatformEntry)>)
    requires
        signatures@.len() == targets@.len(),
    ensures
        r@.map_values(|p: (String, PlatformEntry)| (p.0@, p.1@)) == assembled_platforms(
            targets@.map_values(|t: PlatformTarget| t@),
            sig_views(signatures@),
        ),
{
    let ghost goal = assembled_platforms(
        targets@.map_values(|t: PlatformTarget| t@),
        sig_views(signatures@),
    );
    let mut out: Vec<(String, PlatformEntry)> = Vec::new();
    let mut i: usize = 0;
    while i < targets.len()
        invariant
            0 <= i <= targets@.len(),
            signatures@.len() == targets@.len(),
            goal == assembled_platforms(
                targets@.map_values(|t: PlatformTarget| t@),
                sig_views(signatures@),
            ),
            out@.len() == i,
            i <= goal.len(),
            forall|j: int|
                0 <= j < i ==> ((#[trigger] out@[j]).0@, out@[j].1@) == goal[j],
        decreases targets@.len() - i,
    {
        let sig = clone_opt_string(&signatures[i]);
        let entry = entry_from_fetch(sig, targets[i].download_url.as_str());
        out.push((targets[i].platform_id.clone(), entry));
        i = i + 1;
    }
    proof {
        assert(out@.map_values(|p: (String, PlatformEntry)| (p.0@, p.1@)) =~= goal);
    }
    out
}

/// A copy of an optional signature body, so that one fetched value can be
/// inspected and then folded into an entry.
fn clone_opt_string(s: &Option<String>) -> (r: Option<String>)
    ensures
        r == *s,
{
    match s {
        Some(x) => Some(x.clone()),
        None => None,
    }
}

/// Assembles the manifest for a release: its tag as version, the supplied
/// notes override or else the release's display name, its publication date
/// verbatim, and the given platform entries.
pub fn assemble(
    release: &ReleasesData,
    notes_override: Option<String>,
    platforms: Vec<(String, PlatformEntry)>,
) -> (m: Manifest)
    ensures
        m@.version == release@.tag_name,
        m@.pub_date == release@.published_at,
        match notes_override {
            Some(n) => m@.notes == n@,
            None => m@.notes == release@.name,
        },
        m@.platforms == platforms@.map_values(|p: (String, PlatformEntry)| (p.0@, p.1@)),
{
    let notes = match notes_override {
        Some(n) => n,
        None => release.name.clone(),
    };
    Manifest {
        version: release.tag_name.clone(),
        notes,
        pub_date: release.published_at.clone(),
        platforms,
    }
}

/// Assembles the whole manifest for a release whose targets were resolved
/// by [`crate::platform::resolve_targets`], given one fetched signature
/// body per target (`None` for a failed fetch).
pub fn assemble_manifest(
    release: &ReleasesData,
    notes_override: Option<String>,
    targets: &Vec<PlatformTarget>,
    signatures: &Vec<Option<String>>,
) -> (m: Manifest)
    requires
        signatures@.len() == targets@.len(),
        targets@.map_values(|t: PlatformTarget| t@) == resolved_targets(release@.assets),
    ensures
        m@.version == release@.tag_name,
        m@.pub_date == release@.published_at,
        match notes_override {
            Some(n) => m@.notes == n@,
            None => m@.notes == release@.name,
        },
        m@.platforms == assembled_platforms(
            resolved_targets(release@.assets),
            sig_views(signatures@),
        ),
{
    let platforms = finish_platforms(targets, signatures);
    assemble(release, notes_override, platforms)
}

} // verus!
