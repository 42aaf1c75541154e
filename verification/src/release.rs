//! Releases as reported by the hosting API, and selection of the newest
//! publicly usable one.

use vstd::prelude::*;

use crate::error::UpdateError;

verus! {

/// The mathematical value of a [`ReleaseAsset`].
pub ghost struct AssetView {
    pub name: Seq<char>,
    pub download_url: Seq<char>,
}

/// One published file attached to a release, taken verbatim from the
/// remote API response.
pub struct ReleaseAsset {
    pub name: String,
    pub browser_download_url: String,
}

impl View for ReleaseAsset {
    type V = AssetView;

    open spec fn view(&self) -> AssetView {
        AssetView { name: self.name@, download_url: self.browser_download_url@ }
    }
}

/// The mathematical value of a [`ReleasesData`].
pub ghost struct ReleaseView {
    pub tag_name: Seq<char>,
    pub name: Seq<char>,
    pub draft: bool,
    pub prerelease: bool,
    pub published_at: Seq<char>,
    pub assets: Seq<AssetView>,
}

impl ReleaseView {
    /// A release is usable iff it is neither a draft nor a prerelease and
    /// carries at least one asset.
    pub open spec fn available(self) -> bool {
        !self.draft && !self.prerelease && self.assets.len() > 0
    }
}

/// One release of the repository: its tag, display name, draft and
/// prerelease flags, publication timestamp, and assets in the order the
/// remote reported them.
pub struct ReleasesData {
    pub tag_name: String,
    pub name: String,
    pub draft: bool,
    pub prerelease: bool,
    pub published_at: String,
    pub assets: Vec<ReleaseAsset>,
}

impl View for ReleasesData {
    type V = ReleaseView;

    open spec fn view(&self) -> ReleaseView {
        ReleaseView {
            tag_name: self.tag_name@,
            name: self.name@,
            draft: self.draft,
            prerelease: self.prerelease,
            published_at: self.published_at@,
            assets: self.assets@.map_values(|a: ReleaseAsset| a@),
        }
    }
}

impl ReleasesData {
    /// Whether this release may be offered to update clients: not a draft,
    /// not a prerelease, and at least one asset is attached.
    pub fn available(&self) -> (r: bool)
        ensures
            r == self@.available(),
            r == (!self.draft && !self.prerelease && self.assets@.len() > 0),
    {
        !self.draft && !self.prerelease && self.assets.len() != 0
    }
}

/// The index of the first available release in `releases`, if any.
pub open spec fn first_available_index(releases: Seq<ReleaseView>) -> Option<int>
    decreases releases.len(),
{
    if releases.len() == 0 {
        None
    } else if releases[0].available() {
        Some(0int)
    } else {
        match first_available_index(releases.skip(1)) {
            None => None,
            Some(i) => Some(i + 1),
        }
    }
}

/// What `first_available_index` returns: the first index whose release is
/// available, and `None` exactly when no release is available.
pub proof fn lemma_first_available_index(releases: Seq<ReleaseView>)
    ensures
        match first_available_index(releases) {
            Some(i) => {
                &&& 0 <= i < releases.len()
                &&& releases[i].available()
                &&& forall|j: int| 0 <= j < i ==> !releases[j].available()
            },
            None => forall|j: int| 0 <= j < releases.len() ==> !releases[j].available(),
        },
    decreases releases.len(),
{
    if releases.len() > 0 && !releases[0].available() {
        let rest = releases.skip(1);
        lemma_first_available_index(rest);
        assert(forall|j: int| 0 <= j < rest.len() ==> rest[j] == releases[j + 1]);
        match first_available_index(rest) {
            Some(i) => {
                assert(releases[i + 1] == rest[i]);
                assert forall|j: int| 0 <= j < i + 1 implies !releases[j].available() by {
                    if j > 0 {
                        assert(releases[j] == rest[j - 1]);
                    }
                }
            },
            None => {
                assert forall|j: int| 0 <= j < releases.len() implies !releases[j].available() by {
                    if j > 0 {
                        assert(releases[j] == rest[j - 1]);
                    }
                }
            },
        }
    }
}

/// The address of the releases-list endpoint for one repository.
pub fn releases_url(owner: &str, repo: &str) -> (r: String)
    ensures
        r@ == "https://api.github.com/repos/"@ + owner@ + "/"@ + repo@ + "/releases"@,
{
    let mut url = String::from_str("https://api.github.com/repos/");
    url.append(owner);
    url.append("/");
    url.append(repo);
    url.append("/releases");
    url
}

/// The identifying client-agent header value, attached to every request.
pub fn user_agent(version: &str) -> (r: String)
    ensures
        r@ == "RustRuntime/"@ + version@,
{
    let mut agent = String::from_str("RustRuntime/");
    agent.append(version);
    agent
}

/// The authorization header value for a supplied bearer token.
pub fn bearer(token: &str) -> (r: String)
    ensures
        r@ == "Bearer "@ + token@,
{
    let mut auth = String::from_str("Bearer ");
    auth.append(token);
    auth
}

/// Whether a response status is the recognized not-found signal, on which
/// the resolver fails without attempting to parse a body.
pub fn is_not_found_status(status: u16) -> (r: bool)
    ensures
        r == (status == 404),
{
    status == 404
}

/// The releases arrive newest-first, so the first available one is the
/// newest usable release. Returns its index, or `NoAvailableRelease` when
/// no release passes the filter (in particular on an empty list).
pub fn select_latest_available(releases: &Vec<ReleasesData>) -> (r: Result<usize, UpdateError>)
    ensures
        match r {
            Ok(i) => first_available_index(releases@.map_values(|rel: ReleasesData| rel@))
                == Some(i as int),
            Err(e) => e == UpdateError::NoAvailableRelease && first_available_index(
                releases@.map_values(|rel: ReleasesData| rel@),
            ) is None,
        },
{
    let ghost views = releases@.map_values(|rel: ReleasesData| rel@);
    let mut i: usize = 0;
    while i < releases.len()
        invariant
            0 <= i <= releases.len(),
            views == releases@.map_values(|rel: ReleasesData| rel@),
            forall|j: int| 0 <= j < i ==> !views[j].available(),
        decreases releases.len() - i,
    {
        if releases[i].available() {
            proof {
                lemma_first_available_index(views);
                if first_available_index(views) is None {
                    assert(!views[i as int].available());
                }
                let k = first_available_index(views)->Some_0;
                if k < i {
                    assert(!views[k].available());
                }
                if k > i {
                    assert(!views[i as int].available());
                }
            }
            return Ok(i);
        }
        i = i + 1;
    }
    proof {
        lemma_first_available_index(views);
        if first_available_index(views) is Some {
            let k = first_available_index(views)->Some_0;
            assert(!views[k].available());
        }
    }
    Err(UpdateError::NoAvailableRelease)
}

} // verus!
