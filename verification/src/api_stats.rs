//! Statistics of the project from GitHub and crates.io.
//!
//! The numbers are fetched once and kept in a cache file. Fetching and the
//! file are not this library's work: it says where the numbers come from and
//! hands them out of a cache that was read.

use vstd::prelude::*;
use vstd::string::StringExecFns;

verus! {

/// Everything that the cache file holds.
#[derive(Debug)]
pub struct Cache {
    pub latest_release: LatestRelease,
    pub repo_stats: RepoStats,
    pub contributors: Vec<Contributor>,
    pub crates_io: CratesIo,
}

#[derive(Debug, Clone)]
pub struct LatestRelease {
    pub html_url: String,
    pub name: String,
}

#[derive(Debug, Clone)]
pub struct RepoStats {
    pub stargazers_count: u32,
}

#[derive(Debug, Clone)]
pub struct Contributor {
    pub login: String,
    pub avatar_url: String,
    pub html_url: String,
}

#[derive(Debug, Clone)]
pub struct CratesIo {
    pub _crate: Crate,
}

#[derive(Debug, Clone)]
pub struct Crate {
    pub downloads: u32,
}

/// The addresses that the numbers are fetched from.
#[derive(Debug, Clone)]
pub struct Endpoints {
    pub latest_release: String,
    pub contributors: String,
    pub repo_stats: String,
    pub crates_io: String,
}

/// The address of the repository in the GitHub API.
pub open spec fn repo_url() -> Seq<char> {
    "https://api.github.com/repos/"@ + "sycamore-rs"@ + "/"@ + "sycamore"@
}

/// The address of the crate in the crates.io API.
pub open spec fn crate_url() -> Seq<char> {
    "https://crates.io/api/v1/crates/"@ + "sycamore"@
}

fn repo_address() -> (url: String)
    ensures
        url@ == repo_url(),
{
    let mut url = String::new();
    url.append("https://api.github.com/repos/");
    url.append("sycamore-rs");
    url.append("/");
    url.append("sycamore");
    assert(url@ =~= repo_url());
    url
}

/// The addresses that the numbers are fetched from. The list of
/// contributors is asked for in one page of a hundred.
pub fn endpoints() -> (e: Endpoints)
    ensures
        e.latest_release@ == repo_url() + "/releases/latest"@,
        e.contributors@ == repo_url() + "/contributors?per_page=100"@,
        e.repo_stats@ == repo_url(),
        e.crates_io@ == crate_url(),
{
    let mut latest_release = repo_address();
    latest_release.append("/releases/latest");
    let mut contributors = repo_address();
    contributors.append("/contributors?per_page=100");
    let repo_stats = repo_address();
    let mut crates_io = String::new();
    crates_io.append("https://crates.io/api/v1/crates/");
    crates_io.append("sycamore");
    assert(crates_io@ =~= crate_url());
    Endpoints { latest_release, contributors, repo_stats, crates_io }
}

/// What is to be done before the numbers can be handed out.
#[derive(Debug, Clone)]
pub enum CacheStep {
    /// There is no cache file: fetch the numbers from these addresses and write the file.
    Fetch(Endpoints),
    /// There is a cache file: read it.
    Read,
}

/// The numbers are fetched once: where the cache file exists it is read,
/// and nothing is fetched.
pub fn cache_step(cache_exists: bool) -> (step: CacheStep)
    ensures
        cache_exists ==> step is Read,
        !cache_exists ==> step is Fetch && {
            let e = step->Fetch_0;
            &&& e.latest_release@ == repo_url() + "/releases/latest"@
            &&& e.contributors@ == repo_url() + "/contributors?per_page=100"@
            &&& e.repo_stats@ == repo_url()
            &&& e.crates_io@ == crate_url()
        },
{
    if cache_exists {
        CacheStep::Read
    } else {
        CacheStep::Fetch(endpoints())
    }
}

/// The latest release of the project.
pub fn get_latest_release(cache: &Cache) -> (release: LatestRelease)
    ensures
        release == cache.latest_release,
{
    LatestRelease {
        html_url: cache.latest_release.html_url.clone(),
        name: cache.latest_release.name.clone(),
    }
}

/// The numbers of the repository.
pub fn get_repo_stats(cache: &Cache) -> (stats: RepoStats)
    ensures
        stats == cache.repo_stats,
{
    RepoStats { stargazers_count: cache.repo_stats.stargazers_count }
}

/// The contributors of the project, in the order of the cache.
pub fn get_contributors(cache: &Cache) -> (contributors: Vec<Contributor>)
    ensures
        contributors@ == cache.contributors@,
{
    let mut contributors: Vec<Contributor> = Vec::new();
    let mut i: usize = 0;
    while i < cache.contributors.len()
        invariant
            i <= cache.contributors.len(),
            contributors@ == cache.contributors@.take(i as int),
        decreases cache.contributors.len() - i,
    {
        let c = &cache.contributors[i];
        contributors.push(
            Contributor {
                login: c.login.clone(),
                avatar_url: c.avatar_url.clone(),
                html_url: c.html_url.clone(),
            },
        );
        assert(cache.contributors@.take(i + 1) == cache.contributors@.take(i as int).push(
            cache.contributors@[i as int],
        ));
        i += 1;
    }
    assert(cache.contributors@.take(cache.contributors.len() as int) == cache.contributors@);
    contributors
}

/// The numbers of the crate on crates.io.
pub fn get_crate_io_stats(cache: &Cache) -> (stats: CratesIo)
    ensures
        stats == cache.crates_io,
{
    CratesIo { _crate: Crate { downloads: cache.crates_io._crate.downloads } }
}

} // verus!
