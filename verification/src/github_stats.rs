//! Statistics of the project from GitHub alone.
//!
//! As with the other statistics, fetching and the cache file are not this
//! library's work.

use vstd::prelude::*;
use vstd::string::StringExecFns;

verus! {

/// Everything that the cache file holds.
#[derive(Debug)]
pub struct Cache {
    pub latest_release: LatestRelease,
    pub repo_stats: RepoStats,
    pub contributors: Vec<Contributor>,
}

#[derive(Debug, Clone)]
pub struct LatestRelease {
    pub html_url: String,
    pub name: String,
}

#[derive(Debug, Clone)]
pub struct RepoStats {
    pub stargazers_count: u32,
}

#[derive(Debug, Clone)]
pub struct Contributor {
    pub login: String,
    pub avatar_url: String,
    pub html_url: String,
}

/// The addresses that the numbers are fetched from.
#[derive(Debug, Clone)]
pub struct Endpoints {
    pub latest_release: String,
    pub contributors: String,
    pub repo_stats: String,
}

/// The address of the repository in the GitHub API.
pub open spec fn repo_url() -> Seq<char> {
    "https://api.github.com/repos/"@ + "sycamore-rs"@ + "/"@ + "sycamore"@
}

fn repo_address() -> (url: String)
    ensures
        url@ == repo_url(),
{
    let mut url = String::new();
    url.append("https://api.github.com/repos/");
    url.append("sycamore-rs");
    url.append("/");
    url.append("sycamore");
    assert(url@ =~= repo_url());
    url
}

/// The addresses that the numbers are fetched from.
pub fn endpoints() -> (e: Endpoints)
    ensures
        e.latest_release@ == repo_url() + "/releases/latest"@,
        e.contributors@ == repo_url() + "/contributors"@,
        e.repo_stats@ == repo_url(),
{
    let mut latest_release = repo_address();
    latest_release.append("/releases/latest");
    let mut contributors = repo_address();
    contributors.append("/contributors");
    let repo_stats = repo_address();
    Endpoints { latest_release, contributors, repo_stats }
}

/// The latest release of the project.
pub fn get_latest_release(cache: &Cache) -> (release: LatestRelease)
    ensures
        release == cache.latest_release,
{
    LatestRelease {
        html_url: cache.latest_release.html_url.clone(),
        name: cache.latest_release.name.clone(),
    }
}

/// The numbers of the repository.
pub fn get_repo_stats(cache: &Cache) -> (stats: RepoStats)
    ensures
        stats == cache.repo_stats,
{
    RepoStats { stargazers_count: cache.repo_stats.stargazers_count }
}

/// The contributors of the project, in the order of the cache.
pub fn get_contributors(cache: &Cache) -> (contributors: Vec<Contributor>)
    ensures
        contributors@ == cache.contributors@,
{
    let mut contributors: Vec<Contributor> = Vec::new();
    let mut i: usize = 0;
    while i < cache.contributors.len()
        invariant
            i <= cache.contributors.len(),
            contributors@ == cache.contributors@.take(i as int),
        decreases cache.contributors.len() - i,
    {
        let c = &cache.contributors[i];
        contributors.push(
            Contributor {
                login: c.login.clone(),
                avatar_url: c.avatar_url.clone(),
                html_url: c.html_url.clone(),
            },
        );
        assert(cache.contributors@.take(i + 1) == cache.contributors@.take(i as int).push(
            cache.contributors@[i as int],
        ));
        i += 1;
    }
    assert(cache.contributors@.take(cache.contributors.len() as int) == cache.contributors@);
    contributors
}

} // verus!
