use sycamore_website::api_stats;
use sycamore_website::github_stats;

fn cache() -> api_stats::Cache {
    api_stats::Cache {
        latest_release: api_stats::LatestRelease {
            html_url: "https://github.com/sycamore-rs/sycamore/releases/tag/0.9.1".to_string(),
            name: "v0.9.1".to_string(),
        },
        repo_stats: api_stats::RepoStats { stargazers_count: 2849 },
        contributors: vec![
            api_stats::Contributor {
                login: "one".to_string(),
                avatar_url: "https://avatars/one".to_string(),
                html_url: "https://github.com/one".to_string(),
            },
            api_stats::Contributor {
                login: "two".to_string(),
                avatar_url: "https://avatars/two".to_string(),
                html_url: "https://github.com/two".to_string(),
            },
        ],
        crates_io: api_stats::CratesIo { _crate: api_stats::Crate { downloads: 153999 } },
    }
}

#[test]
fn the_numbers_come_out_of_the_cache() {
    let cache = cache();
    let release = api_stats::get_latest_release(&cache);
    assert_eq!(release.name, "v0.9.1");
    assert_eq!(release.html_url, "https://github.com/sycamore-rs/sycamore/releases/tag/0.9.1");
    assert_eq!(api_stats::get_repo_stats(&cache).stargazers_count, 2849);
    assert_eq!(api_stats::get_crate_io_stats(&cache)._crate.downloads, 153999);
}

#[test]
fn the_contributors_keep_their_order() {
    let cache = cache();
    let contributors = api_stats::get_contributors(&cache);
    assert_eq!(contributors.len(), 2);
    assert_eq!(contributors[0].login, "one");
    assert_eq!(contributors[0].avatar_url, "https://avatars/one");
    assert_eq!(contributors[0].html_url, "https://github.com/one");
    assert_eq!(contributors[1].login, "two");
}

#[test]
fn a_cache_without_contributors() {
    let mut cache = cache();
    cache.contributors.clear();
    assert!(api_stats::get_contributors(&cache).is_empty());
}

#[test]
fn where_the_numbers_are_fetched() {
    let e = api_stats::endpoints();
    assert_eq!(e.latest_release, "https://api.github.com/repos/sycamore-rs/sycamore/releases/latest");
    assert_eq!(
        e.contributors,
        "https://api.github.com/repos/sycamore-rs/sycamore/contributors?per_page=100"
    );
    assert_eq!(e.repo_stats, "https://api.github.com/repos/sycamore-rs/sycamore");
    assert_eq!(e.crates_io, "https://crates.io/api/v1/crates/sycamore");
}

#[test]
fn github_numbers_come_out_of_the_cache() {
    let cache = github_stats::Cache {
        latest_release: github_stats::LatestRelease {
            html_url: "https://example.org/release".to_string(),
            name: "v1".to_string(),
        },
        repo_stats: github_stats::RepoStats { stargazers_count: 7 },
        contributors: vec![github_stats::Contributor {
            login: "one".to_string(),
            avatar_url: "a".to_string(),
            html_url: "h".to_string(),
        }],
    };
    assert_eq!(github_stats::get_latest_release(&cache).name, "v1");
    assert_eq!(github_stats::get_latest_release(&cache).html_url, "https://example.org/release");
    assert_eq!(github_stats::get_repo_stats(&cache).stargazers_count, 7);
    let contributors = github_stats::get_contributors(&cache);
    assert_eq!(contributors.len(), 1);
    assert_eq!(contributors[0].login, "one");
}

#[test]
fn where_the_github_numbers_are_fetched() {
    let e = github_stats::endpoints();
    assert_eq!(e.latest_release, "https://api.github.com/repos/sycamore-rs/sycamore/releases/latest");
    assert_eq!(e.contributors, "https://api.github.com/repos/sycamore-rs/sycamore/contributors");
    assert_eq!(e.repo_stats, "https://api.github.com/repos/sycamore-rs/sycamore");
}

#[test]
fn the_numbers_are_fetched_only_without_a_cache() {
    assert!(matches!(api_stats::cache_step(true), api_stats::CacheStep::Read));
    match api_stats::cache_step(false) {
        api_stats::CacheStep::Fetch(e) => {
            assert_eq!(e.repo_stats, "https://api.github.com/repos/sycamore-rs/sycamore");
            assert_eq!(e.crates_io, "https://crates.io/api/v1/crates/sycamore");
        }
        api_stats::CacheStep::Read => panic!("there is no cache to read"),
    }
}
