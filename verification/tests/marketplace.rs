use axon::marketplace::{
    canonical_github_owner_repo, is_official_source_url, normalize_non_github,
    OFFICIAL_SOURCE_NAME,
};


/// Stands in for whatever the user configures. Not a real repository --
/// this build ships with no official source at all.
const CONFIGURED: &str = "https://github.com/example-org/plugin-marketplace.git";

fn official(url: &str) -> bool {
    is_official_source_url(Some(CONFIGURED), url)
}

/// The default: nothing configured, so nothing is official and no source
/// inherits the CTA's install path.
#[test]
fn nothing_is_official_when_unconfigured() {
    assert!(!is_official_source_url(None, CONFIGURED));
    assert!(!is_official_source_url(
        None,
        "https://github.com/example-org/plugin-marketplace"
    ));
    assert!(!is_official_source_url(None, ""));
}

#[test]
fn is_official_matches_canonical_https() {
    assert!(official(CONFIGURED));
    assert!(official(
        "https://github.com/example-org/plugin-marketplace"
    ));
}

#[test]
fn is_official_matches_ssh_form() {
    assert!(official(
        "git@github.com:example-org/plugin-marketplace.git"
    ));
    assert!(official("git@github.com:example-org/plugin-marketplace"));
    assert!(official(
        "ssh://git@github.com/example-org/plugin-marketplace.git"
    ));
    assert!(official(
        "ssh://git@github.com/example-org/plugin-marketplace"
    ));
}

#[test]
fn is_official_rejects_unrelated_urls() {
    assert!(!official(
        "https://github.com/another-org/plugins-official.git"
    ));
    assert!(!official(
        "https://github.com/example-org/some-other-repo.git"
    ));
    assert!(!official("https://github.com/other-org/plugin-marketplace"));
    assert!(!official(""));
}

#[test]
fn is_official_matches_noncanonical_forms() {
    assert!(official(
        "https://GitHub.com/EXAMPLE-org/Plugin-Marketplace"
    ));
    assert!(official(
        "https://github.com/example-org/plugin-marketplace/"
    ));
    assert!(official(
        "https://github.com/example-org/plugin-marketplace.git/"
    ));
    assert!(official("http://github.com/example-org/plugin-marketplace"));
    assert!(official(
        "https://www.github.com/example-org/plugin-marketplace.git"
    ));
    assert!(official(
        "git@github.com:EXAMPLE-org/plugin-marketplace.git"
    ));
}

/// A self-hosted marketplace can be named official too -- neither side is
/// a GitHub URL, so the comparison falls back to normalised equality.
#[test]
fn is_official_matches_non_github_remote() {
    let self_hosted = "https://git.example.test/plugins/marketplace.git";
    assert!(is_official_source_url(
        Some(self_hosted),
        "https://git.example.test/plugins/marketplace"
    ));
    assert!(is_official_source_url(Some(self_hosted), self_hosted));
    assert!(!is_official_source_url(
        Some(self_hosted),
        "https://git.example.test/plugins/other"
    ));
    // A GitHub URL never matches a non-GitHub official source.
    assert!(!is_official_source_url(Some(self_hosted), CONFIGURED));
}

#[test]
fn spellings_of_a_repository_agree() {
    for scheme in ["", "https://", "http://", "ssh://"] {
        for user in ["", "git@"] {
            for www in ["", "www."] {
                for host in ["github.com/", "github.com:"] {
                    for ending in ["", "/", ".git", ".git/"] {
                        let url = format!(" {scheme}{user}{www}{host}Org/Repo{ending}\n");
                        assert_eq!(
                            canonical_github_owner_repo(&url).as_deref(),
                            Some("org/repo"),
                            "url: {url}"
                        );
                    }
                }
            }
        }
    }
}

#[test]
fn letter_case_makes_no_difference() {
    assert!(is_official_source_url(
        Some("https://github.com/example-org/plugin-marketplace"),
        "HTTPS://GITHUB.COM/EXAMPLE-ORG/PLUGIN-MARKETPLACE.GIT"
    ));
    assert!(official("Git@GitHub.com:Example-Org/Plugin-Marketplace.Git/"));
    assert!(is_official_source_url(Some("https://h.test/a.git"), "https://H.test/A.GIT/"));
    for url in [CONFIGURED, " https://H.test/A.GIT/ ", "", "ÀB.GIT"] {
        assert_eq!(normalize_non_github(url), normalize_non_github(&url.to_ascii_lowercase()));
        assert_eq!(
            canonical_github_owner_repo(url),
            canonical_github_owner_repo(&url.to_ascii_uppercase())
        );
    }
}

#[test]
fn a_source_matches_itself_and_matching_is_mutual() {
    let urls = [
        CONFIGURED,
        "git@github.com:example-org/plugin-marketplace",
        "https://git.example.test/a",
        "https://git.example.test/A.git/",
        "",
        "https://github.com/",
    ];
    for a in urls {
        assert!(is_official_source_url(Some(a), a));
        for b in urls {
            assert_eq!(is_official_source_url(Some(a), b), is_official_source_url(Some(b), a));
        }
    }
}

#[test]
fn endings_and_letters_are_normalized() {
    assert_eq!(normalize_non_github(" https://X.test/A.git/ "), "https://x.test/a");
    assert_eq!(normalize_non_github("https://X.test/A.GIT"), "https://x.test/a");
    assert_eq!(normalize_non_github("a.git.git"), "a.git");
    assert_eq!(normalize_non_github("a//"), "a/");
    assert_eq!(canonical_github_owner_repo("https://github.com/"), None);
    assert_eq!(canonical_github_owner_repo("https://gitlab.com/a/b"), None);
    assert_eq!(OFFICIAL_SOURCE_NAME, "Axon Official");
}
