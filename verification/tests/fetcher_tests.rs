use nix_init::fetcher::{
    classify_fetched_revision, collect_pypi_candidates, date_day, default_github_base,
    default_gitlab_domain, get_api_root, github_file_url_prefix, github_tags_from_refs,
    merge_revisions, pick_release, pypi_revisions, registry_revisions, CommitInfo, Fetcher,
    PypiFormat, PypiRelease, RegistryRelease, Revisions, Version,
};

// The resolver's pick is the highest non-prerelease version, independent of
// the order the registry listed the versions in.
#[test]
fn registry_latest_is_highest() {
    let listing = vec![
        RegistryRelease { num: "0.2.0".to_owned(), yanked: false, license: "MIT".to_owned() },
        RegistryRelease {
            num: "2.0.0-alpha.1".to_owned(),
            yanked: false,
            license: "MIT".to_owned(),
        },
        RegistryRelease { num: "1.4.2".to_owned(), yanked: false, license: "Apache-2.0".to_owned() },
        RegistryRelease { num: "1.0.0".to_owned(), yanked: true, license: "MIT".to_owned() },
        RegistryRelease { num: "0.9.9".to_owned(), yanked: false, license: "MIT".to_owned() },
    ];
    let (revs, license) = registry_revisions(&listing);
    assert_eq!(revs.latest, "1.4.2");
    assert_eq!(license, Some("Apache-2.0".to_owned()));
    // The withdrawn release is not selectable.
    assert_eq!(revs.completions.len(), 4);
    assert_eq!(revs.completions[0].display, "0.2.0");

    let reordered = vec![
        RegistryRelease { num: "1.4.2".to_owned(), yanked: false, license: "Apache-2.0".to_owned() },
        RegistryRelease { num: "0.9.9".to_owned(), yanked: false, license: "MIT".to_owned() },
        RegistryRelease {
            num: "2.0.0-alpha.1".to_owned(),
            yanked: false,
            license: "MIT".to_owned(),
        },
        RegistryRelease { num: "0.2.0".to_owned(), yanked: false, license: "MIT".to_owned() },
    ];
    let (revs2, _) = registry_revisions(&reordered);
    assert_eq!(revs2.latest, "1.4.2");
}

#[test]
fn registry_all_prerelease_falls_back() {
    let listing = vec![
        RegistryRelease { num: "1.0.0-rc.1".to_owned(), yanked: false, license: "MIT".to_owned() },
        RegistryRelease { num: "1.0.0-rc.2".to_owned(), yanked: false, license: "ISC".to_owned() },
    ];
    let (revs, license) = registry_revisions(&listing);
    assert_eq!(revs.latest, "1.0.0-rc.1");
    assert_eq!(license, Some("MIT".to_owned()));

    let (revs, license) = registry_revisions(&Vec::new());
    assert_eq!(revs.latest, "");
    assert_eq!(license, None);
}

#[test]
fn merge_release_tags_commits() {
    let release = Some("v1.0.0".to_owned());
    let tags = Some(vec!["v1.0.0".to_owned(), "v0.9.0".to_owned()]);
    let commits = Some(vec![
        CommitInfo {
            id: "aaaa".to_owned(),
            date: "2023-01-02T03:04:05Z".to_owned(),
            msg: "first line\nsecond line".to_owned(),
        },
        CommitInfo {
            id: "bbbb".to_owned(),
            date: "2023-01-01T00:00:00Z".to_owned(),
            msg: "older".to_owned(),
        },
    ]);
    let mut revs = merge_revisions(&release, &tags, &commits);
    assert_eq!(revs.latest, "v1.0.0");
    let displays: Vec<String> = revs.completions.iter().map(|p| p.display.clone()).collect();
    assert_eq!(
        displays,
        vec![
            "v1.0.0 (latest release)".to_owned(),
            "v0.9.0 (tag)".to_owned(),
            "aaaa (2023-01-02 - HEAD) first line".to_owned(),
            "bbbb (2023-01-01) older".to_owned(),
        ],
    );
    assert!(matches!(revs.remove("v1.0.0"), Some(Version::Latest)));
    assert!(matches!(revs.remove("v0.9.0"), Some(Version::Tag)));
    match revs.remove("aaaa") {
        Some(Version::Head { date, msg }) => {
            assert_eq!(date, "2023-01-02");
            assert_eq!(msg, "first line");
        },
        _ => panic!("head commit missing"),
    }
    match revs.remove("bbbb") {
        Some(Version::Commit { date, msg }) => {
            assert_eq!(date, "2023-01-01");
            assert_eq!(msg, "older");
        },
        _ => panic!("commit missing"),
    }
    assert!(revs.remove("cccc").is_none());
}

#[test]
fn merge_without_release() {
    let tags = Some(vec!["v2.0".to_owned()]);
    let revs = merge_revisions(&None, &tags, &None);
    assert_eq!(revs.latest, "v2.0");

    let commits = Some(vec![CommitInfo {
        id: "abcd".to_owned(),
        date: "2020-05-06T07:08:09Z".to_owned(),
        msg: "m".to_owned(),
    }]);
    let revs = merge_revisions(&None, &None, &commits);
    assert_eq!(revs.latest, "abcd");

    let revs = merge_revisions(&None, &None, &None);
    assert_eq!(revs.latest, "");
}

#[test]
fn reference_listing_tags() {
    let refs = vec![
        "refs/tags/v0.1.0".to_owned(),
        "refs/heads/main".to_owned(),
        "refs/tags/v0.2.0".to_owned(),
        "refs/tags/v0.3.0".to_owned(),
    ];
    let tags = github_tags_from_refs(&refs);
    assert_eq!(tags, vec!["v0.3.0".to_owned(), "v0.2.0".to_owned(), "v0.1.0".to_owned()]);
}

#[test]
fn revision_lookup_classification() {
    match classify_fetched_revision("abcdef123", "2022-03-04T05:06:07Z", "abc") {
        Version::Commit { date, msg } => {
            assert_eq!(date, "2022-03-04");
            assert_eq!(msg, "");
        },
        _ => panic!("expected a commit"),
    }
    assert!(matches!(
        classify_fetched_revision("abcdef123", "2022-03-04T05:06:07Z", "v1.0"),
        Version::Tag,
    ));
}

#[test]
fn api_roots_and_prefixes() {
    assert_eq!(
        get_api_root("gitlab.com", &Some("grp".to_owned()), "own", "repo"),
        "https://gitlab.com/api/v4/projects/grp%2Fown%2Frepo",
    );
    assert_eq!(
        get_api_root("gitlab.com", &None, "own", "repo"),
        "https://gitlab.com/api/v4/projects/own%2Frepo",
    );
    assert_eq!(
        github_file_url_prefix("github.com", "o", "r"),
        "https://github.com/o/r/blob/${src.rev}/",
    );
    assert_eq!(default_github_base(), "github.com");
    assert_eq!(default_gitlab_domain(), "gitlab.com");
    assert_eq!(date_day("2023-01-02T03:04:05Z"), "2023-01-02");
    assert_eq!(date_day("short"), "short");
}

#[test]
fn fetcher_names() {
    let f = Fetcher::FetchFromGitHub {
        github_base: "github.com".to_owned(),
        owner: "o".to_owned(),
        repo: "r".to_owned(),
    };
    assert_eq!(f.display(), "fetchFromGitHub");
    let f = Fetcher::FetchCrate { pname: "x".to_owned() };
    assert_eq!(f.display(), "fetchCrate");
}

#[test]
fn pypi_release_pick() {
    let releases = vec![
        PypiRelease {
            filename: "pkg-1.0.zip".to_owned(),
            packagetype: "sdist".to_owned(),
            upload_time: 5,
            yanked: false,
        },
        PypiRelease {
            filename: "pkg-1.0.tar.gz".to_owned(),
            packagetype: "sdist".to_owned(),
            upload_time: 3,
            yanked: false,
        },
    ];
    let c = pick_release(&releases, "1.0").unwrap();
    assert_eq!(c.pname, "pkg");
    assert_eq!(c.upload_time, 3);
    assert!(matches!(c.format, PypiFormat::TarGz));

    let releases = vec![
        PypiRelease {
            filename: "pkg-2.0.tar.gz".to_owned(),
            packagetype: "sdist".to_owned(),
            upload_time: 9,
            yanked: true,
        },
        PypiRelease {
            filename: "pkg-2.0.zip".to_owned(),
            packagetype: "sdist".to_owned(),
            upload_time: 8,
            yanked: false,
        },
    ];
    let c = pick_release(&releases, "2.0").unwrap();
    assert!(matches!(c.format, PypiFormat::Zip));

    let releases = vec![PypiRelease {
        filename: "pkg-3.0.tar.gz".to_owned(),
        packagetype: "bdist_wheel".to_owned(),
        upload_time: 1,
        yanked: false,
    }];
    assert!(pick_release(&releases, "3.0").is_none());
}

#[test]
fn pypi_listing_order() {
    let listing = vec![
        (
            "1.0".to_owned(),
            vec![PypiRelease {
                filename: "pkg-1.0.tar.gz".to_owned(),
                packagetype: "sdist".to_owned(),
                upload_time: 10,
                yanked: false,
            }],
        ),
        (
            "2.0".to_owned(),
            vec![PypiRelease {
                filename: "pkg-2.0.tar.gz".to_owned(),
                packagetype: "sdist".to_owned(),
                upload_time: 20,
                yanked: false,
            }],
        ),
    ];
    let cands = collect_pypi_candidates(&listing);
    let revs = pypi_revisions(cands);
    assert_eq!(revs.latest, "2.0");
    let displays: Vec<String> = revs.completions.iter().map(|p| p.display.clone()).collect();
    assert_eq!(displays, vec!["2.0 (tar.gz)".to_owned(), "1.0 (tar.gz)".to_owned()]);
}

// A later insertion for a revision id already on record is a no-op: first
// seen wins.
#[test]
fn revision_record_first_seen_wins() {
    let mut revs = Revisions::new();
    revs.insert("v1.0.0", Version::Tag);
    revs.insert("v1.0.0", Version::Latest);
    assert!(matches!(revs.remove("v1.0.0"), Some(Version::Tag)));
    assert!(revs.remove("v1.0.0").is_none());
}
