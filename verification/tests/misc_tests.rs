use nix_init::builder::{enumerate_builders, lock_references_git, Builder, PythonFormat,
    RustVendor, SourceSignals};
use nix_init::frontend::{by_name_path, prompt, Headless, SimpleHint};
use nix_init::inputs::AllInputs;
use nix_init::rust::{dedup_git_revs, load_riff_dependency, load_rust_dependency,
    write_cargo_lock, GitPackage, RiffDependency, RiffTargetInputs, RustPackage};
use nix_init::utils::{fod_hash_from_build, get_version, get_version_number, is_changelog_file,
    normalize_summary, rank_licenses, rev_template, scrape_hash, RevTemplate, SemVer, FAKE_HASH};

fn no_signals() -> SourceSignals {
    SourceSignals {
        has_cargo: false,
        has_cargo_lock: false,
        lock_has_git_source: false,
        has_cmake: false,
        has_go: false,
        has_meson: false,
        has_zig: false,
        has_pyproject: false,
        has_setuptools: false,
    }
}

// A 40-character hexadecimal revision id with nothing else known yields
// exactly `unstable`.
#[test]
fn commit_id_version() {
    assert_eq!(get_version("0123456789abcdef0123456789abcdef01234567"), "unstable");
    // One non-hexadecimal character and the digit-suffix rule applies again.
    assert_eq!(get_version("z123456789abcdef0123456789abcdef01234567"), "123456789abcdef0123456789abcdef01234567");
    assert_eq!(get_version("v1.2.3"), "1.2.3");
    assert_eq!(get_version_number("release-4.5"), "4.5");
    // Absent any digit, the whole id stands.
    assert_eq!(get_version_number("nodigits"), "nodigits");
    assert_eq!(get_version_number(""), "");
}

// The oracle scrapes the real hash out of the `specified:` / `got:` pair,
// and reports nothing when the pair is absent.
#[test]
fn hash_oracle_round_trip() {
    let lines = vec![
        "error: hash mismatch in fixed-output derivation:".to_owned(),
        "         specified: sha256-AAAAAAAAAAAAAAAAAAAAAAAAAAAAAAAAAAAAAAAAAAA=".to_owned(),
        "            got:    sha256-BBBBBBBBBBBBBBBBBBBBBBBBBBBBBBBBBBBBBBBBBBB=".to_owned(),
    ];
    assert_eq!(
        scrape_hash(&lines),
        Some("sha256-BBBBBBBBBBBBBBBBBBBBBBBBBBBBBBBBBBBBBBBBBBB=".to_owned()),
    );

    let lines = vec!["nothing useful".to_owned(), "specified: x".to_owned()];
    assert_eq!(scrape_hash(&lines), None);

    let lines = vec!["got: before specified".to_owned()];
    assert_eq!(scrape_hash(&lines), None);

    // An unexpectedly successful build is an anomaly: no hash comes back.
    assert_eq!(fod_hash_from_build(true, &Vec::new()), None);
    assert_eq!(FAKE_HASH, "sha256-AAAAAAAAAAAAAAAAAAAAAAAAAAAAAAAAAAAAAAAAAAA=");
}

// With a non-VCS lock file and a meta-build descriptor, the vendor-hash
// strategy comes before the lock-file-embedding one, and the generic
// derivation before the dedicated builder within each.
#[test]
fn builder_enumeration_order() {
    let mut s = no_signals();
    s.has_cargo = true;
    s.has_cargo_lock = true;
    s.has_meson = true;
    let builders = enumerate_builders(&s);
    assert_eq!(
        builders,
        vec![
            Builder::MkDerivation { rust: Some(RustVendor::FetchCargoVendor) },
            Builder::BuildRustPackage { vendor: RustVendor::FetchCargoVendor },
            Builder::MkDerivation { rust: Some(RustVendor::ImportCargoLock) },
            Builder::BuildRustPackage { vendor: RustVendor::ImportCargoLock },
            Builder::MkDerivation { rust: None },
        ],
    );
}

#[test]
fn builder_enumeration_variants() {
    let mut s = no_signals();
    s.has_go = true;
    s.has_pyproject = true;
    let builders = enumerate_builders(&s);
    assert_eq!(
        builders,
        vec![
            Builder::BuildGoModule,
            Builder::BuildPythonPackage {
                application: true,
                format: PythonFormat::Pyproject,
                rust: None,
            },
            Builder::BuildPythonPackage {
                application: false,
                format: PythonFormat::Pyproject,
                rust: None,
            },
            Builder::MkDerivation { rust: None },
        ],
    );

    // A legacy setup script alone still offers the modern project type as a
    // second option, the application variant of each type first.
    let mut s = no_signals();
    s.has_setuptools = true;
    let builders = enumerate_builders(&s);
    assert_eq!(
        builders,
        vec![
            Builder::BuildPythonPackage {
                application: true,
                format: PythonFormat::Setuptools,
                rust: None,
            },
            Builder::BuildPythonPackage {
                application: false,
                format: PythonFormat::Setuptools,
                rust: None,
            },
            Builder::BuildPythonPackage {
                application: true,
                format: PythonFormat::Pyproject,
                rust: None,
            },
            Builder::BuildPythonPackage {
                application: false,
                format: PythonFormat::Pyproject,
                rust: None,
            },
            Builder::MkDerivation { rust: None },
        ],
    );

    let mut s = no_signals();
    s.has_cargo = true;
    s.has_cargo_lock = true;
    s.lock_has_git_source = true;
    let builders = enumerate_builders(&s);
    assert_eq!(
        builders,
        vec![
            Builder::BuildRustPackage { vendor: RustVendor::ImportCargoLock },
            Builder::MkDerivation { rust: Some(RustVendor::ImportCargoLock) },
            Builder::BuildRustPackage { vendor: RustVendor::FetchCargoVendor },
            Builder::MkDerivation { rust: Some(RustVendor::FetchCargoVendor) },
            Builder::MkDerivation { rust: None },
        ],
    );
}

#[test]
fn builder_names() {
    assert_eq!(Builder::BuildGoModule.display(), "buildGoModule");
    assert_eq!(
        Builder::BuildPythonPackage {
            application: true,
            format: PythonFormat::Pyproject,
            rust: Some(RustVendor::ImportCargoLock),
        }
            .display(),
        "buildPythonApplication + importCargoLock",
    );
    assert_eq!(PythonFormat::Setuptools.display(), "setuptools");
    assert_eq!(
        Builder::BuildRustPackage { vendor: RustVendor::FetchCargoVendor }.display(),
        "buildRustPackage - cargoHash",
    );
    assert_eq!(Builder::MkDerivation { rust: None }.display(), "stdenv.mkDerivation");
}

#[test]
fn lock_git_source_detection() {
    let lines = vec![
        "name = \"foo\"".to_owned(),
        "source = \"git+https://example.org/foo\"".to_owned(),
    ];
    assert!(lock_references_git(&lines));
    let lines = vec!["source = \"registry+https://example.org\"".to_owned()];
    assert!(!lock_references_git(&lines));
}

fn rust_pkg(name: &str, version: (u64, u64, u64), features: &[&str]) -> RustPackage {
    RustPackage {
        name: name.to_owned(),
        version: SemVer {
            major: version.0,
            minor: version.1,
            patch: version.2,
            pre: String::new(),
        },
        features: features.iter().map(|f| (*f).to_owned()).collect(),
    }
}

#[test]
fn rust_dependency_table() {
    let mut inputs = AllInputs::new();
    load_rust_dependency(&mut inputs, &rust_pkg("alsa-sys", (0, 1, 0), &[]));
    assert_eq!(inputs.build_inputs.linux, vec!["alsa-lib".to_owned()]);

    let mut inputs = AllInputs::new();
    load_rust_dependency(&mut inputs, &rust_pkg("gtk4-sys", (0, 7, 0), &[]));
    assert_eq!(inputs.native_build_inputs.always, vec!["wrapGAppsHook4".to_owned()]);
    assert_eq!(inputs.build_inputs.always, vec!["gtk4".to_owned()]);

    let mut inputs = AllInputs::new();
    load_rust_dependency(&mut inputs, &rust_pkg("arboard", (3, 0, 0), &[]));
    assert_eq!(
        inputs.build_inputs.darwin,
        vec!["darwin.apple_sdk.frameworks.AppKit".to_owned()],
    );

    let mut inputs = AllInputs::new();
    load_rust_dependency(&mut inputs, &rust_pkg("gstreamer-sys", (0, 20, 0), &[]));
    assert_eq!(inputs.build_inputs.always, vec!["gst_all_1.gstreamer".to_owned()]);

    let mut inputs = AllInputs::new();
    load_rust_dependency(&mut inputs, &rust_pkg("unknown-crate", (1, 0, 0), &[]));
    assert!(inputs.build_inputs.always.is_empty());
    assert!(inputs.native_build_inputs.always.is_empty());
}

#[test]
fn rust_dependency_version_thresholds() {
    let mut inputs = AllInputs::new();
    load_rust_dependency(&mut inputs, &rust_pkg("libhandy-sys", (0, 6, 2), &[]));
    assert_eq!(inputs.build_inputs.always, vec!["libhandy_0".to_owned()]);

    let mut inputs = AllInputs::new();
    load_rust_dependency(&mut inputs, &rust_pkg("libhandy-sys", (1, 2, 0), &[]));
    assert_eq!(inputs.build_inputs.always, vec!["libhandy".to_owned()]);

    let mut inputs = AllInputs::new();
    load_rust_dependency(&mut inputs, &rust_pkg("zstd-sys", (2, 0, 5), &[]));
    assert_eq!(inputs.build_inputs.always, vec!["zstd".to_owned()]);
    assert_eq!(inputs.env.len(), 1);
    assert_eq!(inputs.env[0].name, "ZSTD_SYS_USE_PKG_CONFIG");

    let mut inputs = AllInputs::new();
    load_rust_dependency(&mut inputs, &rust_pkg("zstd-sys", (2, 0, 4), &[]));
    assert!(inputs.build_inputs.always.is_empty());
    assert!(inputs.env.is_empty());
}

#[test]
fn rust_dependency_features() {
    let mut inputs = AllInputs::new();
    load_rust_dependency(&mut inputs, &rust_pkg("libz-sys", (1, 1, 0), &["static"]));
    assert!(inputs.build_inputs.always.is_empty());

    let mut inputs = AllInputs::new();
    load_rust_dependency(&mut inputs, &rust_pkg("libz-sys", (1, 1, 0), &["stock-zlib"]));
    assert_eq!(inputs.build_inputs.always, vec!["zlib".to_owned()]);

    let mut inputs = AllInputs::new();
    load_rust_dependency(&mut inputs, &rust_pkg("x11", (2, 21, 0), &["xlib", "xrandr"]));
    assert_eq!(
        inputs.build_inputs.linux,
        vec!["xorg.libX11".to_owned(), "xorg.libXrandr".to_owned()],
    );

    let mut inputs = AllInputs::new();
    load_rust_dependency(&mut inputs, &rust_pkg("llvm-sys", (150, 0, 1), &[]));
    assert_eq!(
        inputs.build_inputs.always,
        vec!["libxml2".to_owned(), "ncurses".to_owned(), "zlib".to_owned()],
    );
    assert_eq!(inputs.env.len(), 1);
    assert_eq!(inputs.env[0].name, "LLVM_SYS_150_PREFIX");
    assert_eq!(inputs.env[0].value, "llvmPackages_15.llvm.dev");
    assert_eq!(inputs.env[0].tags, vec!["llvmPackages_15".to_owned()]);
}

#[test]
fn cargo_lock_field() {
    let hashes = vec![
        ("b-crate-1.0.0".to_owned(), "sha256-BBBB".to_owned()),
        ("a-crate-0.1.0".to_owned(), "sha256-AAAA".to_owned()),
    ];
    let mut out = String::new();
    write_cargo_lock(&mut out, false, &hashes);
    let expected = "{\n    lockFile = ./Cargo.lock;\n    outputHashes = {\n      \"a-crate-0.1.0\" = \"sha256-AAAA\";\n      \"b-crate-1.0.0\" = \"sha256-BBBB\";\n    };\n  };\n\n  postPatch = ''\n    ln -s ${./Cargo.lock} Cargo.lock\n  '';\n\n";
    assert_eq!(out, expected);

    let mut out = String::new();
    write_cargo_lock(&mut out, true, &Vec::new());
    assert_eq!(out, "{\n    lockFile = ./Cargo.lock;\n  };\n\n");
}

fn git_pkg(name: &str, rev: &str) -> GitPackage {
    GitPackage {
        name: name.to_owned(),
        version: "1.0.0".to_owned(),
        rev: rev.to_owned(),
        url: "https://example.org/repo".to_owned(),
    }
}

#[test]
fn git_revision_dedup() {
    let pkgs = vec![git_pkg("a", "r1"), git_pkg("b", "r1"), git_pkg("c", "r2")];
    let deduped = dedup_git_revs(pkgs);
    let names: Vec<String> = deduped.iter().map(|p| p.name.clone()).collect();
    assert_eq!(names, vec!["a".to_owned(), "c".to_owned()]);
}

#[test]
fn headless_defaults() {
    let mut h = Headless;
    assert!(h.url().is_err());
    assert!(h.fetch_submodules());
    assert_eq!(h.version("1.2.3"), "1.2.3");
    assert_eq!(h.pname(Some("pkg".to_owned())), "pkg");
    assert_eq!(h.pname(None), "");
    let builders = vec![Builder::BuildGoModule, Builder::MkDerivation { rust: None }];
    assert_eq!(h.builder(&builders), Builder::BuildGoModule);
    assert_eq!(h.output("nix-init"), "pkgs/by-name/ni/nix-init/package.nix");
    assert!(!h.overwrite("somewhere"));
    let (rev, version) = h.rev(None);
    assert_eq!(rev, "");
    assert!(version.is_none());
}

#[test]
fn prompt_and_hints() {
    assert_eq!(
        prompt("Enter url"),
        "\u{1b}[1mEnter url\u{1b}[0m\n\u{1b}[34m\u{276f}\u{1b}[0m ",
    );
    let hint = SimpleHint("  (tag)".to_owned());
    assert_eq!(hint.display(), "  (tag)");
    assert_eq!(hint.completion(), Some(""));
}

#[test]
fn name_based_paths() {
    assert_eq!(by_name_path("nix-init"), Some("pkgs/by-name/ni/nix-init/package.nix".to_owned()));
    assert_eq!(by_name_path("1password"), Some("pkgs/by-name/_1/_1password/package.nix".to_owned()));
    assert_eq!(by_name_path("x"), Some("pkgs/by-name/x/x/package.nix".to_owned()));
    assert_eq!(by_name_path(""), None);
}

fn riff_target(native: &[&str], build: &[&str]) -> RiffTargetInputs {
    RiffTargetInputs {
        native_build_inputs: native.iter().map(|s| (*s).to_owned()).collect(),
        build_inputs: build.iter().map(|s| (*s).to_owned()).collect(),
    }
}

// A per-target input both architectures of one system carry is promoted to
// the whole system; one only a single architecture carries stays with it.
#[test]
fn riff_target_promotion() {
    let dep = RiffDependency {
        native_build_inputs: vec!["pkg-config".to_owned()],
        build_inputs: Vec::new(),
        aarch64_darwin: riff_target(&[], &["iconv", "libgit2"]),
        x86_64_darwin: riff_target(&[], &["iconv"]),
        aarch64_linux: riff_target(&[], &[]),
        x86_64_linux: riff_target(&[], &["libseccomp"]),
    };
    let mut inputs = AllInputs::new();
    load_riff_dependency(&mut inputs, &dep);
    assert_eq!(inputs.native_build_inputs.always, vec!["pkg-config".to_owned()]);
    assert_eq!(inputs.build_inputs.darwin, vec!["iconv".to_owned()]);
    assert_eq!(inputs.build_inputs.aarch64_darwin, vec!["libgit2".to_owned()]);
    assert!(inputs.build_inputs.x86_64_darwin.is_empty());
    assert_eq!(inputs.build_inputs.x86_64_linux, vec!["libseccomp".to_owned()]);
    assert!(inputs.build_inputs.linux.is_empty());
}

// A per-target input the unconditional bucket already holds is dropped.
#[test]
fn riff_always_wins() {
    let dep = RiffDependency {
        native_build_inputs: Vec::new(),
        build_inputs: vec!["openssl".to_owned()],
        aarch64_darwin: riff_target(&[], &["openssl"]),
        x86_64_darwin: riff_target(&[], &[]),
        aarch64_linux: riff_target(&[], &[]),
        x86_64_linux: riff_target(&[], &[]),
    };
    let mut inputs = AllInputs::new();
    load_riff_dependency(&mut inputs, &dep);
    assert_eq!(inputs.build_inputs.always, vec!["openssl".to_owned()]);
    assert!(inputs.build_inputs.aarch64_darwin.is_empty());
    assert!(inputs.build_inputs.darwin.is_empty());
}

#[test]
fn summary_normalization() {
    assert_eq!(normalize_summary("  a tool for things!"), "A tool for things");
    assert_eq!(normalize_summary("..."), "");
    assert_eq!(normalize_summary("9 lives"), "9 lives");
    assert_eq!(normalize_summary("Fine"), "Fine");
}

#[test]
fn changelog_names() {
    assert!(is_changelog_file("CHANGELOG.md"));
    assert!(is_changelog_file("Changes.rst"));
    assert!(is_changelog_file("NEWS"));
    assert!(is_changelog_file("RELEASES.md"));
    assert!(!is_changelog_file("NEWSLETTER"));
    assert!(!is_changelog_file("README.md"));
}

#[test]
fn license_ranking() {
    let entries = vec![
        ("mit".to_owned(), 900),
        ("asl20".to_owned(), 1000),
        ("bsd3".to_owned(), 900),
    ];
    assert_eq!(
        rank_licenses(entries),
        vec!["bsd3".to_owned(), "mit".to_owned(), "asl20".to_owned()],
    );
}

#[test]
fn unstable_versions() {
    assert_eq!(nix_init::utils::unstable_version("2023-01-02"), "0-unstable-2023-01-02");
    assert_eq!(nix_init::utils::bearer_auth("abc123"), "Bearer abc123");
}

#[test]
fn revision_templates() {
    assert!(matches!(rev_template("1.2.3", "1.2.3"), RevTemplate::SameAsVersion));
    match rev_template("v1.2.3", "1.2.3") {
        RevTemplate::Embedded(t) => assert_eq!(t, "v${version}"),
        _ => panic!("expected an embedded version"),
    }
    assert!(matches!(rev_template("deadbeef", "1.2.3"), RevTemplate::Unrelated));
}
