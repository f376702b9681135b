use nix_init::go::{load_go_dependencies, load_go_dependency, GoPackage};
use nix_init::goreleaser::{parse_ldflags, write_ldflags};
use nix_init::inputs::AllInputs;

#[test]
fn go_basic() {
    assert_eq!(parse_ldflags("-s -w"), "-s -w");
    assert_eq!(
        parse_ldflags("-X=main.Version={{ .Version }}"),
        "-X=main.Version=${version}",
    );
    assert_eq!(
        parse_ldflags("-s -w -X main.Version={{ .Version }} -X main.Tag={{ .Tag }}"),
        "-s -w -X main.Version=${version} -X main.Tag=${src.rev}",
    );
    assert_eq!(
        parse_ldflags("-X main.Bad={{ func .Env.UNKNOWN_VAR }} -s -w"),
        "-X main.Bad=${funcEnvUnknownVar} -s -w",
    );
}

#[test]
fn goreleaser_basic() {
    assert_eq!(parse_ldflags("-s -w"), "-s -w");
    assert_eq!(
        parse_ldflags("-X=main.Version={{ .Version }}"),
        "-X=main.Version=${version}",
    );
    assert_eq!(
        parse_ldflags("-s -w -X main.Version={{ .Version }} -X main.Tag={{ .Tag }}"),
        "-s -w -X main.Version=${version} -X main.Tag=${src.rev}",
    );
    assert_eq!(
        parse_ldflags("-X main.Bad={{ func .Env.UNKNOWN_VAR }} -s -w"),
        "-X main.Bad=${funcEnvUnknownVar} -s -w",
    );
}

#[test]
fn parse() {
    let pkg = GoPackage::from_line(
        "golang.org/x/mod v0.11.0 h1:bUO06HqtnRcc/7l71XBe4WcqTZ+3AH1J59zWDDwLKgU=",
    )
    .unwrap();
    assert_eq!(pkg.name, "golang.org/x/mod");
    let v = pkg.version.get().unwrap();
    assert_eq!((v.major, v.minor, v.patch), (0, 11, 0));
    assert!(v.pre.is_empty());

    let pkg = GoPackage::from_line(
        "github.com/spf13/cobra v1.7.0/go.mod h1:uLxZILRyS/50WlhOIKD7W6V5bgeIt+4sICxh6uRMrb0=",
    )
    .unwrap();
    assert_eq!(pkg.name, "github.com/spf13/cobra");
    let v = pkg.version.get().unwrap();
    assert_eq!((v.major, v.minor, v.patch), (1, 7, 0));
    assert!(v.pre.is_empty());

    let pkg = GoPackage::from_line(
        "golang.org/x/crypto v0.0.0-20221012134737-56aed061732a/go.mod h1:IxCIyHEi3zRg3s0A5j5BB6A9Jmi73HwBIUl50j+osU4=",
    )
    .unwrap();
    assert_eq!(pkg.name, "golang.org/x/crypto");
    let v = pkg.version.get().unwrap();
    assert_eq!((v.major, v.minor, v.patch), (0, 0, 0));
    assert_eq!(v.pre, "20221012134737-56aed061732a");
}

#[test]
fn go_sum_mapping() {
    let mut inputs = AllInputs::new();
    let lines = vec![
        "github.com/google/gopacket v1.1.19 h1:ves8RnFZPGiFnTS0uPQStjwru6uO6h+nlr9j6fL7kF8=".to_owned(),
        "github.com/gotk3/gotk3 v0.6.1 h1:GJ4SHQWkrLOzm6ad0wktgsgW8FTgC2fRAFpRagkZmrI=".to_owned(),
        "not-a-module".to_owned(),
    ];
    load_go_dependencies(&mut inputs, &lines);
    assert_eq!(inputs.build_inputs.always, vec!["gtk3".to_owned(), "libpcap".to_owned()]);
    assert_eq!(
        inputs.native_build_inputs.always,
        vec!["pkg-config".to_owned(), "wrapGAppsHook".to_owned()],
    );
}

// A module listed both by its source hash and by its `/go.mod` hash is one
// dependency, mapped exactly once.
#[test]
fn go_sum_same_module_twice() {
    let mut inputs = AllInputs::new();
    let lines = vec![
        "github.com/google/gopacket v1.1.19 h1:ves8RnFZPGiFnTS0uPQStjwru6uO6h+nlr9j6fL7kF8=".to_owned(),
        "github.com/google/gopacket v1.1.19/go.mod h1:riddUzxTSBpJXk3qBHtYr4qOhFhT6k/1c0E3qkQjQpA=".to_owned(),
    ];
    load_go_dependencies(&mut inputs, &lines);
    assert_eq!(inputs.build_inputs.always, vec!["libpcap".to_owned()]);
}

#[test]
fn gopsutil_version_threshold() {
    let mut inputs = AllInputs::new();
    let pkg = GoPackage::from_line("github.com/shirou/gopsutil v2.20.9+incompatible h1:x").unwrap();
    load_go_dependency(&mut inputs, &pkg);
    assert_eq!(inputs.env.len(), 1);
    assert_eq!(inputs.env[0].name, "CGO_CFLAGS");
    assert_eq!(inputs.env[0].value, "\"-Wno-undef-prefix\"");

    let mut inputs = AllInputs::new();
    let pkg = GoPackage::from_line("github.com/shirou/gopsutil v3.22.1 h1:x").unwrap();
    load_go_dependency(&mut inputs, &pkg);
    assert!(inputs.env.is_empty());
}

#[test]
fn ldflags_default() {
    let mut out = String::new();
    write_ldflags(&mut out, &None);
    assert_eq!(out, "  ldflags = [ \"-s\" \"-w\" ];\n\n");
}

#[test]
fn ldflags_short_layout() {
    let mut out = String::new();
    write_ldflags(&mut out, &Some(vec!["-s -w".to_owned()]));
    assert_eq!(out, "  ldflags = [ \"-s\" \"-w\" ];\n\n");
}

#[test]
fn ldflags_long_layout_and_x_merge() {
    let mut out = String::new();
    write_ldflags(
        &mut out,
        &Some(vec!["-s -w -X main.Version={{ .Version }}".to_owned()]),
    );
    assert_eq!(
        out,
        "  ldflags = [\n    \"-s\"\n    \"-w\"\n    \"-X=main.Version=${version}\"\n  ];\n\n",
    );
}

#[test]
fn ldflags_quoted_words() {
    let mut out = String::new();
    write_ldflags(&mut out, &Some(vec!["'-s -w'".to_owned()]));
    assert_eq!(out, "  ldflags = [ \"-s -w\" ];\n\n");
}

#[test]
fn ldflags_unsplittable_line() {
    let mut out = String::new();
    write_ldflags(&mut out, &Some(vec!["\"unclosed".to_owned()]));
    assert_eq!(out, "");
}
