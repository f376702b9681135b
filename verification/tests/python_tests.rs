use nix_init::inputs::AllInputs;
use nix_init::python::{
    get_python_dependencies, get_python_dependency, parse_requirements_txt, BuildSystem,
    Pyproject,
};

#[test]
fn python_basic() {
    assert_eq!(get_python_dependency("requests"), Some("requests".into()));
    assert_eq!(get_python_dependency("Click>=7.0"), Some("click".into()));
    assert_eq!(
        get_python_dependency("tomli;python_version<'3.11'"),
        Some("tomli".into()),
    );

    assert_eq!(get_python_dependency(""), None);
    assert_eq!(get_python_dependency("# comment"), None);
}

#[test]
fn specifier_mapping() {
    let xs = vec![
        "Requests >= 2.0".to_owned(),
        "tomli ; python_version < '3.11'".to_owned(),
        "pytest ; extra == 'test'".to_owned(),
    ];
    let deps = get_python_dependencies(&xs);
    assert_eq!(deps.always, vec!["requests".to_owned(), "tomli".to_owned()]);
    assert_eq!(deps.optional.len(), 1);
    assert_eq!(deps.optional[0].0, "test");
    assert_eq!(deps.optional[0].1, vec!["pytest".to_owned()]);
}

// An unresolvable identifier in the middle never aborts the mapping of the
// identifiers after it.
#[test]
fn unparseable_specifier_skipped() {
    let with_bad = vec![
        "requests".to_owned(),
        ">>> not a specifier <<<".to_owned(),
        "click".to_owned(),
    ];
    let without = vec!["requests".to_owned(), "click".to_owned()];
    let a = get_python_dependencies(&with_bad);
    let b = get_python_dependencies(&without);
    assert_eq!(a.always, b.always);
    assert_eq!(a.optional.len(), 0);
    assert_eq!(b.optional.len(), 0);
}

#[test]
fn requirements_lines() {
    let lines = vec!["requests".to_owned(), "# comment".to_owned(), "numpy".to_owned()];
    let deps = parse_requirements_txt(&lines);
    assert_eq!(deps.always, vec!["numpy".to_owned(), "requests".to_owned()]);
}

fn empty_pyproject() -> Pyproject {
    Pyproject {
        project_name: None,
        project_license: None,
        project_dependencies: None,
        project_optional_dependencies: None,
        poetry_name: None,
        poetry_license: None,
        poetry_dependencies: None,
        poetry_extras: Vec::new(),
        build_system: BuildSystem::default(),
    }
}

#[test]
fn pyproject_names() {
    let mut p = empty_pyproject();
    p.project_name = Some("modern".to_owned());
    p.poetry_name = Some("legacy".to_owned());
    assert_eq!(p.get_name(), Some("modern".to_owned()));

    let mut p = empty_pyproject();
    p.poetry_name = Some("legacy".to_owned());
    assert_eq!(p.get_name(), Some("legacy".to_owned()));
    assert_eq!(p.get_name(), None);
}

#[test]
fn pyproject_poetry_dependencies() {
    let mut p = empty_pyproject();
    p.poetry_dependencies = Some(vec![
        ("Requests".to_owned(), false),
        ("python".to_owned(), false),
        ("rich".to_owned(), true),
    ]);
    p.poetry_extras = vec![("cli".to_owned(), vec!["click".to_owned()])];
    let deps = p.get_dependencies().unwrap();
    assert_eq!(deps.always, vec!["requests".to_owned()]);
    assert_eq!(deps.optional.len(), 1);
    assert_eq!(deps.optional[0].0, "cli");
    assert_eq!(deps.optional[0].1, vec!["click".to_owned()]);
    assert!(p.poetry_extras.is_empty());
}

// An extra declared with no resolvable entry still exists as a group, empty.
#[test]
fn pyproject_empty_extra_kept() {
    let mut p = empty_pyproject();
    p.poetry_dependencies = Some(Vec::new());
    p.poetry_extras = vec![("docs".to_owned(), Vec::new())];
    let deps = p.get_dependencies().unwrap();
    assert_eq!(deps.optional.len(), 1);
    assert_eq!(deps.optional[0].0, "docs");
    assert!(deps.optional[0].1.is_empty());
}

#[test]
fn pyproject_project_dependencies() {
    let mut p = empty_pyproject();
    p.project_dependencies = Some(vec!["requests".to_owned()]);
    p.project_optional_dependencies = Some(vec![(
        "test".to_owned(),
        vec!["PyTest >= 1.0".to_owned(), "not a specifier !!".to_owned()],
    )]);
    let deps = p.get_dependencies().unwrap();
    assert_eq!(deps.always, vec!["requests".to_owned()]);
    assert_eq!(deps.optional.len(), 1);
    assert_eq!(deps.optional[0].0, "test");
    assert_eq!(deps.optional[0].1, vec!["pytest".to_owned()]);
}

#[test]
fn pyproject_nothing_declared() {
    let mut p = empty_pyproject();
    assert!(p.get_dependencies().is_none());
}

#[test]
fn build_backends() {
    let mut p = empty_pyproject();
    p.build_system.requires = vec!["maturin>=1.0".to_owned(), "Setuptools_SCM".to_owned()];
    let mut inputs = AllInputs::new();
    p.load_build_dependencies(&mut inputs, false);
    assert_eq!(
        inputs.native_build_inputs.always,
        vec!["rustPlatform.maturinBuildHook".to_owned(), "setuptools-scm".to_owned()],
    );

    let mut inputs = AllInputs::new();
    p.load_build_dependencies(&mut inputs, true);
    assert_eq!(
        inputs.native_build_inputs.always,
        vec![
            "python3.pkgs.setuptools-scm".to_owned(),
            "rustPlatform.maturinBuildHook".to_owned(),
        ],
    );
}

#[test]
fn default_build_backend() {
    assert_eq!(BuildSystem::default_requires(), vec!["setuptools".to_owned()]);
}
