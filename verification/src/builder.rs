use vstd::prelude::*;

use crate::text::{has_prefix, starts_with_str};

verus! {

/// How a compiled-language package manager's dependency cache is made
/// available to the sandboxed build: hashing a prefetched vendor archive, or
/// embedding the lock file verbatim.
#[derive(Clone, Copy, PartialEq, Eq, Structural, Debug)]
pub enum RustVendor {
    FetchCargoVendor,
    ImportCargoLock,
}

/// The interpreted-language project types a source tree can declare.
#[derive(Clone, Copy, PartialEq, Eq, Structural, Debug)]
pub enum PythonFormat {
    Pyproject,
    Setuptools,
}

/// What a project type is called in the manifest's format field.
pub open spec fn python_format_display(f: PythonFormat) -> Seq<char> {
    match f {
        PythonFormat::Pyproject => "pyproject"@,
        PythonFormat::Setuptools => "setuptools"@,
    }
}

impl PythonFormat {
    /// The project type's name in the manifest's format field.
    pub fn display(&self) -> (r: String)
        ensures
            r@ == python_format_display(*self),
    {
        match self {
            PythonFormat::Pyproject => "pyproject".to_owned(),
            PythonFormat::Setuptools => "setuptools".to_owned(),
        }
    }
}

/// A build-strategy candidate for the fetched source tree.
#[derive(Clone, Copy, PartialEq, Eq, Structural, Debug)]
pub enum Builder {
    BuildGoModule,
    BuildPythonPackage { application: bool, format: PythonFormat, rust: Option<RustVendor> },
    BuildRustPackage { vendor: RustVendor },
    MkDerivation { rust: Option<RustVendor> },
}

/// What the vendoring strategy is called in a choice listing.
pub open spec fn vendor_display(v: RustVendor) -> Seq<char> {
    match v {
        RustVendor::FetchCargoVendor => "fetchCargoVendor"@,
        RustVendor::ImportCargoLock => "importCargoLock"@,
    }
}

/// What a candidate is called in a choice listing.
pub open spec fn builder_display(b: Builder) -> Seq<char> {
    match b {
        Builder::BuildGoModule => "buildGoModule"@,
        Builder::BuildPythonPackage { application, format: _, rust } => {
            let base = if application {
                "buildPythonApplication"@
            } else {
                "buildPythonPackage"@
            };
            match rust {
                Some(v) => base + " + "@ + vendor_display(v),
                None => base,
            }
        },
        Builder::BuildRustPackage { vendor } => {
            match vendor {
                RustVendor::FetchCargoVendor => "buildRustPackage - cargoHash"@,
                RustVendor::ImportCargoLock => "buildRustPackage - cargoLock"@,
            }
        },
        Builder::MkDerivation { rust } => {
            match rust {
                Some(v) => "stdenv.mkDerivation"@ + " + "@ + vendor_display(v),
                None => "stdenv.mkDerivation"@,
            }
        },
    }
}

impl RustVendor {
    /// The strategy's name in a choice listing.
    pub fn display(&self) -> (r: String)
        ensures
            r@ == vendor_display(*self),
    {
        match self {
            RustVendor::FetchCargoVendor => "fetchCargoVendor".to_owned(),
            RustVendor::ImportCargoLock => "importCargoLock".to_owned(),
        }
    }
}

impl Builder {
    /// The candidate's name in a choice listing.
    pub fn display(&self) -> (r: String)
        ensures
            r@ == builder_display(*self),
    {
        match self {
            Builder::BuildGoModule => "buildGoModule".to_owned(),
            Builder::BuildPythonPackage { application, format: _, rust } => {
                let mut s = if *application {
                    "buildPythonApplication".to_owned()
                } else {
                    "buildPythonPackage".to_owned()
                };
                if let Some(v) = rust {
                    s.append(" + ");
                    let vd = v.display();
                    s.append(vd.as_str());
                }
                s
            },
            Builder::BuildRustPackage { vendor } => {
                match vendor {
                    RustVendor::FetchCargoVendor => "buildRustPackage - cargoHash".to_owned(),
                    RustVendor::ImportCargoLock => "buildRustPackage - cargoLock".to_owned(),
                }
            },
            Builder::MkDerivation { rust } => {
                let mut s = "stdenv.mkDerivation".to_owned();
                if let Some(v) = rust {
                    s.append(" + ");
                    let vd = v.display();
                    s.append(vd.as_str());
                }
                s
            },
        }
    }
}

// ---------------------------------------------------------------------------
// Detection and enumeration.
// ---------------------------------------------------------------------------

/// The ecosystem markers found in the fetched source tree.
#[derive(Clone, Copy, PartialEq, Eq, Structural, Debug)]
pub struct SourceSignals {
    pub has_cargo: bool,
    pub has_cargo_lock: bool,
    pub lock_has_git_source: bool,
    pub has_cmake: bool,
    pub has_go: bool,
    pub has_meson: bool,
    pub has_zig: bool,
    pub has_pyproject: bool,
    pub has_setuptools: bool,
}

/// Whether a lock file's lines reference a version-control source.
pub fn lock_references_git(lines: &Vec<String>) -> (r: bool)
    ensures
        r == exists|i: int|
            0 <= i < lines@.len() && has_prefix(#[trigger] lines@[i]@, "source = \"git+"@),
{
    let n = lines.len();
    let mut i: usize = 0;
    while i < n
        invariant
            n == lines@.len(),
            i <= n,
            forall|j: int| 0 <= j < i ==> !has_prefix(#[trigger] lines@[j]@, "source = \"git+"@),
        decreases n - i,
    {
        if starts_with_str(lines[i].as_str(), "source = \"git+") {
            return true;
        }
        i += 1;
    }
    false
}

/// The viable vendoring strategies, in preference order: a lock file that
/// references a version-control source — or a missing one — prefers embedding
/// the lock file; otherwise the vendor-archive hash comes first.
pub open spec fn spec_rust_vendors(s: SourceSignals) -> Seq<RustVendor> {
    if !s.has_cargo {
        Seq::empty()
    } else if !s.has_cargo_lock || s.lock_has_git_source {
        seq![RustVendor::ImportCargoLock, RustVendor::FetchCargoVendor]
    } else {
        seq![RustVendor::FetchCargoVendor, RustVendor::ImportCargoLock]
    }
}

/// Both interpreted-language variants of one project type for one vendoring
/// choice: the application first, then the library.
pub open spec fn python_pair(rust: Option<RustVendor>, format: PythonFormat) -> Seq<Builder> {
    seq![
        Builder::BuildPythonPackage { application: true, format, rust },
        Builder::BuildPythonPackage { application: false, format, rust },
    ]
}

/// The project types detected, in preference order: the modern descriptor
/// first where it exists, and offered as well behind a legacy setup script.
pub open spec fn spec_python_formats(s: SourceSignals) -> Seq<PythonFormat> {
    if s.has_pyproject && s.has_setuptools {
        seq![PythonFormat::Pyproject, PythonFormat::Setuptools]
    } else if s.has_pyproject {
        seq![PythonFormat::Pyproject]
    } else if s.has_setuptools {
        seq![PythonFormat::Setuptools, PythonFormat::Pyproject]
    } else {
        Seq::empty()
    }
}

/// Both variants of every detected project type, for one vendoring choice.
pub open spec fn python_block(rust: Option<RustVendor>, fmts: Seq<PythonFormat>) -> Seq<Builder>
    decreases fmts.len(),
{
    if fmts.len() == 0 {
        Seq::empty()
    } else {
        python_pair(rust, fmts[0]) + python_block(rust, fmts.skip(1))
    }
}

/// The project types detected, in preference order.
pub fn python_formats(s: &SourceSignals) -> (r: Vec<PythonFormat>)
    ensures
        r@ == spec_python_formats(*s),
{
    let mut v: Vec<PythonFormat> = Vec::new();
    if s.has_pyproject {
        v.push(PythonFormat::Pyproject);
    }
    if s.has_setuptools {
        v.push(PythonFormat::Setuptools);
        if !s.has_pyproject {
            v.push(PythonFormat::Pyproject);
        }
    }
    proof {
        assert(v@ =~= spec_python_formats(*s));
    }
    v
}

/// The paired generic-derivation and dedicated-builder variants for one
/// vendoring strategy: the generic one first exactly when a meta-build
/// descriptor is present.
pub open spec fn rust_pair(v: RustVendor, meson: bool) -> Seq<Builder> {
    if meson {
        seq![
            Builder::MkDerivation { rust: Some(v) },
            Builder::BuildRustPackage { vendor: v },
        ]
    } else {
        seq![
            Builder::BuildRustPackage { vendor: v },
            Builder::MkDerivation { rust: Some(v) },
        ]
    }
}

/// Every build-strategy candidate applicable to the source tree, in the fixed
/// preference order; the ecosystem-agnostic generic derivation always comes
/// last.
pub open spec fn spec_builders(s: SourceSignals) -> Seq<Builder> {
    let vendors = spec_rust_vendors(s);
    let go: Seq<Builder> = if s.has_go {
        seq![Builder::BuildGoModule]
    } else {
        Seq::empty()
    };
    let fmts = spec_python_formats(s);
    let py: Seq<Builder> = if fmts.len() > 0 {
        if vendors.len() == 2 {
            python_block(Some(vendors[0]), fmts) + python_block(Some(vendors[1]), fmts)
                + python_block(None, fmts)
        } else {
            python_block(None, fmts)
        }
    } else {
        Seq::empty()
    };
    let rust: Seq<Builder> = if s.has_cargo {
        rust_pair(vendors[0], s.has_meson) + rust_pair(vendors[1], s.has_meson)
    } else {
        Seq::empty()
    };
    go + py + rust + seq![Builder::MkDerivation { rust: None }]
}

/// The viable vendoring strategies, in preference order.
pub fn rust_vendors(s: &SourceSignals) -> (r: Vec<RustVendor>)
    ensures
        r@ == spec_rust_vendors(*s),
{
    let mut v: Vec<RustVendor> = Vec::new();
    if s.has_cargo {
        if !s.has_cargo_lock || s.lock_has_git_source {
            v.push(RustVendor::ImportCargoLock);
            v.push(RustVendor::FetchCargoVendor);
        } else {
            v.push(RustVendor::FetchCargoVendor);
            v.push(RustVendor::ImportCargoLock);
        }
    }
    proof {
        assert(v@ =~= spec_rust_vendors(*s));
    }
    v
}

/// Appends both variants of every detected project type for one vendoring
/// choice.
fn push_python_block(choices: &mut Vec<Builder>, rust: Option<RustVendor>, fmts: &Vec<PythonFormat>)
    ensures
        final(choices)@ == old(choices)@ + python_block(rust, fmts@),
{
    let ghost f = fmts@;
    let n = fmts.len();
    let mut j: usize = 0;
    proof {
        assert(f.skip(0) =~= f);
        assert(old(choices)@ + python_block(rust, f) =~= choices@ + python_block(
            rust,
            f.skip(0),
        ));
    }
    while j < n
        invariant
            n == fmts@.len(),
            f == fmts@,
            j <= n,
            old(choices)@ + python_block(rust, f) == choices@ + python_block(
                rust,
                f.skip(j as int),
            ),
        decreases n - j,
    {
        let ghost rest = f.skip(j as int);
        proof {
            assert(rest[0] == f[j as int]);
            assert(rest.skip(1) =~= f.skip(j + 1));
            assert(python_block(rust, rest) == python_pair(rust, rest[0]) + python_block(
                rust,
                rest.skip(1),
            ));
        }
        let fmt = fmts[j];
        choices.push(Builder::BuildPythonPackage { application: true, format: fmt, rust });
        choices.push(Builder::BuildPythonPackage { application: false, format: fmt, rust });
        proof {
            assert(choices@ + python_block(rust, f.skip(j + 1)) =~= choices@.drop_last()
                .drop_last() + python_block(rust, rest));
        }
        j += 1;
    }
    proof {
        assert(f.skip(n as int).len() == 0);
        assert(choices@ + python_block(rust, f.skip(n as int)) =~= choices@);
    }
}

/// Enumerates the build-strategy candidates for a source tree, first
/// preference first.  The list is never empty: the generic derivation is
/// always a candidate.
pub fn enumerate_builders(s: &SourceSignals) -> (r: Vec<Builder>)
    ensures
        r@ == spec_builders(*s),
        r@.len() > 0,
{
    let vendors = rust_vendors(s);
    let mut choices: Vec<Builder> = Vec::new();
    if s.has_go {
        choices.push(Builder::BuildGoModule);
    }
    let fmts = python_formats(s);
    if fmts.len() > 0 {
        let mut vi: usize = 0;
        while vi < vendors.len()
            invariant
                vendors@ == spec_rust_vendors(*s),
                fmts@ == spec_python_formats(*s),
                vi <= vendors@.len(),
                vendors@.len() == 2 ==> choices@ =~= (if s.has_go {
                    seq![Builder::BuildGoModule]
                } else {
                    Seq::<Builder>::empty()
                }) + (if vi == 0 {
                    Seq::<Builder>::empty()
                } else if vi == 1 {
                    python_block(Some(vendors@[0]), fmts@)
                } else {
                    python_block(Some(vendors@[0]), fmts@) + python_block(
                        Some(vendors@[1]),
                        fmts@,
                    )
                }),
                vendors@.len() == 0 ==> vi == 0 && choices@ =~= (if s.has_go {
                    seq![Builder::BuildGoModule]
                } else {
                    Seq::<Builder>::empty()
                }),
            decreases vendors@.len() - vi,
        {
            let v = vendors[vi];
            push_python_block(&mut choices, Some(v), &fmts);
            vi += 1;
        }
        push_python_block(&mut choices, None, &fmts);
    }
    if s.has_cargo {
        let mut vi: usize = 0;
        let ghost base = choices@;
        while vi < vendors.len()
            invariant
                vendors@ == spec_rust_vendors(*s),
                s.has_cargo,
                vendors@.len() == 2,
                vi <= 2,
                choices@ =~= base + (if vi == 0 {
                    Seq::<Builder>::empty()
                } else if vi == 1 {
                    rust_pair(vendors@[0], s.has_meson)
                } else {
                    rust_pair(vendors@[0], s.has_meson) + rust_pair(vendors@[1], s.has_meson)
                }),
            decreases vendors@.len() - vi,
        {
            let v = vendors[vi];
            if s.has_meson {
                choices.push(Builder::MkDerivation { rust: Some(v) });
                choices.push(Builder::BuildRustPackage { vendor: v });
            } else {
                choices.push(Builder::BuildRustPackage { vendor: v });
                choices.push(Builder::MkDerivation { rust: Some(v) });
            }
            vi += 1;
        }
    }
    choices.push(Builder::MkDerivation { rust: None });
    proof {
        assert(choices@ =~= spec_builders(*s));
    }
    choices
}

/// Law (builder enumeration determinism): with a compiled-language manifest
/// whose lock file references no version-control source, and a meta-build
/// descriptor present, the candidates place the vendor-archive-hash strategy
/// before the lock-file-embedding strategy, and within each strategy the
/// generic-derivation variant before the dedicated builder.
pub proof fn lemma_builder_enumeration_order(s: SourceSignals)
    requires
        s.has_cargo,
        s.has_cargo_lock,
        !s.lock_has_git_source,
        s.has_meson,
    ensures
        ({
            let r = spec_builders(s);
            let k = (if s.has_go {
                1int
            } else {
                0int
            }) + 6 * spec_python_formats(s).len();
            r.subrange(k, k + 4) =~= seq![
                Builder::MkDerivation { rust: Some(RustVendor::FetchCargoVendor) },
                Builder::BuildRustPackage { vendor: RustVendor::FetchCargoVendor },
                Builder::MkDerivation { rust: Some(RustVendor::ImportCargoLock) },
                Builder::BuildRustPackage { vendor: RustVendor::ImportCargoLock },
            ]
        }),
{
    let vendors = spec_rust_vendors(s);
    let fmts = spec_python_formats(s);
    lemma_python_block_len(Some(vendors[0]), fmts);
    lemma_python_block_len(Some(vendors[1]), fmts);
    lemma_python_block_len(None, fmts);
}

/// A project-type block holds two variants per detected type.
proof fn lemma_python_block_len(rust: Option<RustVendor>, fmts: Seq<PythonFormat>)
    ensures
        python_block(rust, fmts).len() == 2 * fmts.len(),
    decreases fmts.len(),
{
    if fmts.len() > 0 {
        lemma_python_block_len(rust, fmts.skip(1));
    }
}

} // verus!
