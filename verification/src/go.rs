use vstd::prelude::*;

use crate::inputs::{added1, added2, env_gains, AllInputs, Bucket, sorted_insert_view};
use crate::text::{has_prefix, next_token, next_token_view, strip_prefix_str};
use crate::utils::{SemVer, parse_semver, semver_of, views};

verus! {

broadcast use vstd::string::group_string_axioms;

/// The length of the prefix of a module version token before its first
/// slash.
pub open spec fn slash_len(s: Seq<char>) -> int
    decreases s.len(),
{
    if s.len() > 0 && s[0] != '/' {
        1 + slash_len(s.skip(1))
    } else {
        0
    }
}

/// Everything before the first slash.
pub open spec fn slash_head(s: Seq<char>) -> Seq<char> {
    s.take(slash_len(s))
}

/// The prefix of a token before its first slash.
fn before_slash(s: &str) -> (r: &str)
    ensures
        r@ == slash_head(s@),
{
    let len = s.unicode_len();
    let mut i: usize = 0;
    assert(s@.skip(0) =~= s@);
    while i < len && s.get_char(i) != '/'
        invariant
            len == s@.len(),
            i <= len,
            slash_len(s@) == i + slash_len(s@.skip(i as int)),
            forall|j: int| 0 <= j < i ==> s@[j] != '/',
        decreases len - i,
    {
        proof {
            assert(s@.skip(i as int)[0] == s@[i as int]);
            assert(s@.skip(i as int).skip(1) =~= s@.skip(i + 1));
        }
        i += 1;
    }
    proof {
        if i < len {
            assert(s@.skip(i as int)[0] == s@[i as int]);
        }
        assert(slash_len(s@) == i);
    }
    let r = s.substring_char(0, i);
    assert(r@ =~= s@.take(i as int));
    r
}

/// The version column of one module-sum line, still raw.
pub struct GoVersion {
    pub token: Option<String>,
}

/// One module-sum line: the module path and its version column.
pub struct GoPackage {
    pub name: String,
    pub version: GoVersion,
}

/// What a version token resolves to: the part after the leading `v` and
/// before any `/go.mod` suffix, parsed as a semantic version.
pub open spec fn go_version_view(tok: Seq<char>) -> Option<SemVer> {
    if has_prefix(tok, "v"@) {
        semver_of(slash_head(tok.skip("v"@.len() as int)))
    } else {
        None
    }
}

impl GoVersion {
    /// The version the token carries, when it is one.
    pub fn get(&self) -> (r: Option<SemVer>)
        ensures
            r == (match self.token {
                Some(t) => go_version_view(t@),
                None => None,
            }),
    {
        let tok = match &self.token {
            Some(t) => t,
            None => {
                return None;
            },
        };
        let rest = match strip_prefix_str(tok.as_str(), "v") {
            Some(rest) => rest,
            None => {
                return None;
            },
        };
        parse_semver(before_slash(rest))
    }
}

impl GoPackage {
    /// Reads one module-sum line: the first whitespace-delimited token is the
    /// module path, the second its version.  A blank line is no package.
    pub fn from_line(line: &str) -> (r: Option<GoPackage>)
        ensures
            match r {
                Some(p) => next_token_view(line@) matches Some(t) && p.name@ == t.0
                    && (match p.version.token {
                    Some(v) => next_token_view(t.1) matches Some(u) && v@ == u.0,
                    None => next_token_view((next_token_view(line@)->Some_0).1) is None,
                }),
                None => next_token_view(line@) is None,
            },
    {
        let (name, rest) = match next_token(line) {
            Some(p) => p,
            None => {
                return None;
            },
        };
        let token = match next_token(rest) {
            Some(p) => Some(p.0.to_owned()),
            None => None,
        };
        Some(GoPackage { name: name.to_owned(), version: GoVersion { token } })
    }
}

/// Whether the resolved version asks for the legacy compiler flag: the
/// system-statistics module needed it before 3.21.3, and in its second major
/// line before 2.21.11.
pub open spec fn gopsutil_needs_flag(v: Option<SemVer>) -> bool {
    match v {
        Some(sv) => sv.spec_before_release(3, 21, 3) && (sv.major != 2 || sv.spec_before_release(
            2,
            21,
            11,
        )),
        None => false,
    }
}

/// The resolved version of one module-sum entry.
pub open spec fn go_pkg_version(pkg: &GoPackage) -> Option<SemVer> {
    match pkg.version.token {
        Some(t) => go_version_view(t@),
        None => None,
    }
}

/// What the table does for one module: which names land in which buckets of
/// which set, which variable the environment gains, and that nothing else
/// moves.
pub open spec fn go_dep_applied(
    o: AllInputs,
    n: AllInputs,
    name: Seq<char>,
    ver: Option<SemVer>,
) -> bool {
    if name == "github.com/diamondburned/gotk4-adwaita/pkg"@ {
        added1(o.build_inputs, n.build_inputs, Bucket::Always, "libadwaita"@)
            && n.native_build_inputs == o.native_build_inputs && n.env == o.env
    } else if name == "github.com/diamondburned/gotk4/pkg"@ {
        added2(
            o.native_build_inputs,
            n.native_build_inputs,
            Bucket::Always,
            "pkg-config"@,
            Bucket::Always,
            "wrapGAppsHook4"@,
        ) && added1(o.build_inputs, n.build_inputs, Bucket::Always, "gtk4"@) && n.env == o.env
    } else if name == "github.com/dlasky/gotk3-layershell"@ {
        added1(o.native_build_inputs, n.native_build_inputs, Bucket::Always, "pkg-config"@)
            && added1(o.build_inputs, n.build_inputs, Bucket::Always, "gtk-layer-shell"@)
            && n.env == o.env
    } else if name == "github.com/getlantern/systray"@ {
        &&& added1(o.native_build_inputs, n.native_build_inputs, Bucket::Always, "pkg-config"@)
        &&& n.build_inputs.bucket_view(Bucket::Linux) == sorted_insert_view(
            o.build_inputs.bucket_view(Bucket::Linux),
            "libayatana-appindicator"@,
        )
        &&& n.build_inputs.bucket_view(Bucket::Darwin) == sorted_insert_view(
            sorted_insert_view(
                o.build_inputs.bucket_view(Bucket::Darwin),
                "darwin.apple_sdk.frameworks."@ + "Cocoa"@,
            ),
            "darwin.apple_sdk.frameworks."@ + "WebKit"@,
        )
        &&& (forall|c: Bucket|
            c != Bucket::Linux && c != Bucket::Darwin ==> n.build_inputs.bucket_view(c)
                == o.build_inputs.bucket_view(c))
        &&& n.env == o.env
    } else if name == "github.com/google/gopacket"@ {
        added1(o.build_inputs, n.build_inputs, Bucket::Always, "libpcap"@)
            && n.native_build_inputs == o.native_build_inputs && n.env == o.env
    } else if name == "github.com/gotk3/gotk3"@ {
        added2(
            o.native_build_inputs,
            n.native_build_inputs,
            Bucket::Always,
            "pkg-config"@,
            Bucket::Always,
            "wrapGAppsHook"@,
        ) && added1(o.build_inputs, n.build_inputs, Bucket::Always, "gtk3"@) && n.env == o.env
    } else if name == "github.com/itchio/ox"@ || name == "github.com/itchio/screw"@ {
        added1(
            o.build_inputs,
            n.build_inputs,
            Bucket::Darwin,
            "darwin.apple_sdk.frameworks."@ + "Cocoa"@,
        ) && n.native_build_inputs == o.native_build_inputs && n.env == o.env
    } else if name == "github.com/shirou/gopsutil"@ {
        &&& n.native_build_inputs == o.native_build_inputs
        &&& n.build_inputs == o.build_inputs
        &&& (if gopsutil_needs_flag(ver) {
            env_gains(o.env@, n.env@, "CGO_CFLAGS"@, "\"-Wno-undef-prefix\""@)
        } else {
            n.env == o.env
        })
    } else if name == "golang.design/x/clipboard"@ {
        added2(
            o.build_inputs,
            n.build_inputs,
            Bucket::Linux,
            "xorg.libX11"@,
            Bucket::Darwin,
            "darwin.apple_sdk.frameworks."@ + "Cocoa"@,
        ) && n.native_build_inputs == o.native_build_inputs && n.env == o.env
    } else {
        n == o
    }
}

/// The module paths the table knows.
pub open spec fn go_dep_known(name: Seq<char>) -> bool {
    ||| name == "github.com/diamondburned/gotk4-adwaita/pkg"@
    ||| name == "github.com/diamondburned/gotk4/pkg"@
    ||| name == "github.com/dlasky/gotk3-layershell"@
    ||| name == "github.com/getlantern/systray"@
    ||| name == "github.com/google/gopacket"@
    ||| name == "github.com/gotk3/gotk3"@
    ||| name == "github.com/itchio/ox"@
    ||| name == "github.com/itchio/screw"@
    ||| name == "github.com/shirou/gopsutil"@
    ||| name == "golang.design/x/clipboard"@
}

/// Maps one module-sum entry onto its build inputs, honoring the version
/// thresholds the table carries.  An unknown module changes nothing: partial
/// mapping is the accepted steady state.
#[verifier::rlimit(100)]
#[verifier::spinoff_prover]
pub fn load_go_dependency(inputs: &mut AllInputs, pkg: &GoPackage)
    requires
        old(inputs).wf(),
    ensures
        final(inputs).wf(),
        go_dep_applied(*old(inputs), *final(inputs), pkg.name@, go_pkg_version(pkg)),
{
    let name = pkg.name.as_str();
    if crate::text::str_eq(name, "github.com/diamondburned/gotk4-adwaita/pkg") {
        inputs.build("libadwaita");
    } else if crate::text::str_eq(name, "github.com/diamondburned/gotk4/pkg") {
        inputs.native("pkg-config");
        inputs.native("wrapGAppsHook4");
        inputs.build("gtk4");
    } else if crate::text::str_eq(name, "github.com/dlasky/gotk3-layershell") {
        inputs.native("pkg-config");
        inputs.build("gtk-layer-shell");
    } else if crate::text::str_eq(name, "github.com/getlantern/systray") {
        inputs.native("pkg-config");
        inputs.build_on(Bucket::Linux, "libayatana-appindicator");
        inputs.framework("Cocoa");
        inputs.framework("WebKit");
    } else if crate::text::str_eq(name, "github.com/google/gopacket") {
        inputs.build("libpcap");
    } else if crate::text::str_eq(name, "github.com/gotk3/gotk3") {
        inputs.native("pkg-config");
        inputs.native("wrapGAppsHook");
        inputs.build("gtk3");
    } else if crate::text::str_eq(name, "github.com/itchio/ox") {
        inputs.framework("Cocoa");
    } else if crate::text::str_eq(name, "github.com/itchio/screw") {
        inputs.framework("Cocoa");
    } else if crate::text::str_eq(name, "github.com/shirou/gopsutil") {
        let needs_flag = match pkg.version.get() {
            Some(v) => {
                v.before_release(3, 21, 3) && (v.major != 2 || v.before_release(2, 21, 11))
            },
            None => false,
        };
        if needs_flag {
            inputs.env_var("CGO_CFLAGS", "\"-Wno-undef-prefix\"", Vec::new());
        }
    } else if crate::text::str_eq(name, "golang.design/x/clipboard") {
        inputs.build_on(Bucket::Linux, "xorg.libX11");
        inputs.framework("Cocoa");
    }
}

// ---------------------------------------------------------------------------
// The whole module-sum file.
// ---------------------------------------------------------------------------

/// What one line of the file does: nothing when it holds no package, the
/// table's work for its module and version otherwise.
pub open spec fn go_line_applied(o: AllInputs, n: AllInputs, line: Seq<char>) -> bool {
    match next_token_view(line) {
        None => n == o,
        Some(t) => go_dep_applied(
            o,
            n,
            t.0,
            match next_token_view(t.1) {
                Some(u) => go_version_view(u.0),
                None => None,
            },
        ),
    }
}

/// What a run of lines does: each line's work in order, through well-formed
/// intermediate states.
pub open spec fn go_lines_applied(o: AllInputs, n: AllInputs, lines: Seq<Seq<char>>) -> bool
    decreases lines.len(),
{
    if lines.len() == 0 {
        n == o
    } else {
        exists|mid: AllInputs|
            mid.wf() && #[trigger] go_line_applied(o, mid, lines[0]) && go_lines_applied(
                mid,
                n,
                lines.skip(1),
            )
    }
}

/// One more line's work extends a run.
proof fn lemma_go_lines_applied_snoc(
    o: AllInputs,
    mid: AllInputs,
    n: AllInputs,
    lines: Seq<Seq<char>>,
    l: Seq<char>,
)
    requires
        go_lines_applied(o, mid, lines),
        mid.wf(),
        n.wf(),
        go_line_applied(mid, n, l),
    ensures
        go_lines_applied(o, n, lines.push(l)),
    decreases lines.len(),
{
    if lines.len() == 0 {
        assert(mid == o);
        assert(lines.push(l)[0] == l);
        assert(lines.push(l).skip(1) =~= Seq::<Seq<char>>::empty());
        assert(go_line_applied(o, n, lines.push(l)[0]));
        assert(go_lines_applied(n, n, lines.push(l).skip(1)));
    } else {
        let m1 = choose|m1: AllInputs|
            m1.wf() && #[trigger] go_line_applied(o, m1, lines[0]) && go_lines_applied(
                m1,
                mid,
                lines.skip(1),
            );
        lemma_go_lines_applied_snoc(m1, mid, n, lines.skip(1), l);
        assert(lines.push(l)[0] == lines[0]);
        assert(lines.push(l).skip(1) =~= lines.skip(1).push(l));
        assert(go_line_applied(o, m1, lines.push(l)[0]));
    }
}

/// Law (mapping partiality): a line that holds no package, or names a module
/// the table does not know, contributes nothing; it never stops the mapping
/// of the lines after it.
pub proof fn lemma_go_unknown_line_skipped(o: AllInputs, n: AllInputs, line: Seq<char>)
    requires
        go_line_applied(o, n, line),
        next_token_view(line) matches Some(t) ==> !go_dep_known(t.0),
    ensures
        n == o,
{
}

/// Maps a whole module-sum file, line by line: the final state is the lines'
/// work applied in order.  A line that holds no package — or names a module
/// the table does not know — is skipped; it never stops the mapping of the
/// lines after it.
pub fn load_go_dependencies(inputs: &mut AllInputs, go_sum_lines: &Vec<String>)
    requires
        old(inputs).wf(),
    ensures
        final(inputs).wf(),
        go_lines_applied(*old(inputs), *final(inputs), views(go_sum_lines@)),
{
    let ghost all = views(go_sum_lines@);
    let n = go_sum_lines.len();
    let mut i: usize = 0;
    proof {
        assert(all.take(0).len() == 0);
        assert(go_lines_applied(*old(inputs), *inputs, all.take(0)));
    }
    while i < n
        invariant
            n == go_sum_lines@.len(),
            all == views(go_sum_lines@),
            inputs.wf(),
            i <= n,
            go_lines_applied(*old(inputs), *inputs, all.take(i as int)),
        decreases n - i,
    {
        let ghost mid = *inputs;
        let ghost line = all[i as int];
        proof {
            assert(all[i as int] == go_sum_lines@[i as int]@);
        }
        match GoPackage::from_line(go_sum_lines[i].as_str()) {
            Some(pkg) => {
                load_go_dependency(inputs, &pkg);
                proof {
                    assert(go_line_applied(mid, *inputs, line)) by {
                        assert(next_token_view(line) matches Some(t) && pkg.name@ == t.0);
                        assert(go_pkg_version(&pkg) == (match next_token_view(
                            (next_token_view(line)->Some_0).1,
                        ) {
                            Some(u) => go_version_view(u.0),
                            None => None,
                        })) by {
                            match pkg.version.token {
                                Some(t) => {},
                                None => {},
                            }
                        }
                    }
                }
            },
            None => {
                proof {
                    assert(go_line_applied(mid, *inputs, line));
                }
            },
        }
        proof {
            lemma_go_lines_applied_snoc(*old(inputs), mid, *inputs, all.take(i as int), line);
            assert(all.take(i as int).push(line) =~= all.take(i + 1));
        }
        i += 1;
    }
    proof {
        assert(all.take(n as int) =~= all);
    }
}

} // verus!
