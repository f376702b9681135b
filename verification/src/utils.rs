use vstd::prelude::*;

use crate::text::{
    alpha_char, ascii_lower_char, has_prefix, hex_char, is_hex_char, lex_lt, numeric_char,
    starts_with_str, str_eq, str_lt, strip_prefix_str, to_lower_char, trim_end_view,
    trim_start_str, trim_start_view, trim_str,
};

verus! {

/// A syntactically valid placeholder that no real artifact hashes to.
pub const FAKE_HASH: &'static str = "sha256-AAAAAAAAAAAAAAAAAAAAAAAAAAAAAAAAAAAAAAAAAAA=";

/// The views of a vector of lines.
pub open spec fn views(lines: Seq<String>) -> Seq<Seq<char>> {
    lines.map_values(|l: String| l@)
}

// ---------------------------------------------------------------------------
// Version strings synthesized from a revision id.
// ---------------------------------------------------------------------------

/// Where the first numeric character of a revision id stands; negative when
/// it has none.
pub open spec fn first_numeric_at(rev: Seq<char>) -> int
    decreases rev.len(),
{
    if rev.len() == 0 {
        -1
    } else if numeric_char(rev[0]) {
        0
    } else {
        let r = first_numeric_at(rev.skip(1));
        if r == -1 {
            -1
        } else {
            1 + r
        }
    }
}

proof fn lemma_first_numeric_bounds(rev: Seq<char>)
    ensures
        first_numeric_at(rev) == -1 || (0 <= first_numeric_at(rev) && first_numeric_at(rev)
            < rev.len()),
    decreases rev.len(),
{
    if rev.len() > 0 && !numeric_char(rev[0]) {
        lemma_first_numeric_bounds(rev.skip(1));
    }
}

/// The suffix of a revision id starting at its first numeric character; the
/// whole id when it has none.
pub open spec fn version_number_view(rev: Seq<char>) -> Seq<char> {
    if first_numeric_at(rev) == -1 {
        rev
    } else {
        rev.skip(first_numeric_at(rev))
    }
}

/// A revision id that looks like a bare VCS commit hash: exactly 40
/// hexadecimal characters.
pub open spec fn looks_like_commit_id(rev: Seq<char>) -> bool {
    rev.len() == 40 && forall|i: int| 0 <= i < rev.len() ==> hex_char(#[trigger] rev[i])
}

/// The version string synthesized for a revision nothing else is known about.
pub open spec fn version_from_rev_view(rev: Seq<char>) -> Seq<char> {
    if looks_like_commit_id(rev) {
        "unstable"@
    } else {
        version_number_view(rev)
    }
}

/// The suffix of the revision id starting at its first numeric character
/// (`v1.2.3` gives `1.2.3`); the whole id when it has none.
pub fn get_version_number(rev: &str) -> (r: &str)
    ensures
        r@ == version_number_view(rev@),
{
    let len = rev.unicode_len();
    let mut i: usize = 0;
    assert(rev@.skip(0) =~= rev@);
    while i < len && !rev.get_char(i).is_numeric()
        invariant
            len == rev@.len(),
            i <= len,
            first_numeric_at(rev@.skip(i as int)) == -1 ==> first_numeric_at(rev@) == -1,
            first_numeric_at(rev@.skip(i as int)) != -1 ==> first_numeric_at(rev@) == i
                + first_numeric_at(rev@.skip(i as int)),
        decreases len - i,
    {
        proof {
            assert(rev@.skip(i as int)[0] == rev@[i as int]);
            assert(rev@.skip(i as int).skip(1) =~= rev@.skip(i + 1));
            assert(first_numeric_at(rev@.skip(i as int)) == ({
                let r = first_numeric_at(rev@.skip(i + 1));
                if r == -1 {
                    -1
                } else {
                    1 + r
                }
            }));
            if first_numeric_at(rev@.skip(i + 1)) != -1 {
                lemma_first_numeric_bounds(rev@.skip(i + 1));
                assert(first_numeric_at(rev@.skip(i as int)) != -1);
            }
        }
        i += 1;
    }
    if i >= len {
        proof {
            assert(rev@.skip(i as int).len() == 0);
            assert(first_numeric_at(rev@) == -1);
        }
        return rev;
    }
    proof {
        assert(rev@.skip(i as int)[0] == rev@[i as int]);
        assert(first_numeric_at(rev@.skip(i as int)) == 0);
        assert(first_numeric_at(rev@) == i);
    }
    let r = rev.substring_char(i, len);
    proof {
        assert(r@ =~= rev@.skip(i as int));
    }
    r
}

/// The authorization header value carrying a host's access token.
pub fn bearer_auth(token: &str) -> (r: String)
    ensures
        r@ == "Bearer "@ + token@,
{
    let mut s = String::new();
    s.append("Bearer ");
    s.append(token);
    proof {
        assert(s@ =~= "Bearer "@ + token@);
    }
    s
}

/// The default version synthesized for a branch head or a plain commit:
/// a zero version marked unstable, dated by the commit's calendar day.
pub fn unstable_version(date: &str) -> (r: String)
    ensures
        r@ == "0-unstable-"@ + date@,
{
    let mut s = String::new();
    s.append("0-unstable-");
    s.append(date);
    proof {
        assert(s@ =~= "0-unstable-"@ + date@);
    }
    s
}

/// The default version for a user-supplied revision: `unstable` for what is
/// exactly a 40-digit hexadecimal commit id, the digit suffix otherwise.
pub fn get_version(rev: &str) -> (r: &str)
    ensures
        r@ == version_from_rev_view(rev@),
{
    let len = rev.unicode_len();
    if len == 40 {
        let mut i: usize = 0;
        let mut all_hex = true;
        while i < len
            invariant
                len == rev@.len(),
                i <= len,
                all_hex == forall|j: int| 0 <= j < i ==> hex_char(#[trigger] rev@[j]),
            decreases len - i,
        {
            if !is_hex_char(rev.get_char(i)) {
                all_hex = false;
                assert(!forall|j: int| 0 <= j < i + 1 ==> hex_char(#[trigger] rev@[j]));
            }
            i += 1;
        }
        if all_hex {
            return "unstable";
        }
    }
    get_version_number(rev)
}

// ---------------------------------------------------------------------------
// The hash oracle: scraping the real content hash out of the diagnostics of a
// deliberately failing fixed-output build.
// ---------------------------------------------------------------------------

/// What a scan of diagnostic lines yields: the first line whose trimmed form
/// starts with `specified:` and whose successor starts with `got:` gives up
/// everything after `got:`, trimmed.  The scan walks the lines as an
/// iterator: a successor that fails the `got:` test is consumed, so a
/// matching pair whose `specified:` line was itself consumed that way is
/// passed over.
pub open spec fn scraped_hash_view(lines: Seq<Seq<char>>) -> Option<Seq<char>>
    decreases lines.len(),
{
    if lines.len() == 0 {
        None
    } else if !has_prefix(trim_start_view(lines[0]), "specified:"@) {
        scraped_hash_view(lines.skip(1))
    } else if lines.len() == 1 {
        None
    } else if has_prefix(trim_start_view(lines[1]), "got:"@) {
        Some(
            trim_end_view(
                trim_start_view(trim_start_view(lines[1]).skip("got:"@.len() as int)),
            ),
        )
    } else {
        scraped_hash_view(lines.skip(2))
    }
}

/// Scans diagnostic output for the `specified:` / `got:` pair and returns the
/// real hash it names.
pub fn scrape_hash(lines: &Vec<String>) -> (r: Option<String>)
    ensures
        match r {
            Some(h) => scraped_hash_view(views(lines@)) == Some(h@),
            None => scraped_hash_view(views(lines@)) is None,
        },
{
    let ghost all = views(lines@);
    let n = lines.len();
    let mut i: usize = 0;
    assert(all.skip(0) =~= all);
    loop
        invariant
            n == lines@.len(),
            all == views(lines@),
            all.len() == n,
            i <= n,
            scraped_hash_view(all) == scraped_hash_view(all.skip(i as int)),
        decreases n - i,
    {
        if i >= n {
            return None;
        }
        proof {
            assert(all.skip(i as int)[0] == all[i as int]);
        }
        if !starts_with_str(trim_start_str(lines[i].as_str()), "specified:") {
            proof {
                assert(all.skip(i as int).skip(1) =~= all.skip(i + 1));
            }
            i += 1;
            continue;
        }
        if i + 1 >= n {
            assert(all.skip(i as int).len() == 1);
            return None;
        }
        proof {
            assert(all.skip(i as int)[1] == all[i + 1]);
        }
        let second = trim_start_str(lines[i + 1].as_str());
        match strip_prefix_str(second, "got:") {
            Some(rest) => {
                let hash = trim_str(rest);
                return Some(hash.to_owned());
            },
            None => {
                proof {
                    assert(all.skip(i as int).skip(2) =~= all.skip(i + 2));
                }
                i += 2;
            },
        }
    }
}

/// The outcome of the deliberately failing sandboxed build: None both for the
/// anomaly of an unexpected success and for diagnostics without the
/// `specified:` / `got:` pair, in which cases the caller falls back to the
/// placeholder.
pub fn fod_hash_from_build(build_succeeded: bool, stderr_lines: &Vec<String>) -> (r: Option<
    String,
>)
    ensures
        build_succeeded ==> r is None,
        !build_succeeded ==> match r {
            Some(h) => scraped_hash_view(views(stderr_lines@)) == Some(h@),
            None => scraped_hash_view(views(stderr_lines@)) is None,
        },
{
    if build_succeeded {
        None
    } else {
        scrape_hash(stderr_lines)
    }
}

// ---------------------------------------------------------------------------
// Semantic versions, as the version model and the dependency mappers read
// them.
// ---------------------------------------------------------------------------

/// What a semantic version carries: its numeric triple and its pre-release
/// identifier (empty when none).  Build metadata plays no part in any
/// comparison this library makes.
#[derive(Clone, PartialEq, Eq, Debug)]
pub struct SemVer {
    pub major: u64,
    pub minor: u64,
    pub patch: u64,
    pub pre: String,
}

/// What semver::Version::parse yields of a string, when it parses.
pub uninterp spec fn semver_of(s: Seq<char>) -> Option<SemVer>;

/// Relies on semver::Version::parse: accepts exactly the well-formed
/// semantic versions, yielding the numeric components and the pre-release
/// identifier.
#[verifier::external_body]
pub fn parse_semver(s: &str) -> (r: Option<SemVer>)
    ensures
        r == semver_of(s@),
{
    match semver::Version::parse(s) {
        Ok(v) => Some(
            SemVer {
                major: v.major,
                minor: v.minor,
                patch: v.patch,
                pre: v.pre.as_str().to_owned(),
            },
        ),
        Err(_) => None,
    }
}

impl SemVer {
    /// A version without a pre-release identifier.
    pub open spec fn is_release(&self) -> bool {
        self.pre@.len() == 0
    }

    /// Strict order on the numeric triples alone.
    pub open spec fn triple_lt(&self, other: &SemVer) -> bool {
        ||| self.major < other.major
        ||| (self.major == other.major && self.minor < other.minor)
        ||| (self.major == other.major && self.minor == other.minor && self.patch < other.patch)
    }

    /// Equality of the numeric triples alone.
    pub open spec fn triple_eq(&self, other: &SemVer) -> bool {
        self.major == other.major && self.minor == other.minor && self.patch == other.patch
    }

    /// Decides `triple_lt`.
    pub fn lt_triple(&self, other: &SemVer) -> (r: bool)
        ensures
            r == self.triple_lt(other),
    {
        self.major < other.major || (self.major == other.major && (self.minor < other.minor || (
        self.minor == other.minor && self.patch < other.patch)))
    }

    /// Whether this version precedes the plain release `major.minor.patch`:
    /// its triple is below, or equal while this version is a pre-release.
    pub open spec fn spec_before_release(&self, major: u64, minor: u64, patch: u64) -> bool {
        let rel = SemVer { major, minor, patch, pre: self.pre };
        self.triple_lt(&rel) || (self.triple_eq(&rel) && !self.is_release())
    }

    /// Decides `spec_before_release`.
    pub fn before_release(&self, major: u64, minor: u64, patch: u64) -> (r: bool)
        ensures
            r == self.spec_before_release(major, minor, patch),
    {
        if self.major != major {
            self.major < major
        } else if self.minor != minor {
            self.minor < minor
        } else if self.patch != patch {
            self.patch < patch
        } else {
            !self.pre.as_str().is_empty()
        }
    }

    /// Whether the plain release `major.minor.patch` is this version or an
    /// earlier one.
    pub fn at_least_release(&self, major: u64, minor: u64, patch: u64) -> (r: bool)
        ensures
            r == !self.spec_before_release(major, minor, patch),
    {
        !self.before_release(major, minor, patch)
    }
}

// ---------------------------------------------------------------------------
// The description and changelog fields of the manifest's metadata.
// ---------------------------------------------------------------------------

/// A letter or a numeral, as std classifies characters.
pub open spec fn alnum_char(c: char) -> bool {
    alpha_char(c) || numeric_char(c)
}

/// The summary without leading characters that are neither.
pub open spec fn trim_start_summary(s: Seq<char>) -> Seq<char>
    decreases s.len(),
{
    if s.len() > 0 && !alnum_char(s[0]) {
        trim_start_summary(s.skip(1))
    } else {
        s
    }
}

/// The summary without trailing characters that are neither.
pub open spec fn trim_end_summary(s: Seq<char>) -> Seq<char>
    decreases s.len(),
{
    if s.len() > 0 && !alnum_char(s[s.len() - 1]) {
        trim_end_summary(s.take(s.len() - 1))
    } else {
        s
    }
}

/// The ASCII-uppercased counterpart of a character.
pub open spec fn ascii_upper_char(c: char) -> char {
    if 'a' as u32 <= c as u32 && c as u32 <= 'z' as u32 {
        (c as u32 - 32) as u8 as char
    } else {
        c
    }
}

/// The description field's text: the summary bared of decoration on both
/// ends, its first character uppercased where ASCII allows it.
pub open spec fn summary_view(s: Seq<char>) -> Seq<char> {
    let t = trim_end_summary(trim_start_summary(s));
    if t.len() > 0 {
        seq![ascii_upper_char(t[0])] + t.skip(1)
    } else {
        t
    }
}

/// Normalizes a fetched description for the manifest.
pub fn normalize_summary(s: &str) -> (r: String)
    ensures
        r@ == summary_view(s@),
{
    let len = s.unicode_len();
    let mut i: usize = 0;
    proof {
        assert(s@.skip(0) =~= s@);
    }
    while i < len && !s.get_char(i).is_alphanumeric()
        invariant
            len == s@.len(),
            i <= len,
            trim_start_summary(s@) == trim_start_summary(s@.skip(i as int)),
        decreases len - i,
    {
        proof {
            assert(s@.skip(i as int)[0] == s@[i as int]);
            assert(s@.skip(i as int).skip(1) =~= s@.skip(i + 1));
        }
        i += 1;
    }
    proof {
        if i < len {
            assert(s@.skip(i as int)[0] == s@[i as int]);
        }
    }
    let mut j: usize = len;
    proof {
        assert(s@.skip(i as int).take(j - i) =~= s@.skip(i as int));
    }
    while j > i && !s.get_char(j - 1).is_alphanumeric()
        invariant
            len == s@.len(),
            i <= j <= len,
            trim_start_summary(s@) == s@.skip(i as int),
            trim_end_summary(s@.skip(i as int)) == trim_end_summary(
                s@.skip(i as int).take(j - i),
            ),
        decreases j,
    {
        proof {
            let t = s@.skip(i as int).take(j - i);
            assert(t[t.len() - 1] == s@[j - 1]);
            assert(t.take(t.len() - 1) =~= s@.skip(i as int).take(j - 1 - i));
        }
        j -= 1;
    }
    proof {
        let t = s@.skip(i as int).take(j - i);
        if j > i {
            assert(t[t.len() - 1] == s@[j - 1]);
        }
        assert(trim_end_summary(s@.skip(i as int)) == t);
    }
    if j == i {
        proof {
            assert(summary_view(s@) =~= Seq::<char>::empty());
        }
        return String::new();
    }
    let core = s.substring_char(i, j);
    proof {
        assert(core@ =~= s@.skip(i as int).take(j - i));
    }
    let first = core.get_char(0);
    let u = first as u32;
    let upper = if 97 <= u && u <= 122 {
        ((u - 32) as u8) as char
    } else {
        first
    };
    let mut out = String::new();
    out.push(upper);
    let rest = core.substring_char(1, j - i);
    out.append(rest);
    proof {
        assert(rest@ =~= core@.skip(1));
        assert(upper == ascii_upper_char(core@[0]));
        assert(out@ =~= seq![ascii_upper_char(core@[0])] + core@.skip(1));
    }
    out
}

/// The ASCII-lowercased view of a file name.
pub open spec fn lower_ascii_view(s: Seq<char>) -> Seq<char> {
    s.map_values(|c: char| ascii_lower_char(c))
}

/// Whether a file of this name is taken for the project's change log:
/// ASCII-lowercased, it starts with `changelog`, `changes` or `releases`, or
/// is exactly `news`.
pub open spec fn is_changelog_view(name: Seq<char>) -> bool {
    let l = lower_ascii_view(name);
    ||| has_prefix(l, "changelog"@)
    ||| has_prefix(l, "changes"@)
    ||| l == "news"@
    ||| has_prefix(l, "releases"@)
}

/// Decides `is_changelog_view`.
pub fn is_changelog_file(name: &str) -> (r: bool)
    ensures
        r == is_changelog_view(name@),
{
    let len = name.unicode_len();
    let mut lowered = String::new();
    let mut i: usize = 0;
    proof {
        assert(lowered@ =~= lower_ascii_view(name@).take(0));
    }
    while i < len
        invariant
            len == name@.len(),
            i <= len,
            lowered@ == lower_ascii_view(name@).take(i as int),
        decreases len - i,
    {
        let c = to_lower_char(name.get_char(i));
        lowered.push(c);
        proof {
            assert(lowered@ =~= lower_ascii_view(name@).take(i + 1));
        }
        i += 1;
    }
    proof {
        assert(lower_ascii_view(name@).take(len as int) =~= lower_ascii_view(name@));
    }
    let l = lowered.as_str();
    starts_with_str(l, "changelog") || starts_with_str(l, "changes") || str_eq(l, "news")
        || starts_with_str(l, "releases")
}

// ---------------------------------------------------------------------------
// How the chosen revision relates to the version, for the fetch expression.
// ---------------------------------------------------------------------------

/// Where a pattern first occurs in a text; negative when it never does.  An
/// empty pattern occurs at the start.
pub open spec fn find_sub(s: Seq<char>, sub: Seq<char>) -> int
    decreases s.len(),
{
    if sub.len() > s.len() {
        -1
    } else if sub.len() == 0 {
        0
    } else if s.take(sub.len() as int) == sub {
        0
    } else {
        let r = find_sub(s.skip(1), sub);
        if r == -1 {
            -1
        } else {
            1 + r
        }
    }
}

/// How the revision id embeds the version: it is the version, it holds it
/// somewhere, or the two are unrelated.
pub enum RevTemplate {
    SameAsVersion,
    Embedded(String),
    Unrelated,
}

/// The revision with its first occurrence of the version replaced by a
/// reference to it.
pub open spec fn rev_template_view(rev: Seq<char>, version: Seq<char>) -> Seq<char> {
    let i = find_sub(rev, version);
    rev.take(i) + "${version}"@ + rev.skip(i + version.len())
}

/// Finds the first occurrence of a pattern.
fn find_substring(s: &str, sub: &str) -> (r: Option<usize>)
    ensures
        match r {
            Some(i) => i + sub@.len() <= s@.len() && find_sub(s@, sub@) == i,
            None => find_sub(s@, sub@) == -1,
        },
{
    let len = s.unicode_len();
    let sublen = sub.unicode_len();
    let mut i: usize = 0;
    proof {
        assert(s@.skip(0) =~= s@);
    }
    loop
        invariant
            len == s@.len(),
            sublen == sub@.len(),
            i <= len,
            find_sub(s@.skip(i as int), sub@) == -1 ==> find_sub(s@, sub@) == -1,
            find_sub(s@.skip(i as int), sub@) != -1 ==> find_sub(s@, sub@) == i + find_sub(
                s@.skip(i as int),
                sub@,
            ),
        decreases len - i,
    {
        if sublen > len - i {
            proof {
                assert(s@.skip(i as int).len() < sub@.len());
            }
            return None;
        }
        let window = s.substring_char(i, i + sublen);
        proof {
            assert(window@ =~= s@.skip(i as int).take(sub@.len() as int));
        }
        if crate::text::str_eq(window, sub) {
            proof {
                assert(find_sub(s@.skip(i as int), sub@) == 0);
            }
            return Some(i);
        }
        proof {
            assert(sub@.len() > 0) by {
                if sub@.len() == 0 {
                    assert(window@ =~= sub@);
                }
            }
            assert(s@.skip(i as int).skip(1) =~= s@.skip(i + 1));
            assert(s@.skip(i as int).take(sub@.len() as int) != sub@);
            assert(find_sub(s@.skip(i as int), sub@) == ({
                let r = find_sub(s@.skip(i + 1), sub@);
                if r == -1 {
                    -1
                } else {
                    1 + r
                }
            }));
            if find_sub(s@.skip(i + 1), sub@) != -1 {
                lemma_find_sub_bounds(s@.skip(i + 1), sub@);
            }
        }
        i += 1;
    }
}

/// A found occurrence lies within the text.
proof fn lemma_find_sub_bounds(s: Seq<char>, sub: Seq<char>)
    ensures
        find_sub(s, sub) == -1 || (0 <= find_sub(s, sub) && find_sub(s, sub) + sub.len()
            <= s.len()),
    decreases s.len(),
{
    if sub.len() <= s.len() && sub.len() > 0 && s.take(sub.len() as int) != sub {
        lemma_find_sub_bounds(s.skip(1), sub);
    }
}

/// Decides how the chosen revision embeds the version, so that the fetch
/// expression can inherit or reference it instead of repeating it.
pub fn rev_template(rev: &str, version: &str) -> (r: RevTemplate)
    ensures
        rev@ == version@ ==> r is SameAsVersion,
        rev@ != version@ && find_sub(rev@, version@) >= 0 ==> (r matches RevTemplate::Embedded(t)
            && t@ == rev_template_view(rev@, version@)),
        rev@ != version@ && find_sub(rev@, version@) == -1 ==> r is Unrelated,
{
    if crate::text::str_eq(rev, version) {
        return RevTemplate::SameAsVersion;
    }
    match find_substring(rev, version) {
        Some(i) => {
            let len = rev.unicode_len();
            let vlen = version.unicode_len();
            let head = rev.substring_char(0, i);
            let tail = rev.substring_char(i + vlen, len);
            let mut out = String::new();
            out.append(head);
            out.append("${version}");
            out.append(tail);
            proof {
                lemma_find_sub_bounds(rev@, version@);
                assert(head@ =~= rev@.take(i as int));
                assert(tail@ =~= rev@.skip(i + version@.len()));
                assert(out@ =~= rev_template_view(rev@, version@));
            }
            RevTemplate::Embedded(out)
        },
        None => RevTemplate::Unrelated,
    }
}

// ---------------------------------------------------------------------------
// Ranking the gathered license findings.
// ---------------------------------------------------------------------------

/// Whether one license finding is listed before another: by rising
/// confidence, ties by name.
pub open spec fn license_before(a: (Seq<char>, u32), b: (Seq<char>, u32)) -> bool {
    a.1 < b.1 || (a.1 == b.1 && lex_lt(a.0, b.0))
}

/// Where inserting a finding into a ranked list leaves it: after everything
/// not strictly after it.
pub open spec fn license_insert(v: Seq<(Seq<char>, u32)>, c: (Seq<char>, u32)) -> Seq<
    (Seq<char>, u32),
>
    decreases v.len(),
{
    if v.len() == 0 {
        seq![c]
    } else if !license_before(c, v[0]) {
        seq![v[0]] + license_insert(v.skip(1), c)
    } else {
        seq![c] + v
    }
}

/// The findings ranked.
pub open spec fn license_ranked(v: Seq<(Seq<char>, u32)>) -> Seq<(Seq<char>, u32)>
    decreases v.len(),
{
    if v.len() == 0 {
        Seq::empty()
    } else {
        license_insert(license_ranked(v.drop_last()), v.last())
    }
}

/// The views of the findings.
pub open spec fn license_views(v: Seq<(String, u32)>) -> Seq<(Seq<char>, u32)> {
    v.map_values(|e: (String, u32)| (e.0@, e.1))
}

/// The names alone.
pub open spec fn license_names(v: Seq<(Seq<char>, u32)>) -> Seq<Seq<char>> {
    v.map_values(|e: (Seq<char>, u32)| e.0)
}

/// Files one finding into a ranked list.
fn license_insert_exec(v: &mut Vec<(String, u32)>, c: (String, u32))
    ensures
        license_views(final(v)@) == license_insert(license_views(old(v)@), (c.0@, c.1)),
{
    let ghost orig = license_views(v@);
    let ghost cv = (c.0@, c.1);
    let n = v.len();
    let mut i: usize = 0;
    proof {
        assert(orig.skip(0) =~= orig);
        assert(orig.take(0) + license_insert(orig, cv) =~= license_insert(orig, cv));
    }
    while i < n && !(c.1 < v[i].1 || (c.1 == v[i].1 && str_lt(c.0.as_str(), v[i].0.as_str())))
        invariant
            n == v@.len(),
            orig == license_views(v@),
            cv == (c.0@, c.1),
            i <= n,
            license_insert(orig, cv) == orig.take(i as int) + license_insert(
                orig.skip(i as int),
                cv,
            ),
        decreases n - i,
    {
        proof {
            let rest = orig.skip(i as int);
            assert(rest[0] == orig[i as int]);
            assert(rest.skip(1) =~= orig.skip(i + 1));
            assert(!license_before(cv, rest[0]));
            assert(license_insert(rest, cv) == seq![rest[0]] + license_insert(
                rest.skip(1),
                cv,
            ));
            assert(orig.take(i as int) + (seq![orig[i as int]] + license_insert(
                orig.skip(i + 1),
                cv,
            )) =~= orig.take(i + 1) + license_insert(orig.skip(i + 1), cv));
        }
        i += 1;
    }
    proof {
        let rest = orig.skip(i as int);
        if i < n {
            assert(rest[0] == orig[i as int]);
            assert(license_before(cv, rest[0]));
            assert(license_insert(rest, cv) == seq![cv] + rest);
        } else {
            assert(rest.len() == 0);
            assert(license_insert(rest, cv) == seq![cv]);
        }
        assert(license_insert(orig, cv) =~= orig.take(i as int) + seq![cv] + orig.skip(i as int));
    }
    v.insert(i, c);
    proof {
        assert(license_views(v@) =~= orig.take(i as int) + seq![cv] + orig.skip(i as int));
    }
}

/// Ranks the gathered license findings — by rising confidence, ties by name
/// — and lists their names in that order.
pub fn rank_licenses(entries: Vec<(String, u32)>) -> (r: Vec<String>)
    ensures
        views(r@) == license_names(license_ranked(license_views(entries@))),
{
    let ghost ev = license_views(entries@);
    let mut entries = entries;
    let mut ranked: Vec<(String, u32)> = Vec::new();
    let n = entries.len();
    let mut i: usize = 0;
    proof {
        assert(license_ranked(ev.take(0)) =~= Seq::<(Seq<char>, u32)>::empty());
        assert(license_views(ranked@) =~= license_ranked(ev.take(0)));
        assert(license_views(entries@) =~= ev.skip(0));
    }
    while i < n
        invariant
            n == ev.len(),
            i <= n,
            entries@.len() == n - i,
            license_views(entries@) == ev.skip(i as int),
            license_views(ranked@) == license_ranked(ev.take(i as int)),
        decreases n - i,
    {
        proof {
            assert(ev.take(i + 1).drop_last() =~= ev.take(i as int));
            assert(ev.take(i + 1).last() == ev[i as int]);
            assert(ev.skip(i as int)[0] == ev[i as int]);
        }
        let ghost pre = entries@;
        let c = entries.remove(0);
        proof {
            assert(license_views(pre)[0] == (pre[0].0@, pre[0].1));
            assert((c.0@, c.1) == ev[i as int]);
            assert(entries@ =~= pre.skip(1));
            assert forall|k: int|
                0 <= k < entries@.len() implies #[trigger] license_views(entries@)[k] == ev.skip(
                i + 1,
            )[k] by {
                assert(license_views(entries@)[k] == (entries@[k].0@, entries@[k].1));
                assert(entries@[k] == pre[k + 1]);
                assert(license_views(pre)[k + 1] == (pre[k + 1].0@, pre[k + 1].1));
                assert(license_views(pre)[k + 1] == ev.skip(i as int)[k + 1]);
                assert(ev.skip(i as int)[k + 1] == ev[i + 1 + k]);
                assert(ev.skip(i + 1)[k] == ev[i + 1 + k]);
            }
            assert(license_views(entries@) =~= ev.skip(i + 1));
        }
        license_insert_exec(&mut ranked, c);
        i += 1;
    }
    proof {
        assert(ev.take(n as int) =~= ev);
    }
    let ghost rv = license_ranked(ev);
    let mut names: Vec<String> = Vec::new();
    let m = ranked.len();
    let mut j: usize = 0;
    proof {
        assert(views(names@) =~= license_names(rv).take(0));
    }
    while j < m
        invariant
            m == ranked@.len(),
            license_views(ranked@) == rv,
            j <= m,
            views(names@) == license_names(rv).take(j as int),
        decreases m - j,
    {
        names.push(ranked[j].0.clone());
        proof {
            assert(license_views(ranked@)[j as int] == (ranked@[j as int].0@, ranked@[
                j as int].1));
            assert(rv[j as int].0 == ranked@[j as int].0@);
            assert(license_names(rv)[j as int] == rv[j as int].0);
            assert(views(names@) =~= views(names@.drop_last()).push(ranked@[j as int].0@));
            assert(license_names(rv).take(j + 1) =~= license_names(rv).take(j as int).push(
                license_names(rv)[j as int],
            ));
            assert(views(names@) =~= license_names(rv).take(j + 1));
        }
        j += 1;
    }
    proof {
        assert(license_names(rv).take(m as int) =~= license_names(rv));
    }
    names
}

} // verus!
