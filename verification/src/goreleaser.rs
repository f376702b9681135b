use vstd::prelude::*;

use crate::text::{trim_end_view, trim_start_view, trim_str, str_eq};
use crate::utils::views;

verus! {

// ---------------------------------------------------------------------------
// Trusted interface to the casing and shell-splitting crates.
// ---------------------------------------------------------------------------

/// What heck's lowerCamelCase conversion yields of a string.
pub uninterp spec fn lower_camel_of(s: Seq<char>) -> Seq<char>;

/// Relies on heck::ToLowerCamelCase::to_lower_camel_case: the result depends
/// on the characters alone.
#[verifier::external_body]
pub fn to_lower_camel(s: &str) -> (r: String)
    ensures
        r@ == lower_camel_of(s@),
{
    heck::ToLowerCamelCase::to_lower_camel_case(s)
}

/// What shlex's shell-word splitting yields of a string: its words, or
/// nothing for input no shell would accept.
pub uninterp spec fn shlex_split_of(s: Seq<char>) -> Option<Seq<Seq<char>>>;

/// Relies on shlex::split: the words depend on the characters alone.
#[verifier::external_body]
pub fn shlex_split(s: &str) -> (r: Option<Vec<String>>)
    ensures
        match r {
            Some(v) => shlex_split_of(s@) == Some(views(v@)),
            None => shlex_split_of(s@) is None,
        },
{
    shlex::split(s)
}

// ---------------------------------------------------------------------------
// The template grammar of the release-configuration tool.
// ---------------------------------------------------------------------------

/// Where the closing braces of a template field start, relative to the text
/// after the opening braces; negative when they never close.
pub open spec fn close_pos(t: Seq<char>) -> int
    decreases t.len(),
{
    if t.len() < 2 {
        -1
    } else if t[0] == '}' && t[1] == '}' {
        0
    } else {
        let r = close_pos(t.skip(1));
        if r == -1 {
            -1
        } else {
            1 + r
        }
    }
}

proof fn lemma_close_pos_bounds(t: Seq<char>)
    ensures
        close_pos(t) == -1 || (0 <= close_pos(t) && close_pos(t) + 2 <= t.len()),
    decreases t.len(),
{
    if t.len() >= 2 && !(t[0] == '}' && t[1] == '}') {
        lemma_close_pos_bounds(t.skip(1));
    }
}

/// What a template variable is replaced with; an unknown one becomes a
/// shell-style reference to its lowerCamelCase name.
pub open spec fn subst_view(x: Seq<char>) -> Seq<char> {
    if x == ".ProjectName"@ {
        "${pname}"@
    } else if x == ".Version"@ || x == ".RawVersion"@ {
        "${version}"@
    } else if x == ".Branch"@ || x == ".PrefixedTag"@ || x == ".Tag"@ || x == ".ShortCommit"@
        || x == ".FullCommit"@ || x == ".Commit"@ {
        "${src.rev}"@
    } else if x == ".Major"@ {
        "${lib.versions.major version}"@
    } else if x == ".Minor"@ {
        "${lib.versions.minor version}"@
    } else if x == ".Patch"@ {
        "${lib.versions.patch version}"@
    } else if x == ".Date"@ || x == ".CommitDate"@ {
        "1970-01-01T00:00:00Z"@
    } else if x == ".Timestamp"@ || x == ".CommitTimestamp"@ {
        "0"@
    } else if x == ".Summary"@ || x == ".PrefixedSummary"@ {
        "${src.rev}"@
    } else {
        "${"@ + lower_camel_of(x) + "}"@
    }
}

/// Replaces one template variable.
pub fn subst_var(x: &str) -> (r: String)
    ensures
        r@ == subst_view(x@),
{
    if str_eq(x, ".ProjectName") {
        "${pname}".to_owned()
    } else if str_eq(x, ".Version") || str_eq(x, ".RawVersion") {
        "${version}".to_owned()
    } else if str_eq(x, ".Branch") || str_eq(x, ".PrefixedTag") || str_eq(x, ".Tag") || str_eq(
        x,
        ".ShortCommit",
    ) || str_eq(x, ".FullCommit") || str_eq(x, ".Commit") {
        "${src.rev}".to_owned()
    } else if str_eq(x, ".Major") {
        "${lib.versions.major version}".to_owned()
    } else if str_eq(x, ".Minor") {
        "${lib.versions.minor version}".to_owned()
    } else if str_eq(x, ".Patch") {
        "${lib.versions.patch version}".to_owned()
    } else if str_eq(x, ".Date") || str_eq(x, ".CommitDate") {
        "1970-01-01T00:00:00Z".to_owned()
    } else if str_eq(x, ".Timestamp") || str_eq(x, ".CommitTimestamp") {
        "0".to_owned()
    } else if str_eq(x, ".Summary") || str_eq(x, ".PrefixedSummary") {
        "${src.rev}".to_owned()
    } else {
        let mut s = String::new();
        s.append("${");
        let camel = to_lower_camel(x);
        s.append(camel.as_str());
        s.append("}");
        proof {
            assert(s@ =~= "${"@ + lower_camel_of(x@) + "}"@);
        }
        s
    }
}

/// The trimmed variable of a template field.
pub open spec fn field_core(s: Seq<char>) -> Seq<char> {
    trim_end_view(trim_start_view(s.skip(2).take(close_pos(s.skip(2)))))
}

/// Whether the text starts with a whole template field: opening braces, a
/// close, and a variable that stays on one line.
pub open spec fn template_at(s: Seq<char>) -> bool {
    &&& s.len() >= 2
    &&& s[0] == '{'
    &&& s[1] == '{'
    &&& close_pos(s.skip(2)) >= 0
    &&& close_pos(s.skip(2)) + 4 <= s.len()
    &&& (forall|k: int| 0 <= k < field_core(s).len() ==> field_core(s)[k] != '\n')
}

/// The text with each template field replaced.
pub open spec fn expand_view(s: Seq<char>) -> Seq<char>
    decreases s.len(),
{
    if s.len() == 0 {
        Seq::empty()
    } else if template_at(s) {
        subst_view(field_core(s)) + expand_view(s.skip(2 + close_pos(s.skip(2)) + 2))
    } else {
        seq![s[0]] + expand_view(s.skip(1))
    }
}

/// Finds the closing braces from a position on; the returned index is
/// absolute.
fn find_close(s: &str, from: usize) -> (r: Option<usize>)
    requires
        from <= s@.len(),
    ensures
        match r {
            Some(j) => from <= j && j + 2 <= s@.len() && close_pos(s@.skip(from as int)) == j
                - from,
            None => close_pos(s@.skip(from as int)) == -1,
        },
{
    let len = s.unicode_len();
    let mut k = from;
    loop
        invariant
            len == s@.len(),
            from <= k <= len,
            close_pos(s@.skip(k as int)) == -1 ==> close_pos(s@.skip(from as int)) == -1,
            close_pos(s@.skip(k as int)) != -1 ==> close_pos(s@.skip(from as int)) == (k - from)
                + close_pos(s@.skip(k as int)),
        decreases len - k,
    {
        if k >= len {
            proof {
                assert(s@.skip(k as int).len() < 2);
            }
            return None;
        }
        if k + 1 >= len {
            proof {
                assert(s@.skip(k as int).len() < 2);
            }
            return None;
        }
        proof {
            assert(s@.skip(k as int)[0] == s@[k as int]);
            assert(s@.skip(k as int)[1] == s@[k + 1]);
            assert(s@.skip(k as int).skip(1) =~= s@.skip(k + 1));
        }
        if s.get_char(k) == '}' && s.get_char(k + 1) == '}' {
            return Some(k);
        }
        proof {
            assert(s@.skip(k as int).len() >= 2);
            assert(!(s@.skip(k as int)[0] == '}' && s@.skip(k as int)[1] == '}'));
            assert(close_pos(s@.skip(k as int)) == ({
                let r = close_pos(s@.skip(k as int).skip(1));
                if r == -1 {
                    -1
                } else {
                    1 + r
                }
            }));
            assert(close_pos(s@.skip(k as int).skip(1)) == close_pos(s@.skip(k + 1)));
            if close_pos(s@.skip(k + 1)) == -1 {
                assert(close_pos(s@.skip(k as int)) == -1);
                assert(close_pos(s@.skip(from as int)) == -1);
            } else {
                assert(close_pos(s@.skip(k as int)) == 1 + close_pos(s@.skip(k + 1)));
                assert(close_pos(s@.skip(k as int)) != -1) by {
                    lemma_close_pos_bounds(s@.skip(k + 1));
                }
                assert(close_pos(s@.skip(from as int)) == (k - from) + close_pos(
                    s@.skip(k as int),
                ));
                assert(close_pos(s@.skip(from as int)) == (k + 1 - from) + close_pos(
                    s@.skip(k + 1),
                ));
            }
        }
        k += 1;
    }
}

/// Whether any character is a line feed.
fn has_newline(s: &str) -> (r: bool)
    ensures
        r == exists|k: int| 0 <= k < s@.len() && s@[k] == '\n',
{
    let len = s.unicode_len();
    let mut i: usize = 0;
    while i < len
        invariant
            len == s@.len(),
            i <= len,
            forall|k: int| 0 <= k < i ==> s@[k] != '\n',
        decreases len - i,
    {
        if s.get_char(i) == '\n' {
            return true;
        }
        i += 1;
    }
    false
}

/// Expands every template field of a build-flag line: known release-time
/// variables become the manifest's own references, unknown ones a
/// lowerCamelCase placeholder, and text without a whole field stays as it
/// is.
pub fn parse_ldflags(s: &str) -> (r: String)
    ensures
        r@ == expand_view(s@),
{
    let mut out = String::new();
    let len = s.unicode_len();
    let mut i: usize = 0;
    proof {
        assert(s@.skip(0) =~= s@);
        assert(out@ + expand_view(s@) =~= expand_view(s@));
    }
    while i < len
        invariant
            len == s@.len(),
            i <= len,
            expand_view(s@) == out@ + expand_view(s@.skip(i as int)),
        decreases len - i,
    {
        let ghost rest = s@.skip(i as int);
        proof {
            assert(rest[0] == s@[i as int]);
            assert(rest.skip(1) =~= s@.skip(i + 1));
        }
        let c = s.get_char(i);
        let mut matched = false;
        if c == '{' && i + 1 < len && s.get_char(i + 1) == '{' {
            proof {
                assert(rest.skip(2) =~= s@.skip(i + 2));
                assert(rest[1] == s@[i + 1]);
            }
            if let Some(j) = find_close(s, i + 2) {
                proof {
                    assert(close_pos(rest.skip(2)) == j - (i + 2));
                }
                let inner = s.substring_char(i + 2, j);
                proof {
                    assert(inner@ =~= rest.skip(2).take(close_pos(rest.skip(2))));
                }
                let core = trim_str(inner);
                proof {
                    assert(core@ == field_core(rest));
                }
                if !has_newline(core) {
                    proof {
                        assert(template_at(rest));
                    }
                    let replacement = subst_var(core);
                    let ghost out0 = out@;
                    out.append(replacement.as_str());
                    proof {
                        assert(rest.skip(2 + close_pos(rest.skip(2)) + 2) =~= s@.skip(j + 2));
                        assert(expand_view(rest) == subst_view(field_core(rest)) + expand_view(
                            s@.skip(j + 2),
                        ));
                        crate::inputs::lemma_concat_assoc(
                            out0,
                            replacement@,
                            expand_view(s@.skip(j + 2)),
                        );
                    }
                    i = j + 2;
                    matched = true;
                } else {
                    proof {
                        assert(!template_at(rest));
                    }
                }
            } else {
                proof {
                    assert(!template_at(rest));
                }
            }
        } else {
            proof {
                assert(!template_at(rest)) by {
                    if template_at(rest) {
                        assert(rest[0] == '{' && rest[1] == '{');
                        if i + 1 < len {
                            assert(s@[i + 1] == rest[1]);
                        } else {
                            assert(rest.len() == 1);
                        }
                    }
                }
            }
        }
        if !matched {
            out.push(c);
            proof {
                assert(expand_view(rest) == seq![rest[0]] + expand_view(rest.skip(1)));
                assert(out@ =~= (out@.drop_last()) + seq![rest[0]]);
                assert((out@.drop_last() + seq![rest[0]]) + expand_view(s@.skip(i + 1))
                    =~= out@.drop_last() + (seq![rest[0]] + expand_view(s@.skip(i + 1))));
            }
            i += 1;
        }
    }
    proof {
        assert(s@.skip(len as int).len() == 0);
        assert(out@ + Seq::<char>::empty() =~= out@);
    }
    out
}

// ---------------------------------------------------------------------------
// The ldflags field.
// ---------------------------------------------------------------------------

/// The shell words of every expanded flag line, in order; a line no shell
/// would accept contributes nothing.
pub open spec fn flags_of(raw: Seq<Seq<char>>) -> Seq<Seq<char>>
    decreases raw.len(),
{
    if raw.len() == 0 {
        Seq::empty()
    } else {
        flags_of(raw.drop_last()) + (match shlex_split_of(expand_view(raw.last())) {
            Some(v) => v,
            None => Seq::empty(),
        })
    }
}

/// The flags with each bare `-X` merged into its argument.
pub open spec fn xmerge(fs: Seq<Seq<char>>) -> Seq<Seq<char>>
    decreases fs.len(),
{
    if fs.len() == 0 {
        Seq::empty()
    } else if fs[0] == "-X"@ && fs.len() >= 2 {
        seq!["-X="@ + fs[1]] + xmerge(fs.skip(2))
    } else {
        seq![fs[0]] + xmerge(fs.skip(1))
    }
}

/// The summed lengths of the flags.
pub open spec fn flags_len(fs: Seq<Seq<char>>) -> int
    decreases fs.len(),
{
    if fs.len() == 0 {
        0
    } else {
        flags_len(fs.drop_last()) + fs.last().len()
    }
}

/// The flags, each quoted on an indented line.
pub open spec fn long_flag_lines(fs: Seq<Seq<char>>) -> Seq<char>
    decreases fs.len(),
{
    if fs.len() == 0 {
        Seq::empty()
    } else {
        long_flag_lines(fs.drop_last()) + "    \""@ + fs.last() + "\"\n"@
    }
}

/// The flags, each quoted on one shared line.
pub open spec fn short_flag_items(fs: Seq<Seq<char>>) -> Seq<char>
    decreases fs.len(),
{
    if fs.len() == 0 {
        Seq::empty()
    } else {
        short_flag_items(fs.drop_last()) + " \""@ + fs.last() + "\""@
    }
}

/// The whole ldflags field of a set of expanded flag lines: nothing when the
/// flags come out empty, the one-per-line layout when their text runs long,
/// the single line otherwise.
pub open spec fn ldflags_text(raw: Seq<Seq<char>>) -> Seq<char> {
    let fs = xmerge(flags_of(raw));
    if fs.len() == 0 {
        Seq::empty()
    } else if flags_len(fs) > 16 {
        "  ldflags = [\n"@ + long_flag_lines(fs) + "  ];\n\n"@
    } else {
        "  ldflags = ["@ + short_flag_items(fs) + " ];\n\n"@
    }
}

/// The field emitted when no flag lines were declared at all.
pub open spec fn default_ldflags_text() -> Seq<char> {
    "  ldflags = [ \"-s\" \"-w\" ];\n\n"@
}

/// Splits the expanded flag lines into shell words.
fn split_flags(raw: &Vec<String>) -> (r: Vec<String>)
    ensures
        views(r@) == flags_of(views(raw@)),
{
    let ghost all = views(raw@);
    let mut out: Vec<String> = Vec::new();
    let n = raw.len();
    let mut i: usize = 0;
    proof {
        assert(views(out@) =~= flags_of(all.take(0)));
    }
    while i < n
        invariant
            n == raw@.len(),
            all == views(raw@),
            i <= n,
            views(out@) == flags_of(all.take(i as int)),
        decreases n - i,
    {
        proof {
            assert(all.take(i + 1).drop_last() =~= all.take(i as int));
            assert(all.take(i + 1).last() == all[i as int]);
        }
        let expanded = parse_ldflags(raw[i].as_str());
        match shlex_split(expanded.as_str()) {
            Some(mut words) => {
                let ghost w = words@;
                let m = words.len();
                let mut j: usize = 0;
                while j < m
                    invariant
                        m == w.len(),
                        words@ == w.skip(j as int),
                        j <= m,
                        views(out@) == flags_of(all.take(i as int)) + views(w.take(j as int)),
                    decreases m - j,
                {
                    proof {
                        assert(w.skip(j as int)[0] == w[j as int]);
                    }
                    let word = words.remove(0);
                    out.push(word);
                    proof {
                        assert(words@ =~= w.skip(j + 1));
                        assert(views(w.take(j + 1)) =~= views(w.take(j as int)).push(
                            w[j as int]@,
                        ));
                        assert(views(out@) =~= (flags_of(all.take(i as int)) + views(
                            w.take(j as int),
                        )).push(w[j as int]@));
                        assert(views(out@) =~= flags_of(all.take(i as int)) + views(
                            w.take(j + 1),
                        ));
                    }
                    j += 1;
                }
                proof {
                    assert(w.take(m as int) =~= w);
                    assert(views(out@) =~= flags_of(all.take(i + 1)));
                }
            },
            None => {
                proof {
                    assert(views(out@) + Seq::<Seq<char>>::empty() =~= views(out@));
                    assert(views(out@) =~= flags_of(all.take(i + 1)));
                }
            },
        }
        i += 1;
    }
    proof {
        assert(all.take(n as int) =~= all);
    }
    out
}

/// Merges each bare `-X` flag with the argument after it.
fn merge_x_flags(flags: &Vec<String>) -> (r: Vec<String>)
    ensures
        views(r@) == xmerge(views(flags@)),
{
    let ghost fs = views(flags@);
    let mut out: Vec<String> = Vec::new();
    let mut i: usize = 0;
    proof {
        assert(fs.skip(0) =~= fs);
        assert(views(out@) + xmerge(fs) =~= xmerge(fs));
    }
    loop
        invariant
            fs == views(flags@),
            i <= flags@.len(),
            xmerge(fs) == views(out@) + xmerge(fs.skip(i as int)),
        decreases flags@.len() - i,
    {
        let n = flags.len();
        if i >= n {
            proof {
                assert(fs.skip(i as int).len() == 0);
                assert(xmerge(fs.skip(i as int)) =~= Seq::<Seq<char>>::empty());
                assert(views(out@) + Seq::<Seq<char>>::empty() =~= views(out@));
            }
            return out;
        }
        let ghost rv = fs.skip(i as int);
        proof {
            assert(rv[0] == fs[i as int]);
        }
        if str_eq(flags[i].as_str(), "-X") && i + 1 < n {
            proof {
                assert(rv[1] == fs[i + 1]);
                assert(rv.skip(2) =~= fs.skip(i + 2));
                assert(xmerge(rv) == seq!["-X="@ + rv[1]] + xmerge(rv.skip(2)));
            }
            let mut merged = flags[i].clone();
            merged.append("=");
            merged.append(flags[i + 1].as_str());
            proof {
                assert(merged@ =~= "-X="@ + rv[1]) by {
                    assert(merged@ == rv[0] + "="@ + rv[1]);
                    assert(rv[0] == "-X"@);
                    assert(("-X"@ + "="@) =~= "-X="@) by {
                        reveal_strlit("-X");
                        reveal_strlit("=");
                        reveal_strlit("-X=");
                    }
                    assert((("-X"@ + "="@) + rv[1]) =~= "-X="@ + rv[1]);
                }
            }
            out.push(merged);
            proof {
                assert(views(out@) =~= views(out@.drop_last()).push("-X="@ + rv[1]));
                assert(views(out@) + xmerge(fs.skip(i + 2)) =~= views(out@.drop_last()) + xmerge(
                    rv,
                ));
            }
            i += 2;
        } else {
            proof {
                if rv[0] == "-X"@ {
                    assert(rv.len() == 1);
                }
                assert(xmerge(rv) == seq![rv[0]] + xmerge(rv.skip(1)));
                assert(rv.skip(1) =~= fs.skip(i + 1));
            }
            let flag = flags[i].clone();
            out.push(flag);
            proof {
                assert(views(out@) =~= views(out@.drop_last()).push(rv[0]));
                assert(views(out@) + xmerge(fs.skip(i + 1)) =~= views(out@.drop_last()) + xmerge(
                    rv,
                ));
            }
            i += 1;
        }
    }
}

/// Writes the ldflags field for the flag lines a release configuration
/// declared; with none declared the conventional strip flags stand in.
pub fn write_ldflags(out: &mut String, raw_ldflags: &Option<Vec<String>>)
    ensures
        final(out)@ == old(out)@ + (match *raw_ldflags {
            Some(raw) => ldflags_text(views(raw@)),
            None => default_ldflags_text(),
        }),
{
    let ghost out0 = out@;
    let raw = match raw_ldflags {
        Some(raw) => raw,
        None => {
            out.append("  ldflags = [ \"-s\" \"-w\" ];\n\n");
            return ;
        },
    };
    let words = split_flags(raw);
    let flags = merge_x_flags(&words);
    let ghost fs = xmerge(flags_of(views(raw@)));
    proof {
        assert(views(flags@) == fs);
    }
    if flags.len() == 0 {
        proof {
            assert(out@ + Seq::<char>::empty() =~= out@);
        }
        return ;
    }
    let mut total: usize = 0;
    let n = flags.len();
    let mut i: usize = 0;
    proof {
        assert(views(flags@).take(0) =~= Seq::<Seq<char>>::empty());
    }
    while i < n
        invariant
            n == flags@.len(),
            fs == views(flags@),
            i <= n,
            flags_len(fs.take(i as int)) >= total,
            total < usize::MAX ==> total == flags_len(fs.take(i as int)),
        decreases n - i,
    {
        proof {
            assert(fs.take(i + 1).drop_last() =~= fs.take(i as int));
            assert(fs.take(i + 1).last() == fs[i as int]);
            assert(fs[i as int].len() >= 0);
        }
        let l = flags[i].as_str().unicode_len();
        if usize::MAX - total < l {
            total = usize::MAX;
        } else {
            total = total + l;
        }
        i += 1;
    }
    proof {
        assert(fs.take(n as int) =~= fs);
    }
    if total > 16 {
        proof {
            assert(flags_len(fs) >= total);
        }
        out.append("  ldflags = [\n");
        let mut j: usize = 0;
        proof {
            assert(long_flag_lines(fs.take(0)) =~= Seq::<char>::empty());
            assert(out@ =~= out0 + "  ldflags = [\n"@ + long_flag_lines(fs.take(0)));
        }
        while j < n
            invariant
                n == flags@.len(),
                fs == views(flags@),
                j <= n,
                flags_len(fs) > 16,
                out@ == out0 + "  ldflags = [\n"@ + long_flag_lines(fs.take(j as int)),
            decreases n - j,
        {
            out.append("    \"");
            out.append(flags[j].as_str());
            out.append("\"\n");
            proof {
                assert(fs.take(j + 1).drop_last() =~= fs.take(j as int));
                assert(fs.take(j + 1).last() == fs[j as int]);
                assert(out@ =~= out0 + "  ldflags = [\n"@ + long_flag_lines(fs.take(j + 1)));
            }
            j += 1;
        }
        out.append("  ];\n\n");
        proof {
            assert(fs.take(n as int) =~= fs);
            assert(out@ =~= out0 + ldflags_text(views(raw@)));
        }
    } else {
        proof {
            assert(flags_len(fs) <= 16);
        }
        out.append("  ldflags = [");
        let mut j: usize = 0;
        proof {
            assert(short_flag_items(fs.take(0)) =~= Seq::<char>::empty());
            assert(out@ =~= out0 + "  ldflags = ["@ + short_flag_items(fs.take(0)));
        }
        while j < n
            invariant
                n == flags@.len(),
                fs == views(flags@),
                j <= n,
                flags_len(fs) <= 16,
                out@ == out0 + "  ldflags = ["@ + short_flag_items(fs.take(j as int)),
            decreases n - j,
        {
            out.append(" \"");
            out.append(flags[j].as_str());
            out.append("\"");
            proof {
                assert(fs.take(j + 1).drop_last() =~= fs.take(j as int));
                assert(fs.take(j + 1).last() == fs[j as int]);
                assert(out@ =~= out0 + "  ldflags = ["@ + short_flag_items(fs.take(j + 1)));
            }
            j += 1;
        }
        out.append(" ];\n\n");
        proof {
            assert(fs.take(n as int) =~= fs);
            assert(out@ =~= out0 + ldflags_text(views(raw@)));
        }
    }
}

} // verus!
