use vstd::prelude::*;

use crate::text::{first_line_view, has_prefix, has_suffix, str_eq, starts_with_str,
    strip_prefix_str, strip_suffix_str, first_line};
use crate::utils::{semver_of, parse_semver, SemVer};
use crate::python::PythonDependencies;

verus! {

/// The archive formats a package index offers, preferred one first.
#[derive(Clone, Copy, PartialEq, Eq, Structural, Debug)]
pub enum PypiFormat {
    TarGz,
    Zip,
}

/// What a format is called in an extension or a hint.
pub open spec fn pypi_format_display(f: PypiFormat) -> Seq<char> {
    match f {
        PypiFormat::TarGz => "tar.gz"@,
        PypiFormat::Zip => "zip"@,
    }
}

impl PypiFormat {
    /// The format's name, as it stands in a file extension.
    pub fn display(&self) -> (r: String)
        ensures
            r@ == pypi_format_display(*self),
    {
        match self {
            PypiFormat::TarGz => "tar.gz".to_owned(),
            PypiFormat::Zip => "zip".to_owned(),
        }
    }
}

/// What is known of one selectable revision.
pub enum Version {
    Latest,
    Tag,
    Pypi { pname: String, format: PypiFormat },
    Head { date: String, msg: String },
    Commit { date: String, msg: String },
}

/// A completion candidate offered for the revision prompt.
pub struct Pair {
    pub display: String,
    pub replacement: String,
}

/// The selectable revisions one fetch produced: a default pick, the prompt
/// hints, and what is known of each revision id.
pub struct Revisions {
    pub latest: String,
    pub completions: Vec<Pair>,
    pub versions: Vec<(String, Version)>,
}

/// The revision ids on record.
pub open spec fn rev_keys(entries: Seq<(String, Version)>) -> Seq<Seq<char>> {
    entries.map_values(|e: (String, Version)| e.0@)
}

/// No revision id on record twice.
pub open spec fn distinct_keys(entries: Seq<(String, Version)>) -> bool {
    forall|i: int, j: int|
        0 <= i < j < entries.len() ==> rev_keys(entries)[i] != rev_keys(entries)[j]
}

/// What is on record under a revision id.
pub open spec fn rev_lookup(entries: Seq<(String, Version)>, key: Seq<char>) -> Option<Version>
    decreases entries.len(),
{
    if entries.len() == 0 {
        None
    } else if entries[0].0@ == key {
        Some(entries[0].1)
    } else {
        rev_lookup(entries.skip(1), key)
    }
}

proof fn lemma_rev_lookup_some(entries: Seq<(String, Version)>, key: Seq<char>)
    ensures
        (rev_lookup(entries, key) is Some) <==> exists|i: int|
            0 <= i < entries.len() && #[trigger] entries[i].0@ == key,
    decreases entries.len(),
{
    if entries.len() > 0 {
        lemma_rev_lookup_some(entries.skip(1), key);
        if entries[0].0@ == key {
        } else {
            assert forall|i: int|
                0 <= i < entries.len() && #[trigger] entries[i].0@ == key implies exists|j: int|
                0 <= j < entries.skip(1).len() && #[trigger] entries.skip(1)[j].0@ == key by {
                assert(entries.skip(1)[i - 1] == entries[i]);
            }
            assert forall|j: int|
                0 <= j < entries.skip(1).len() && #[trigger] entries.skip(1)[j].0@
                    == key implies exists|i: int|
                0 <= i < entries.len() && #[trigger] entries[i].0@ == key by {
                assert(entries[j + 1] == entries.skip(1)[j]);
            }
        }
    }
}

impl Revisions {
    /// Each revision id on record once.
    pub open spec fn wf(&self) -> bool {
        distinct_keys(self.versions@)
    }

    /// What is on record under a revision id.
    pub open spec fn lookup(&self, key: Seq<char>) -> Option<Version> {
        rev_lookup(self.versions@, key)
    }

    pub fn new() -> (r: Revisions)
        ensures
            r.wf(),
            r.latest@ == Seq::<char>::empty(),
            r.completions@.len() == 0,
            r.versions@.len() == 0,
    {
        Revisions { latest: String::new(), completions: Vec::new(), versions: Vec::new() }
    }

    /// Registers a revision; a later insertion for an id already on record is
    /// a no-op, first seen wins.
    pub fn insert(&mut self, key: &str, v: Version)
        requires
            old(self).wf(),
        ensures
            final(self).wf(),
            final(self).latest == old(self).latest,
            final(self).completions == old(self).completions,
            forall|k: Seq<char>|
                final(self).lookup(k) == if k == key@ && old(self).lookup(key@) is None {
                    Some(v)
                } else {
                    old(self).lookup(k)
                },
    {
        let ghost orig = self.versions@;
        let n = self.versions.len();
        let mut i: usize = 0;
        while i < n
            invariant
                n == self.versions@.len(),
                orig == self.versions@,
                orig == old(self).versions@,
                self.latest == old(self).latest,
                self.completions == old(self).completions,
                i <= n,
                distinct_keys(orig),
                forall|j: int| 0 <= j < i ==> #[trigger] orig[j].0@ != key@,
            decreases n - i,
        {
            if str_eq(self.versions[i].0.as_str(), key) {
                proof {
                    lemma_rev_lookup_some(orig, key@);
                    assert(orig[i as int].0@ == key@);
                }
                return ;
            }
            i += 1;
        }
        proof {
            lemma_rev_lookup_some(orig, key@);
        }
        self.versions.push((key.to_owned(), v));
        proof {
            let ne = self.versions@.last();
            assert(ne.0@ == key@ && ne.1 == v);
            assert(self.versions@ =~= orig.push(ne));
            assert forall|p: int, q: int|
                0 <= p < q < self.versions@.len() implies rev_keys(self.versions@)[p] != rev_keys(
                self.versions@,
            )[q] by {
                assert(rev_keys(self.versions@)[p] == self.versions@[p].0@);
                assert(rev_keys(self.versions@)[q] == self.versions@[q].0@);
                if q == self.versions@.len() - 1 {
                    assert(self.versions@[p] == orig[p]);
                    assert(self.versions@[q] == ne);
                    if orig[p].0@ == key@ {
                        lemma_rev_lookup_some(orig, key@);
                    }
                } else {
                    assert(self.versions@[p] == orig[p] && self.versions@[q] == orig[q]);
                    assert(rev_keys(orig)[p] == orig[p].0@ && rev_keys(orig)[q] == orig[q].0@);
                }
            }
            assert forall|k: Seq<char>|
                rev_lookup(self.versions@, k) == (if k == key@ && rev_lookup(orig, key@) is None {
                    Some(v)
                } else {
                    rev_lookup(orig, k)
                }) by {
                lemma_rev_lookup_push(orig, ne, k);
                lemma_rev_lookup_some(orig, key@);
                if rev_lookup(orig, k) is Some {
                } else if k == key@ {
                }
            }
        }
    }

    /// Takes a revision off the record, yielding what was known of it.
    pub fn remove(&mut self, key: &str) -> (r: Option<Version>)
        requires
            old(self).wf(),
        ensures
            final(self).wf(),
            final(self).latest == old(self).latest,
            final(self).completions == old(self).completions,
            r == old(self).lookup(key@),
            final(self).lookup(key@) is None,
            forall|k: Seq<char>| k != key@ ==> final(self).lookup(k) == old(self).lookup(k),
    {
        let ghost orig = self.versions@;
        let n = self.versions.len();
        let mut i: usize = 0;
        while i < n
            invariant
                n == self.versions@.len(),
                orig == self.versions@,
                orig == old(self).versions@,
                self.latest == old(self).latest,
                self.completions == old(self).completions,
                i <= n,
                distinct_keys(orig),
                forall|j: int| 0 <= j < i ==> #[trigger] orig[j].0@ != key@,
            decreases n - i,
        {
            if str_eq(self.versions[i].0.as_str(), key) {
                let ghost idx = i as int;
                let entry = self.versions.remove(i);
                proof {
                    assert(orig[idx].0@ == key@);
                    let now = self.versions@;
                    assert(now =~= orig.take(idx) + orig.skip(idx + 1));
                    assert forall|p: int, q: int|
                        0 <= p < q < now.len() implies rev_keys(now)[p] != rev_keys(now)[q] by {
                        let op = if p < idx { p } else { p + 1 };
                        let oq = if q < idx { q } else { q + 1 };
                        assert(now[p] == orig[op] && now[q] == orig[oq]);
                        assert(rev_keys(orig)[op] != rev_keys(orig)[oq]);
                    }
                    lemma_rev_lookup_removed(orig, idx, key@);
                    assert(rev_lookup(orig, key@) == Some(orig[idx].1)) by {
                        lemma_rev_lookup_at(orig, idx, key@);
                    }
                }
                return Some(entry.1);
            }
            i += 1;
        }
        proof {
            lemma_rev_lookup_some(orig, key@);
        }
        None
    }
}

/// Looking something up after an append: the old record answers first, the
/// appended entry only for its own key.
proof fn lemma_rev_lookup_push(entries: Seq<(String, Version)>, ne: (String, Version), k: Seq<char>)
    ensures
        rev_lookup(entries.push(ne), k) == if rev_lookup(entries, k) is Some {
            rev_lookup(entries, k)
        } else if ne.0@ == k {
            Some(ne.1)
        } else {
            None
        },
    decreases entries.len(),
{
    let p = entries.push(ne);
    if entries.len() == 0 {
        assert(p.len() == 1);
        assert(p[0] == ne);
        assert(p.skip(1) =~= Seq::<(String, Version)>::empty());
        if ne.0@ == k {
            assert(rev_lookup(p, k) == Some(ne.1));
        } else {
            assert(rev_lookup(p, k) == rev_lookup(p.skip(1), k));
            assert(rev_lookup(p.skip(1), k) is None);
        }
    } else {
        assert(p[0] == entries[0]);
        assert(p.skip(1) =~= entries.skip(1).push(ne));
        lemma_rev_lookup_push(entries.skip(1), ne, k);
        if entries[0].0@ == k {
            assert(rev_lookup(p, k) == Some(entries[0].1));
            assert(rev_lookup(entries, k) == Some(entries[0].1));
        } else {
            assert(rev_lookup(p, k) == rev_lookup(entries.skip(1).push(ne), k));
            assert(rev_lookup(entries, k) == rev_lookup(entries.skip(1), k));
        }
    }
}

/// Looking up a key that sits at a known index in a duplicate-free record
/// yields that entry.
proof fn lemma_rev_lookup_at(entries: Seq<(String, Version)>, idx: int, key: Seq<char>)
    requires
        distinct_keys(entries),
        0 <= idx < entries.len(),
        entries[idx].0@ == key,
    ensures
        rev_lookup(entries, key) == Some(entries[idx].1),
    decreases entries.len(),
{
    if idx == 0 {
    } else {
        assert(entries[0].0@ != key) by {
            assert(rev_keys(entries)[0] != rev_keys(entries)[idx]);
        }
        lemma_distinct_skip(entries);
        lemma_rev_lookup_at(entries.skip(1), idx - 1, key);
        assert(entries.skip(1)[idx - 1] == entries[idx]);
    }
}

proof fn lemma_distinct_skip(entries: Seq<(String, Version)>)
    requires
        distinct_keys(entries),
        entries.len() > 0,
    ensures
        distinct_keys(entries.skip(1)),
{
    let t = entries.skip(1);
    assert forall|p: int, q: int|
        0 <= p < q < t.len() implies rev_keys(t)[p] != rev_keys(t)[q] by {
        assert(t[p] == entries[p + 1] && t[q] == entries[q + 1]);
        assert(rev_keys(entries)[p + 1] != rev_keys(entries)[q + 1]);
    }
}

/// After removing the entry under a key from a duplicate-free record, the key
/// is gone and every other key reads as before.
proof fn lemma_rev_lookup_removed(entries: Seq<(String, Version)>, idx: int, key: Seq<char>)
    requires
        distinct_keys(entries),
        0 <= idx < entries.len(),
        entries[idx].0@ == key,
    ensures
        rev_lookup(entries.take(idx) + entries.skip(idx + 1), key) is None,
        forall|k: Seq<char>|
            k != key ==> rev_lookup(entries.take(idx) + entries.skip(idx + 1), k) == rev_lookup(
                entries,
                k,
            ),
    decreases entries.len(),
{
    let now = entries.take(idx) + entries.skip(idx + 1);
    if idx == 0 {
        assert(now =~= entries.skip(1));
        lemma_rev_lookup_some(entries.skip(1), key);
        assert forall|i: int|
            0 <= i < entries.skip(1).len() implies #[trigger] entries.skip(1)[i].0@ != key by {
            assert(entries.skip(1)[i] == entries[i + 1]);
            assert(rev_keys(entries)[0] != rev_keys(entries)[i + 1]);
        }
        assert(rev_lookup(now, key) is None);
        assert forall|k: Seq<char>| k != key implies rev_lookup(now, k) == rev_lookup(
            entries,
            k,
        ) by {
            assert(rev_lookup(entries, k) == rev_lookup(entries.skip(1), k));
        }
    } else {
        lemma_distinct_skip(entries);
        assert(entries.skip(1)[idx - 1] == entries[idx]);
        lemma_rev_lookup_removed(entries.skip(1), idx - 1, key);
        let inner = entries.skip(1).take(idx - 1) + entries.skip(1).skip(idx);
        assert(now.len() == entries.len() - 1 >= 1);
        assert(now[0] == entries[0]);
        assert(now.skip(1) =~= inner);
        assert(entries[0].0@ != key) by {
            assert(rev_keys(entries)[0] != rev_keys(entries)[idx]);
        }
        assert(rev_lookup(now, key) == rev_lookup(inner, key));
        assert forall|k: Seq<char>| k != key implies rev_lookup(now, k) == rev_lookup(
            entries,
            k,
        ) by {
            if entries[0].0@ == k {
                assert(rev_lookup(now, k) == Some(now[0].1));
                assert(rev_lookup(entries, k) == Some(entries[0].1));
            } else {
                assert(rev_lookup(now, k) == rev_lookup(inner, k));
                assert(rev_lookup(entries, k) == rev_lookup(entries.skip(1), k));
            }
        }
    }
}

// ---------------------------------------------------------------------------
// The tag/commit merge shared by the git-hosting providers.
// ---------------------------------------------------------------------------

/// One commit as a provider reports it: its id, its full timestamp, and its
/// message (of which only the first line is kept).
pub struct CommitInfo {
    pub id: String,
    pub date: String,
    pub msg: String,
}

/// The ids of a commit list.
pub open spec fn commit_id_views(v: Seq<CommitInfo>) -> Seq<Seq<char>> {
    v.map_values(|c: CommitInfo| c.id@)
}

/// The views of a tag list.
pub open spec fn tag_views(v: Seq<String>) -> Seq<Seq<char>> {
    v.map_values(|t: String| t@)
}

/// The views of the completion pairs: display and replacement.
pub open spec fn pair_views(v: Seq<Pair>) -> Seq<(Seq<char>, Seq<char>)> {
    v.map_values(|p: Pair| (p.display@, p.replacement@))
}

/// The calendar-day portion of an ISO-8601 timestamp: its first ten
/// characters, or all of a shorter one.
pub open spec fn day_view(date: Seq<char>) -> Seq<char> {
    if date.len() < 10 {
        date
    } else {
        date.take(10)
    }
}

/// The calendar-day portion of a timestamp.
pub fn date_day(date: &str) -> (r: &str)
    ensures
        r@ == day_view(date@),
{
    let len = date.unicode_len();
    if len < 10 {
        date
    } else {
        let r = date.substring_char(0, 10);
        assert(r@ =~= date@.take(10));
        r
    }
}

/// Which id seeds the default pick: the release, else the first tag, else the
/// first commit, else nothing.
pub open spec fn merged_latest(
    release: Option<Seq<char>>,
    tags: Seq<Seq<char>>,
    commit_ids: Seq<Seq<char>>,
) -> Seq<char> {
    let l0: Seq<char> = match release {
        Some(r) => r,
        None => Seq::empty(),
    };
    let l1 = if l0.len() == 0 && tags.len() > 0 {
        tags[0]
    } else {
        l0
    };
    if l1.len() == 0 && commit_ids.len() > 0 {
        commit_ids[0]
    } else {
        l1
    }
}

/// Whether an id names the release.
pub open spec fn is_release_tag(release: Option<Seq<char>>, t: Seq<char>) -> bool {
    match release {
        Some(r) => t == r,
        None => false,
    }
}

/// The completion the release contributes.
pub open spec fn release_comps(release: Option<Seq<char>>) -> Seq<(Seq<char>, Seq<char>)> {
    match release {
        Some(r) => seq![(r + " (latest release)"@, r)],
        None => Seq::empty(),
    }
}

/// The completions the tags contribute, skipping the one that names the
/// release.
pub open spec fn tag_comps(tags: Seq<Seq<char>>, release: Option<Seq<char>>) -> Seq<
    (Seq<char>, Seq<char>),
>
    decreases tags.len(),
{
    if tags.len() == 0 {
        Seq::empty()
    } else {
        tag_comps(tags.drop_last(), release) + (if is_release_tag(release, tags.last()) {
            Seq::empty()
        } else {
            seq![(tags.last() + " (tag)"@, tags.last())]
        })
    }
}

/// One commit's completion: the head of the branch is marked as such.
pub open spec fn commit_comp(c: CommitInfo, is_head: bool) -> (Seq<char>, Seq<char>) {
    (
        c.id@ + " ("@ + day_view(c.date@) + (if is_head {
            " - HEAD) "@
        } else {
            ") "@
        }) + first_line_view(c.msg@),
        c.id@,
    )
}

/// The completions the commits contribute, first one as the head.
pub open spec fn commit_comps(commits: Seq<CommitInfo>) -> Seq<(Seq<char>, Seq<char>)>
    decreases commits.len(),
{
    if commits.len() == 0 {
        Seq::empty()
    } else {
        commit_comps(commits.drop_last()) + seq![
            commit_comp(commits.last(), commits.len() == 1),
        ]
    }
}

/// The view of an optional release tag.
pub open spec fn release_view(release: Option<String>) -> Option<Seq<char>> {
    match release {
        Some(r) => Some(r@),
        None => None,
    }
}

/// Registers the latest release, when one was reported: it seeds the default
/// pick and is the one revision on record afterwards.
fn apply_release(r: &mut Revisions, latest_release: &Option<String>)
    requires
        old(r).wf(),
        old(r).versions@.len() == 0,
        old(r).completions@.len() == 0,
        old(r).latest@.len() == 0,
    ensures
        final(r).wf(),
        ({
            let rel = release_view(*latest_release);
            &&& final(r).latest@ == (match rel {
                Some(rv) => rv,
                None => Seq::<char>::empty(),
            })
            &&& pair_views(final(r).completions@) == release_comps(rel)
            &&& (rel matches Some(rv) ==> final(r).lookup(rv) matches Some(Version::Latest))
            &&& (forall|k: Seq<char>|
                #[trigger] final(r).lookup(k) is Some ==> is_release_tag(rel, k))
        }),
{
    let ghost rel = release_view(*latest_release);
    if let Some(release) = latest_release {
        proof {
            assert(rel == Some(release@));
            assert(r.lookup(release@) is None);
        }
        r.insert(release.as_str(), Version::Latest);
        let ghost r1 = *r;
        let mut display = release.clone();
        display.append(" (latest release)");
        r.completions.push(Pair { display, replacement: release.clone() });
        r.latest = release.clone();
        proof {
            assert(r.versions@ == r1.versions@);
            assert(r1.lookup(release@) matches Some(Version::Latest));
            assert forall|k: Seq<char>| #[trigger] r.lookup(k) is Some implies is_release_tag(
                rel,
                k,
            ) by {
                assert(r.lookup(k) == r1.lookup(k));
            }
            assert(pair_views(r.completions@) =~= release_comps(rel));
        }
    } else {
        proof {
            assert(pair_views(r.completions@) =~= release_comps(rel));
        }
    }
}

/// Registers the reported tags in provider order, skipping the one that
/// names the release; the first seeds the default pick if nothing has yet.
fn apply_tags(r: &mut Revisions, latest_release: &Option<String>, tag_list: &Vec<String>)
    requires
        old(r).wf(),
    ensures
        final(r).wf(),
        ({
            let rel = release_view(*latest_release);
            let ts = tag_views(tag_list@);
            &&& final(r).latest@ == (if old(r).latest@.len() == 0 && ts.len() > 0 {
                ts[0]
            } else {
                old(r).latest@
            })
            &&& pair_views(final(r).completions@) == pair_views(old(r).completions@) + tag_comps(
                ts,
                rel,
            )
            &&& (forall|k: Seq<char>|
                #[trigger] old(r).lookup(k) is Some ==> final(r).lookup(k) == old(r).lookup(k))
            &&& (forall|j: int|
                0 <= j < ts.len() && !is_release_tag(rel, ts[j]) && old(r).lookup(ts[j]) is None
                    ==> #[trigger] final(r).lookup(ts[j]) matches Some(Version::Tag))
            &&& (forall|k: Seq<char>|
                #[trigger] final(r).lookup(k) is Some ==> old(r).lookup(k) is Some || (ts.contains(
                    k,
                ) && !is_release_tag(rel, k)))
        }),
{
    let ghost rel = release_view(*latest_release);
    let ghost ts = tag_views(tag_list@);
    if r.latest.as_str().is_empty() && tag_list.len() > 0 {
        r.latest = tag_list[0].clone();
        proof {
            assert(ts[0] == tag_list@[0]@);
        }
    }
    proof {
        assert(tag_comps(ts.take(0), rel) =~= Seq::<(Seq<char>, Seq<char>)>::empty());
        assert(pair_views(r.completions@) + tag_comps(ts.take(0), rel) =~= pair_views(
            r.completions@,
        ));
    }
    let n = tag_list.len();
    let mut i: usize = 0;
    while i < n
        invariant
            n == tag_list@.len(),
            ts == tag_views(tag_list@),
            rel == release_view(*latest_release),
            i <= n,
            r.wf(),
            r.latest == old(r).latest || (old(r).latest@.len() == 0 && ts.len() > 0 && r.latest@
                == ts[0]),
            r.latest@ == (if old(r).latest@.len() == 0 && ts.len() > 0 {
                ts[0]
            } else {
                old(r).latest@
            }),
            pair_views(r.completions@) == pair_views(old(r).completions@) + tag_comps(
                ts.take(i as int),
                rel,
            ),
            forall|k: Seq<char>|
                #[trigger] old(r).lookup(k) is Some ==> r.lookup(k) == old(r).lookup(k),
            forall|j: int|
                0 <= j < i && !is_release_tag(rel, ts[j]) && old(r).lookup(ts[j]) is None
                    ==> #[trigger] r.lookup(ts[j]) matches Some(Version::Tag),
            forall|k: Seq<char>|
                #[trigger] r.lookup(k) is Some ==> old(r).lookup(k) is Some || (ts.take(
                    i as int,
                ).contains(k) && !is_release_tag(rel, k)),
        decreases n - i,
    {
        let ghost rpre = *r;
        let tag = &tag_list[i];
        let ghost tv = ts[i as int];
        proof {
            assert(tv == tag@);
            assert(ts.take(i + 1).drop_last() =~= ts.take(i as int));
            assert(ts.take(i + 1).last() == tv);
            assert(tag_comps(ts.take(i + 1), rel) == tag_comps(ts.take(i as int), rel) + (
            if is_release_tag(rel, tv) {
                Seq::<(Seq<char>, Seq<char>)>::empty()
            } else {
                seq![(tv + " (tag)"@, tv)]
            }));
        }
        let mut skip_tag = false;
        if let Some(release) = latest_release {
            if str_eq(tag.as_str(), release.as_str()) {
                skip_tag = true;
            }
        }
        proof {
            assert(skip_tag == is_release_tag(rel, tv));
        }
        if !skip_tag {
            let mut display = tag.clone();
            display.append(" (tag)");
            r.completions.push(Pair { display, replacement: tag.clone() });
            let ghost rmid = *r;
            r.insert(tag.as_str(), Version::Tag);
            proof {
                assert(r.completions@ == rmid.completions@);
                assert(pair_views(r.completions@) =~= pair_views(rpre.completions@) + seq![
                    (tv + " (tag)"@, tv),
                ]);
                assert(pair_views(r.completions@) =~= pair_views(old(r).completions@)
                    + tag_comps(ts.take(i + 1), rel));
                assert(forall|k: Seq<char>| rmid.lookup(k) == rpre.lookup(k));
                assert forall|k: Seq<char>| #[trigger] old(r).lookup(k) is Some implies r.lookup(
                    k,
                ) == old(r).lookup(k) by {
                    assert(rpre.lookup(k) == old(r).lookup(k));
                    if k == tv {
                        assert(rpre.lookup(k) is Some);
                        assert(r.lookup(k) == rmid.lookup(k));
                    } else {
                        assert(r.lookup(k) == rmid.lookup(k));
                    }
                }
                assert forall|j: int|
                    0 <= j < i + 1 && !is_release_tag(rel, ts[j]) && old(r).lookup(
                        ts[j],
                    ) is None implies #[trigger] r.lookup(ts[j]) matches Some(Version::Tag) by {
                    if j < i {
                        assert(rpre.lookup(ts[j]) matches Some(Version::Tag));
                        if ts[j] == tv {
                            assert(r.lookup(ts[j]) == rmid.lookup(ts[j]));
                        } else {
                            assert(r.lookup(ts[j]) == rmid.lookup(ts[j]));
                        }
                    } else {
                        if rmid.lookup(tv) is None {
                            assert(r.lookup(tv) == Some(Version::Tag));
                        } else {
                            assert(rpre.lookup(tv) is Some);
                            assert(old(r).lookup(tv) is Some || (ts.take(i as int).contains(tv)
                                && !is_release_tag(rel, tv)));
                            let w = choose|w: int| 0 <= w < i && ts.take(i as int)[w] == tv;
                            assert(ts[w] == tv);
                            assert(rpre.lookup(ts[w]) matches Some(Version::Tag));
                            assert(r.lookup(tv) == rmid.lookup(tv));
                        }
                    }
                }
                assert forall|k: Seq<char>| #[trigger] r.lookup(k) is Some implies old(r).lookup(
                    k,
                ) is Some || (ts.take(i + 1).contains(k) && !is_release_tag(rel, k)) by {
                    if r.lookup(k) is Some {
                        if k == tv && rmid.lookup(tv) is None {
                            assert(ts.take(i + 1)[i as int] == k);
                        } else {
                            assert(r.lookup(k) == rmid.lookup(k));
                            assert(rmid.lookup(k) == rpre.lookup(k));
                            if !(old(r).lookup(k) is Some) {
                                assert(ts.take(i as int).contains(k) && !is_release_tag(rel, k));
                                let j = choose|j: int| 0 <= j < i && ts.take(i as int)[j] == k;
                                assert(ts.take(i + 1)[j] == k);
                            }
                        }
                    }
                }
            }
        } else {
            proof {
                assert(pair_views(r.completions@) =~= pair_views(old(r).completions@)
                    + tag_comps(ts.take(i + 1), rel));
                assert forall|k: Seq<char>| #[trigger] r.lookup(k) is Some implies old(r).lookup(
                    k,
                ) is Some || (ts.take(i + 1).contains(k) && !is_release_tag(rel, k)) by {
                    if r.lookup(k) is Some && !(old(r).lookup(k) is Some) {
                        let j = choose|j: int| 0 <= j < i && ts.take(i as int)[j] == k;
                        assert(ts.take(i + 1)[j] == k);
                    }
                }
            }
        }
        i += 1;
    }
    proof {
        assert(ts.take(n as int) =~= ts);
    }
}

/// Registers the reported commits, the first as the head of the branch; each
/// carries its calendar day and the first line of its message.  The first
/// seeds the default pick if nothing has yet.
fn apply_commits(r: &mut Revisions, commit_list: &Vec<CommitInfo>)
    requires
        old(r).wf(),
    ensures
        final(r).wf(),
        ({
            let cs = commit_list@;
            &&& final(r).latest@ == (if old(r).latest@.len() == 0 && cs.len() > 0 {
                cs[0].id@
            } else {
                old(r).latest@
            })
            &&& pair_views(final(r).completions@) == pair_views(old(r).completions@)
                + commit_comps(cs)
            &&& (forall|k: Seq<char>|
                #[trigger] old(r).lookup(k) is Some ==> final(r).lookup(k) == old(r).lookup(k))
            &&& (forall|j: int|
                0 <= j < cs.len() && !commit_id_views(cs.take(j)).contains(#[trigger] cs[j].id@)
                    && old(r).lookup(cs[j].id@) is None ==> match final(r).lookup(cs[j].id@) {
                    Some(Version::Head { date, msg }) => j == 0 && date@ == day_view(cs[j].date@)
                        && msg@ == first_line_view(cs[j].msg@),
                    Some(Version::Commit { date, msg }) => j != 0 && date@ == day_view(
                        cs[j].date@,
                    ) && msg@ == first_line_view(cs[j].msg@),
                    _ => false,
                })
            &&& (forall|k: Seq<char>|
                #[trigger] final(r).lookup(k) is Some ==> old(r).lookup(k) is Some
                    || commit_id_views(cs).contains(k))
        }),
{
    let ghost cs = commit_list@;
    if r.latest.as_str().is_empty() && commit_list.len() > 0 {
        r.latest = commit_list[0].id.clone();
        proof {
            assert(commit_id_views(cs)[0] == cs[0].id@);
        }
    }
    proof {
        assert(commit_comps(cs.take(0)) =~= Seq::<(Seq<char>, Seq<char>)>::empty());
        assert(pair_views(r.completions@) + commit_comps(cs.take(0)) =~= pair_views(
            r.completions@,
        ));
    }
    let n = commit_list.len();
    let mut i: usize = 0;
    while i < n
        invariant
            n == commit_list@.len(),
            cs == commit_list@,
            i <= n,
            r.wf(),
            r.latest@ == (if old(r).latest@.len() == 0 && cs.len() > 0 {
                cs[0].id@
            } else {
                old(r).latest@
            }),
            pair_views(r.completions@) == pair_views(old(r).completions@) + commit_comps(
                cs.take(i as int),
            ),
            forall|k: Seq<char>|
                #[trigger] old(r).lookup(k) is Some ==> r.lookup(k) == old(r).lookup(k),
            forall|j: int|
                0 <= j < i && !commit_id_views(cs.take(j)).contains(#[trigger] cs[j].id@) && old(
                    r,
                ).lookup(cs[j].id@) is None ==> match r.lookup(cs[j].id@) {
                    Some(Version::Head { date, msg }) => j == 0 && date@ == day_view(cs[j].date@)
                        && msg@ == first_line_view(cs[j].msg@),
                    Some(Version::Commit { date, msg }) => j != 0 && date@ == day_view(
                        cs[j].date@,
                    ) && msg@ == first_line_view(cs[j].msg@),
                    _ => false,
                },
            forall|k: Seq<char>|
                #[trigger] r.lookup(k) is Some ==> old(r).lookup(k) is Some || commit_id_views(
                    cs.take(i as int),
                ).contains(k),
        decreases n - i,
    {
        let ghost rpre = *r;
        let c = &commit_list[i];
        let ghost cv = cs[i as int];
        let day = date_day(c.date.as_str());
        let msg = first_line(c.msg.as_str());
        let mut display = c.id.clone();
        display.append(" (");
        display.append(day);
        if i == 0 {
            display.append(" - HEAD) ");
        } else {
            display.append(") ");
        }
        display.append(msg);
        r.completions.push(Pair { display, replacement: c.id.clone() });
        let ghost rmid = *r;
        if i == 0 {
            r.insert(c.id.as_str(), Version::Head { date: day.to_owned(), msg: msg.to_owned() });
        } else {
            r.insert(c.id.as_str(), Version::Commit { date: day.to_owned(), msg: msg.to_owned() });
        }
        proof {
            assert(cs.take(i + 1).drop_last() =~= cs.take(i as int));
            assert(cs.take(i + 1).last() == cv);
            assert(commit_comps(cs.take(i + 1)) == commit_comps(cs.take(i as int)) + seq![
                commit_comp(cv, i == 0),
            ]);
            assert(r.completions@ == rmid.completions@);
            assert(display@ == cv.id@ + " ("@ + day_view(cv.date@) + (if i == 0 {
                " - HEAD) "@
            } else {
                ") "@
            }) + first_line_view(cv.msg@)) by {
                assert(day@ == day_view(cv.date@));
                assert(msg@ == first_line_view(cv.msg@));
            }
            assert(pair_views(r.completions@) =~= pair_views(rpre.completions@) + seq![
                commit_comp(cv, i == 0),
            ]);
            assert(pair_views(r.completions@) =~= pair_views(old(r).completions@) + commit_comps(
                cs.take(i + 1),
            ));
            assert(forall|k: Seq<char>| rmid.lookup(k) == rpre.lookup(k));
            assert forall|k: Seq<char>| #[trigger] old(r).lookup(k) is Some implies r.lookup(k)
                == old(r).lookup(k) by {
                assert(rpre.lookup(k) == old(r).lookup(k));
                assert(r.lookup(k) == if k == cv.id@ && rmid.lookup(cv.id@) is None {
                    r.lookup(k)
                } else {
                    rmid.lookup(k)
                });
            }
            assert forall|j: int|
                0 <= j < i + 1 && !commit_id_views(cs.take(j)).contains(#[trigger] cs[j].id@)
                    && old(r).lookup(cs[j].id@) is None implies match r.lookup(cs[j].id@) {
                Some(Version::Head { date, msg }) => j == 0 && date@ == day_view(cs[j].date@)
                    && msg@ == first_line_view(cs[j].msg@),
                Some(Version::Commit { date, msg }) => j != 0 && date@ == day_view(cs[j].date@)
                    && msg@ == first_line_view(cs[j].msg@),
                _ => false,
            } by {
                if j == i {
                    assert(rmid.lookup(cv.id@) is None) by {
                        if rmid.lookup(cv.id@) is Some {
                            assert(rpre.lookup(cv.id@) is Some);
                            assert(old(r).lookup(cv.id@) is Some || commit_id_views(
                                cs.take(i as int),
                            ).contains(cv.id@));
                            assert(commit_id_views(cs.take(j)).contains(cs[j].id@));
                        }
                    }
                } else {
                    assert(rpre.lookup(cs[j].id@) == rmid.lookup(cs[j].id@));
                    if cs[j].id@ == cv.id@ {
                        assert(r.lookup(cs[j].id@) == rmid.lookup(cs[j].id@));
                    } else {
                        assert(r.lookup(cs[j].id@) == rmid.lookup(cs[j].id@));
                    }
                }
            }
            assert forall|k: Seq<char>| #[trigger] r.lookup(k) is Some implies old(r).lookup(
                k,
            ) is Some || commit_id_views(cs.take(i + 1)).contains(k) by {
                if r.lookup(k) is Some {
                    if k == cv.id@ {
                        assert(commit_id_views(cs.take(i + 1))[i as int] == cs[i as int].id@);
                    } else {
                        assert(r.lookup(k) == rmid.lookup(k));
                        if !(old(r).lookup(k) is Some) {
                            let j = choose|j: int|
                                0 <= j < i && commit_id_views(cs.take(i as int))[j] == k;
                            assert(cs.take(i as int)[j] == cs[j]);
                            assert(commit_id_views(cs.take(i + 1))[j] == cs[j].id@);
                        }
                    }
                }
            }
        }
        i += 1;
    }
    proof {
        assert(cs.take(n as int) =~= cs);
    }
}

/// Merges what the provider's four sub-requests yielded into one revision
/// model.  A failed sub-request contributes nothing.  The release seeds the
/// default pick and is registered as the latest version; tags not naming the
/// release follow; commits come last, the first as the branch head, each
/// carrying its calendar day and its message's first line.  Registration is
/// first-seen-wins throughout.
pub fn merge_revisions(
    latest_release: &Option<String>,
    tags: &Option<Vec<String>>,
    commits: &Option<Vec<CommitInfo>>,
) -> (r: Revisions)
    ensures
        r.wf(),
        ({
            let rel = release_view(*latest_release);
            let ts = match *tags {
                Some(v) => tag_views(v@),
                None => Seq::empty(),
            };
            let cs = match *commits {
                Some(v) => v@,
                None => Seq::empty(),
            };
            &&& r.latest@ == merged_latest(rel, ts, commit_id_views(cs))
            &&& pair_views(r.completions@) == release_comps(rel) + tag_comps(ts, rel)
                + commit_comps(cs)
            &&& (rel matches Some(rv) ==> r.lookup(rv) matches Some(Version::Latest))
            &&& (forall|i: int|
                0 <= i < ts.len() && !is_release_tag(rel, ts[i]) ==> #[trigger] r.lookup(
                    ts[i],
                ) matches Some(Version::Tag))
            &&& (forall|i: int|
                0 <= i < cs.len() && !is_release_tag(rel, #[trigger] cs[i].id@) && !ts.contains(
                    cs[i].id@,
                ) && !commit_id_views(cs.take(i)).contains(cs[i].id@) ==> match r.lookup(
                    cs[i].id@,
                ) {
                    Some(Version::Head { date, msg }) => i == 0 && date@ == day_view(cs[i].date@)
                        && msg@ == first_line_view(cs[i].msg@),
                    Some(Version::Commit { date, msg }) => i != 0 && date@ == day_view(
                        cs[i].date@,
                    ) && msg@ == first_line_view(cs[i].msg@),
                    _ => false,
                })
            &&& (forall|k: Seq<char>|
                #[trigger] r.lookup(k) is Some ==> is_release_tag(rel, k) || ts.contains(k)
                    || commit_id_views(cs).contains(k))
        }),
{
    let ghost rel = release_view(*latest_release);
    let ghost ts = match tags {
        Some(v) => tag_views(v@),
        None => Seq::<Seq<char>>::empty(),
    };
    let ghost cs = match commits {
        Some(v) => v@,
        None => Seq::<CommitInfo>::empty(),
    };
    let mut r = Revisions::new();
    apply_release(&mut r, latest_release);
    let ghost ra = r;
    if let Some(tag_list) = tags {
        apply_tags(&mut r, latest_release, tag_list);
    } else {
        proof {
            assert(ts.len() == 0);
            assert(tag_comps(ts, rel) =~= Seq::<(Seq<char>, Seq<char>)>::empty());
            assert(pair_views(r.completions@) =~= pair_views(ra.completions@) + tag_comps(
                ts,
                rel,
            ));
        }
    }
    let ghost rb = r;
    proof {
        assert(pair_views(rb.completions@) =~= release_comps(rel) + tag_comps(ts, rel));
        assert(rb.latest@ == merged_latest(rel, ts, Seq::empty()));
    }
    if let Some(commit_list) = commits {
        apply_commits(&mut r, commit_list);
    } else {
        proof {
            assert(cs.len() == 0);
            assert(commit_comps(cs) =~= Seq::<(Seq<char>, Seq<char>)>::empty());
            assert(pair_views(r.completions@) =~= pair_views(rb.completions@) + commit_comps(cs));
        }
    }
    proof {
        assert(pair_views(r.completions@) =~= release_comps(rel) + tag_comps(ts, rel)
            + commit_comps(cs));
        assert(r.latest@ == merged_latest(rel, ts, commit_id_views(cs)));
        match rel {
            Some(rv) => {
                assert(ra.lookup(rv) matches Some(Version::Latest));
                assert(rb.lookup(rv) == ra.lookup(rv));
                assert(r.lookup(rv) == rb.lookup(rv));
            },
            None => {},
        }
        assert forall|i: int|
            0 <= i < ts.len() && !is_release_tag(rel, ts[i]) implies #[trigger] r.lookup(
            ts[i],
        ) matches Some(Version::Tag) by {
            assert(ra.lookup(ts[i]) is None) by {
                if ra.lookup(ts[i]) is Some {
                    assert(is_release_tag(rel, ts[i]));
                }
            }
            assert(rb.lookup(ts[i]) matches Some(Version::Tag));
            assert(r.lookup(ts[i]) == rb.lookup(ts[i]));
        }
        assert forall|i: int|
            0 <= i < cs.len() && !is_release_tag(rel, #[trigger] cs[i].id@) && !ts.contains(
                cs[i].id@,
            ) && !commit_id_views(cs.take(i)).contains(cs[i].id@) implies match r.lookup(
            cs[i].id@,
        ) {
            Some(Version::Head { date, msg }) => i == 0 && date@ == day_view(cs[i].date@) && msg@
                == first_line_view(cs[i].msg@),
            Some(Version::Commit { date, msg }) => i != 0 && date@ == day_view(cs[i].date@)
                && msg@ == first_line_view(cs[i].msg@),
            _ => false,
        } by {
            assert(rb.lookup(cs[i].id@) is None) by {
                if rb.lookup(cs[i].id@) is Some {
                    if ra.lookup(cs[i].id@) is Some {
                        assert(is_release_tag(rel, cs[i].id@));
                    } else {
                        assert(ts.contains(cs[i].id@));
                    }
                }
            }
        }
        assert forall|k: Seq<char>|
            #[trigger] r.lookup(k) is Some implies is_release_tag(rel, k) || ts.contains(k)
                || commit_id_views(cs).contains(k) by {
            if r.lookup(k) is Some {
                if rb.lookup(k) is Some {
                    if ra.lookup(k) is Some {
                        assert(is_release_tag(rel, k));
                    }
                }
            }
        }
    }
    r
}

// ---------------------------------------------------------------------------
// The package-registry fetcher's version selection.
// ---------------------------------------------------------------------------

/// One published release as the registry reports it.
pub struct RegistryRelease {
    pub num: String,
    pub yanked: bool,
    pub license: String,
}

/// The releases that were not withdrawn, in listing order.
pub open spec fn registry_candidates(v: Seq<RegistryRelease>) -> Seq<RegistryRelease>
    decreases v.len(),
{
    if v.len() == 0 {
        Seq::empty()
    } else {
        registry_candidates(v.drop_last()) + (if v.last().yanked {
            Seq::empty()
        } else {
            seq![v.last()]
        })
    }
}

/// The completion each candidate contributes: its version, twice.
pub open spec fn registry_comps(cs: Seq<RegistryRelease>) -> Seq<(Seq<char>, Seq<char>)> {
    cs.map_values(|c: RegistryRelease| (c.num@, c.num@))
}

/// A version string that parses as a plain release: semantic, without a
/// pre-release identifier.
pub open spec fn is_release_version(s: Seq<char>) -> bool {
    match semver_of(s) {
        Some(sv) => sv.pre@.len() == 0,
        None => false,
    }
}

/// The numeric triple of a version string that parses.
pub open spec fn triple_of(s: Seq<char>) -> SemVer {
    semver_of(s)->Some_0
}

/// Whether the selection's characterization holds: the pick is a candidate,
/// parses as a plain release, no candidate's triple exceeds its, and among
/// equal triples it is the earliest listed.
pub open spec fn is_selected_latest(cs: Seq<RegistryRelease>, latest: Seq<char>) -> bool {
    exists|i: int|
        {
            &&& 0 <= i < cs.len()
            &&& #[trigger] cs[i].num@ == latest
            &&& is_release_version(latest)
            &&& (forall|j: int|
                0 <= j < cs.len() && is_release_version(#[trigger] cs[j].num@)
                    ==> !triple_of(latest).triple_lt(&triple_of(cs[j].num@)))
            &&& (forall|j: int|
                0 <= j < i && #[trigger] cs[j].num@ != cs[i].num@ && is_release_version(
                    cs[j].num@,
                ) ==> !triple_of(cs[j].num@).triple_eq(&triple_of(latest)))
        }
}

/// Builds the revision model of a package registry's release listing and
/// picks the default: every release that was not withdrawn is selectable as a
/// tag, and the highest plain release — not the registry's listing order —
/// becomes the default pick, along with its declared license.  Without any
/// plain release the first candidate stands in; without any candidate the
/// pick is empty.
#[verifier::rlimit(100)]
#[verifier::spinoff_prover]
pub fn registry_revisions(versions: &Vec<RegistryRelease>) -> (r: (Revisions, Option<String>))
    ensures
        r.0.wf(),
        ({
            let cs = registry_candidates(versions@);
            &&& pair_views(r.0.completions@) == registry_comps(cs)
            &&& (forall|i: int|
                0 <= i < cs.len() ==> #[trigger] r.0.lookup(cs[i].num@) matches Some(
                    Version::Tag,
                ))
            &&& (forall|k: Seq<char>|
                #[trigger] r.0.lookup(k) is Some ==> exists|i: int|
                    0 <= i < cs.len() && #[trigger] cs[i].num@ == k)
            &&& (if exists|i: int|
                0 <= i < cs.len() && is_release_version(#[trigger] cs[i].num@) {
                is_selected_latest(cs, r.0.latest@) && (exists|i: int|
                    {
                        &&& 0 <= i < cs.len()
                        &&& #[trigger] cs[i].num@ == r.0.latest@
                        &&& r.1 matches Some(l) && l@ == cs[i].license@
                    })
            } else if cs.len() > 0 {
                r.0.latest@ == cs[0].num@ && (r.1 matches Some(l) && l@ == cs[0].license@)
            } else {
                r.0.latest@ == Seq::<char>::empty() && r.1 is None
            })
        }),
{
    let ghost all = versions@;
    let mut r = Revisions::new();
    let mut fallback: Option<(String, String)> = None;
    let mut best: Option<(String, SemVer, String)> = None;
    let ghost cs = registry_candidates(all);
    proof {
        assert(registry_candidates(all.take(0)) =~= Seq::<RegistryRelease>::empty());
    }
    let n = versions.len();
    let mut i: usize = 0;
    while i < n
        invariant
            n == versions@.len(),
            all == versions@,
            i <= n,
            r.wf(),
            r.latest@.len() == 0,
            pair_views(r.completions@) == registry_comps(registry_candidates(all.take(i as int))),
            forall|j: int|
                0 <= j < registry_candidates(all.take(i as int)).len()
                    ==> #[trigger] r.lookup(registry_candidates(all.take(i as int))[j].num@)
                    matches Some(Version::Tag),
            forall|k: Seq<char>|
                #[trigger] r.lookup(k) is Some ==> exists|j: int|
                    0 <= j < registry_candidates(all.take(i as int)).len()
                        && #[trigger] registry_candidates(all.take(i as int))[j].num@ == k,
            ({
                let ci = registry_candidates(all.take(i as int));
                &&& (match fallback {
                    Some(f) => ci.len() > 0 && f.0@ == ci[0].num@ && f.1@ == ci[0].license@,
                    None => ci.len() == 0,
                })
                &&& (match best {
                    Some(b) => {
                        &&& semver_of(b.0@) == Some(b.1)
                        &&& b.1.pre@.len() == 0
                        &&& is_selected_latest(ci, b.0@)
                        &&& (exists|w: int|
                            0 <= w < ci.len() && #[trigger] ci[w].num@ == b.0@ && ci[w].license@
                                == b.2@)
                    },
                    None => forall|j: int|
                        0 <= j < ci.len() ==> !is_release_version(#[trigger] ci[j].num@),
                })
            }),
        decreases n - i,
    {
        let ghost ci = registry_candidates(all.take(i as int));
        let ghost cnext = registry_candidates(all.take(i + 1));
        proof {
            assert(all.take(i + 1).drop_last() =~= all.take(i as int));
            assert(all.take(i + 1).last() == all[i as int]);
        }
        let entry = &versions[i];
        if !entry.yanked {
            proof {
                assert(cnext =~= ci + seq![all[i as int]]);
                assert(cnext.len() == ci.len() + 1);
                assert(cnext[ci.len() as int] == all[i as int]);
                assert(forall|j: int| 0 <= j < ci.len() ==> cnext[j] == ci[j]);
            }
            let ghost rpre = r;
            r.completions.push(
                Pair { display: entry.num.clone(), replacement: entry.num.clone() },
            );
            let ghost rmid = r;
            r.insert(entry.num.as_str(), Version::Tag);
            if fallback.is_none() {
                fallback = Some((entry.num.clone(), entry.license.clone()));
            }
            let ghost best_old = best;
            let parsed = parse_semver(entry.num.as_str());
            let mut is_new_release = false;
    
            if let Some(sv) = parsed {
                if sv.pre.as_str().is_empty() {
                    is_new_release = true;
                    let replace = match &best {
                        Some(b) => b.1.lt_triple(&sv),
                        None => true,
                    };
                    if replace {
                        best = Some((entry.num.clone(), sv, entry.license.clone()));
                    }
                }
            }
            proof {
                assert(is_new_release == is_release_version(all[i as int].num@));
            }
            proof {
                assert(pair_views(r.completions@) =~= registry_comps(cnext)) by {
                    assert(pair_views(rmid.completions@) =~= pair_views(rpre.completions@)
                        + seq![(all[i as int].num@, all[i as int].num@)]);
                    assert(registry_comps(cnext) =~= registry_comps(ci) + seq![
                        (all[i as int].num@, all[i as int].num@),
                    ]);
                    assert(r.completions@ == rmid.completions@);
                }
                assert forall|j: int|
                    0 <= j < cnext.len() implies #[trigger] r.lookup(cnext[j].num@) matches Some(
                    Version::Tag,
                ) by {
                    if j < ci.len() {
                        assert(rpre.lookup(ci[j].num@) matches Some(Version::Tag));
                        assert(r.lookup(ci[j].num@) == if ci[j].num@ == all[i as int].num@
                            && rpre.lookup(all[i as int].num@) is None {
                            Some(Version::Tag)
                        } else {
                            rpre.lookup(ci[j].num@)
                        });
                    } else {
                        if rpre.lookup(all[i as int].num@) is None {
                        } else {
                            let w = choose|w: int|
                                0 <= w < ci.len() && #[trigger] ci[w].num@ == all[i as int].num@;
                            assert(rpre.lookup(ci[w].num@) matches Some(Version::Tag));
                        }
                    }
                }
                assert forall|k: Seq<char>| #[trigger] r.lookup(k) is Some implies exists|j: int|
                    0 <= j < cnext.len() && #[trigger] cnext[j].num@ == k by {
                    if k == all[i as int].num@ {
                        assert(cnext[ci.len() as int].num@ == k);
                    } else {
                        assert(r.lookup(k) == rpre.lookup(k));
                        let j = choose|j: int| 0 <= j < ci.len() && #[trigger] ci[j].num@ == k;
                        assert(cnext[j].num@ == k);
                    }
                }
                assert(match fallback {
                    Some(f) => cnext.len() > 0 && f.0@ == cnext[0].num@ && f.1@
                        == cnext[0].license@,
                    None => cnext.len() == 0,
                });
                let e = all[i as int];
                assert(match best {
                    Some(b) => {
                        &&& semver_of(b.0@) == Some(b.1)
                        &&& b.1.pre@.len() == 0
                        &&& is_selected_latest(cnext, b.0@)
                        &&& (exists|w: int|
                            0 <= w < cnext.len() && #[trigger] cnext[w].num@ == b.0@
                                && cnext[w].license@ == b.2@)
                    },
                    None => forall|j: int|
                        0 <= j < cnext.len() ==> !is_release_version(#[trigger] cnext[j].num@),
                }) by {
                    if !is_new_release {
                        assert(best == best_old);
                        match best_old {
                            Some(b) => {
                                let w = choose|w: int|
                                    {
                                        &&& 0 <= w < ci.len()
                                        &&& #[trigger] ci[w].num@ == b.0@
                                        &&& is_release_version(b.0@)
                                        &&& (forall|j: int|
                                            0 <= j < ci.len() && is_release_version(
                                                #[trigger] ci[j].num@,
                                            ) ==> !triple_of(b.0@).triple_lt(
                                                &triple_of(ci[j].num@),
                                            ))
                                        &&& (forall|j: int|
                                            0 <= j < w && #[trigger] ci[j].num@ != ci[w].num@
                                                && is_release_version(ci[j].num@) ==> !triple_of(
                                                ci[j].num@,
                                            ).triple_eq(&triple_of(b.0@)))
                                    };
                                assert(cnext[w].num@ == b.0@);
                                assert forall|j: int|
                                    0 <= j < cnext.len() && is_release_version(
                                        #[trigger] cnext[j].num@,
                                    ) implies !triple_of(b.0@).triple_lt(
                                    &triple_of(cnext[j].num@),
                                ) by {
                                    if j < ci.len() {
                                        assert(cnext[j] == ci[j]);
                                    }
                                }
                                assert(is_selected_latest(cnext, b.0@));
                            },
                            None => {},
                        }
                    } else {
                        let sv = triple_of(e.num@);
                        match best_old {
                            None => {
                                assert(best matches Some(b) && b.0@ == e.num@);
                                assert(cnext[ci.len() as int].num@ == e.num@);
                                assert(is_selected_latest(cnext, e.num@)) by {
                                    assert forall|j: int|
                                        0 <= j < cnext.len() && is_release_version(
                                            #[trigger] cnext[j].num@,
                                        ) implies !triple_of(e.num@).triple_lt(
                                        &triple_of(cnext[j].num@),
                                    ) by {
                                        if j < ci.len() {
                                            assert(cnext[j] == ci[j]);
                                        }
                                    }
                                }
                            },
                            Some(b0) => {
                                let w0 = choose|w: int|
                                    {
                                        &&& 0 <= w < ci.len()
                                        &&& #[trigger] ci[w].num@ == b0.0@
                                        &&& is_release_version(b0.0@)
                                        &&& (forall|j: int|
                                            0 <= j < ci.len() && is_release_version(
                                                #[trigger] ci[j].num@,
                                            ) ==> !triple_of(b0.0@).triple_lt(
                                                &triple_of(ci[j].num@),
                                            ))
                                        &&& (forall|j: int|
                                            0 <= j < w && #[trigger] ci[j].num@ != ci[w].num@
                                                && is_release_version(ci[j].num@) ==> !triple_of(
                                                ci[j].num@,
                                            ).triple_eq(&triple_of(b0.0@)))
                                    };
                                if b0.1.triple_lt(&sv) {
                                    assert(best matches Some(b) && b.0@ == e.num@ && b.1 == sv
                                        && b.2@ == e.license@);
                                    assert(cnext[ci.len() as int].num@ == e.num@);
                                    assert forall|j: int|
                                        0 <= j < cnext.len() && is_release_version(
                                            #[trigger] cnext[j].num@,
                                        ) implies !triple_of(e.num@).triple_lt(
                                        &triple_of(cnext[j].num@),
                                    ) by {
                                        if j < ci.len() {
                                            assert(cnext[j] == ci[j]);
                                            assert(!triple_of(b0.0@).triple_lt(
                                                &triple_of(ci[j].num@),
                                            ));
                                        }
                                    }
                                    assert forall|j: int|
                                        0 <= j < ci.len() && #[trigger] cnext[j].num@
                                            != e.num@ && is_release_version(cnext[j].num@)
                                        implies !triple_of(cnext[j].num@).triple_eq(
                                        &triple_of(e.num@),
                                    ) by {
                                        assert(cnext[j] == ci[j]);
                                        assert(!triple_of(b0.0@).triple_lt(
                                            &triple_of(ci[j].num@),
                                        ));
                                    }
                                    assert(is_selected_latest(cnext, e.num@));
                                } else {
                                    assert(best == best_old);
                                    assert(cnext[w0].num@ == b0.0@);
                                    assert forall|j: int|
                                        0 <= j < cnext.len() && is_release_version(
                                            #[trigger] cnext[j].num@,
                                        ) implies !triple_of(b0.0@).triple_lt(
                                        &triple_of(cnext[j].num@),
                                    ) by {
                                        if j < ci.len() {
                                            assert(cnext[j] == ci[j]);
                                        } else {
                                            assert(cnext[j].num@ == e.num@);
                                        }
                                    }
                                    assert(is_selected_latest(cnext, b0.0@));
                                }
                            },
                        }
                    }
                }
            }
        } else {
            proof {
                assert(cnext =~= ci);
            }
        }
        i += 1;
    }
    proof {
        assert(all.take(n as int) =~= all);
        assert(cs == registry_candidates(all.take(n as int)));
    }
    let ghost rdone = r;
    match best {
        Some(b) => {
            r.latest = b.0;
            proof {
                assert(r.completions@ == rdone.completions@ && r.versions@ == rdone.versions@);
                assert(forall|k: Seq<char>| r.lookup(k) == rdone.lookup(k));
                assert(is_selected_latest(cs, r.latest@));
                let w = choose|w: int|
                    {
                        &&& 0 <= w < cs.len()
                        &&& #[trigger] cs[w].num@ == b.0@
                        &&& is_release_version(b.0@)
                    };
                assert(exists|i: int|
                    0 <= i < cs.len() && is_release_version(#[trigger] cs[i].num@));
            }
            (r, Some(b.2))
        },
        None => {
            proof {
                assert(forall|j: int|
                    0 <= j < cs.len() ==> !is_release_version(#[trigger] cs[j].num@));
                assert(!exists|i: int|
                    0 <= i < cs.len() && is_release_version(#[trigger] cs[i].num@));
            }
            match fallback {
                Some(f) => {
                    r.latest = f.0;
                    proof {
                        assert(r.completions@ == rdone.completions@ && r.versions@
                            == rdone.versions@);
                        assert(forall|k: Seq<char>| r.lookup(k) == rdone.lookup(k));
                        assert(cs.len() > 0 && r.latest@ == cs[0].num@);
                    }
                    (r, Some(f.1))
                },
                None => {
                    proof {
                        assert(cs.len() == 0);
                    }
                    (r, None)
                },
            }
        },
    }
}


/// Whether some candidate carries this version string.
pub open spec fn has_version(cs: Seq<RegistryRelease>, k: Seq<char>) -> bool {
    exists|i: int| 0 <= i < cs.len() && #[trigger] cs[i].num@ == k
}

/// Law (version selection): over any listing of versions with at least one
/// plain (non-prerelease) release, the selected default is the highest plain
/// release, independent of the listing order: two listings with the same
/// versions, no two plain releases of which share a numeric triple, select
/// the same version.
pub proof fn lemma_latest_order_independent(
    cs1: Seq<RegistryRelease>,
    cs2: Seq<RegistryRelease>,
    l1: Seq<char>,
    l2: Seq<char>,
)
    requires
        forall|k: Seq<char>| has_version(cs1, k) <==> has_version(cs2, k),
        is_selected_latest(cs1, l1),
        is_selected_latest(cs2, l2),
        forall|k1: Seq<char>, k2: Seq<char>|
            has_version(cs1, k1) && has_version(cs1, k2) && is_release_version(k1)
                && is_release_version(k2) && k1 != k2 ==> !triple_of(k1).triple_eq(
                &triple_of(k2),
            ),
    ensures
        l1 == l2,
{
    let i1 = choose|i: int|
        0 <= i < cs1.len() && #[trigger] cs1[i].num@ == l1 && is_release_version(l1);
    let i2 = choose|i: int|
        0 <= i < cs2.len() && #[trigger] cs2[i].num@ == l2 && is_release_version(l2);
    assert(has_version(cs1, l1));
    assert(has_version(cs2, l2));
    assert(has_version(cs2, l1));
    assert(has_version(cs1, l2));
    let j1 = choose|j: int| 0 <= j < cs1.len() && #[trigger] cs1[j].num@ == l2;
    let j2 = choose|j: int| 0 <= j < cs2.len() && #[trigger] cs2[j].num@ == l1;
    assert(!triple_of(l1).triple_lt(&triple_of(cs1[j1].num@)));
    assert(!triple_of(l2).triple_lt(&triple_of(cs2[j2].num@)));
    assert(triple_of(l1).triple_eq(&triple_of(l2)));
    if l1 != l2 {
        assert(!triple_of(l1).triple_eq(&triple_of(l2)));
    }
}

// ---------------------------------------------------------------------------
// Provider-specific massaging.
// ---------------------------------------------------------------------------

/// The tag names hidden in a provider's reference listing: the refs under
/// `refs/tags/`, newest (listed last) first, at most twelve of them.
pub open spec fn stripped_tags(refs: Seq<Seq<char>>) -> Seq<Seq<char>>
    decreases refs.len(),
{
    if refs.len() == 0 {
        Seq::empty()
    } else {
        (if has_prefix(refs.last(), "refs/tags/"@) {
            seq![refs.last().skip("refs/tags/"@.len() as int)]
        } else {
            Seq::<Seq<char>>::empty()
        }) + stripped_tags(refs.drop_last())
    }
}

/// The tags to offer from a reference listing.
pub open spec fn github_tag_view(refs: Seq<Seq<char>>) -> Seq<Seq<char>> {
    let ts = stripped_tags(refs);
    if ts.len() > 12 {
        ts.take(12)
    } else {
        ts
    }
}

/// Reads the tag names out of a reference listing, newest first, keeping at
/// most twelve.
pub fn github_tags_from_refs(refs: &Vec<String>) -> (r: Vec<String>)
    ensures
        crate::inputs::name_views(r@) == github_tag_view(crate::utils::views(refs@)),
{
    let ghost all = crate::utils::views(refs@);
    let mut out: Vec<String> = Vec::new();
    let mut k = refs.len();
    proof {
        assert(all.take(refs@.len() as int) =~= all);
        assert(crate::inputs::name_views(out@) =~= Seq::<Seq<char>>::empty());
    }
    while k > 0 && out.len() < 12
        invariant
            all == crate::utils::views(refs@),
            k <= refs@.len(),
            out@.len() <= 12,
            stripped_tags(all) == crate::inputs::name_views(out@) + stripped_tags(
                all.take(k as int),
            ),
            out@.len() < 12 ==> crate::inputs::name_views(out@) == stripped_tags(all).take(
                stripped_tags(all).len() - stripped_tags(all.take(k as int)).len(),
            ),
        decreases k,
    {
        proof {
            assert(all.take(k as int).drop_last() =~= all.take(k - 1));
            assert(all.take(k as int).last() == all[k - 1]);
        }
        let reference = &refs[k - 1];
        match crate::text::strip_prefix_str(reference.as_str(), "refs/tags/") {
            Some(tag) => {
                out.push(tag.to_owned());
                proof {
                    assert(crate::inputs::name_views(out@) =~= crate::inputs::name_views(
                        out@.drop_last(),
                    ).push(tag@));
                    assert(stripped_tags(all.take(k as int)) == seq![
                        all[k - 1].skip("refs/tags/"@.len() as int),
                    ] + stripped_tags(all.take(k - 1)));
                    assert(crate::inputs::name_views(out@) + stripped_tags(all.take(k - 1))
                        =~= crate::inputs::name_views(out@.drop_last()) + stripped_tags(
                        all.take(k as int),
                    ));
                    if out@.len() < 12 {
                        let st = stripped_tags(all);
                        assert(crate::inputs::name_views(out@) =~= st.take(
                            st.len() - stripped_tags(all.take(k - 1)).len(),
                        ));
                    }
                }
            },
            None => {
                proof {
                    assert(stripped_tags(all.take(k as int)) =~= stripped_tags(all.take(k - 1)));
                }
            },
        }
        k -= 1;
    }
    proof {
        let st = stripped_tags(all);
        if out@.len() == 12 {
            assert(crate::inputs::name_views(out@).len() == 12);
            assert(st.len() >= 12);
            if st.len() > 12 {
                assert(crate::inputs::name_views(out@) =~= st.take(12)) by {
                    assert(forall|p: int|
                        0 <= p < 12 ==> crate::inputs::name_views(out@)[p] == st[p]);
                }
            } else {
                assert(stripped_tags(all.take(k as int)).len() == 0);
                assert(crate::inputs::name_views(out@) =~= st);
            }
        } else {
            assert(k == 0);
            assert(all.take(0) =~= Seq::<Seq<char>>::empty());
            assert(stripped_tags(all.take(0)).len() == 0);
            assert(crate::inputs::name_views(out@) + Seq::<Seq<char>>::empty() =~= crate::inputs::name_views(
                out@,
            ));
            assert(crate::inputs::name_views(out@) =~= st);
            assert(st.len() <= 12);
        }
    }
    out
}

/// The API root of a group-capable hosting domain, each path part escaped
/// into one URL segment.
pub fn get_api_root(domain: &str, group: &Option<String>, owner: &str, repo: &str) -> (r: String)
    ensures
        r@ == "https://"@ + domain@ + "/api/v4/projects/"@ + (match *group {
            Some(g) => g@ + "%2F"@,
            None => Seq::<char>::empty(),
        }) + owner@ + "%2F"@ + repo@,
{
    let mut root = String::new();
    root.append("https://");
    root.append(domain);
    root.append("/api/v4/projects/");
    if let Some(g) = group {
        root.append(g.as_str());
        root.append("%2F");
    }
    root.append(owner);
    root.append("%2F");
    root.append(repo);
    proof {
        assert(root@ =~= "https://"@ + domain@ + "/api/v4/projects/"@ + (match *group {
            Some(g) => g@ + "%2F"@,
            None => Seq::<char>::empty(),
        }) + owner@ + "%2F"@ + repo@);
    }
    root
}

/// What a direct revision lookup learned: an id the requested revision
/// prefixes is a commit, carrying its calendar day; anything else resolved is
/// a tag.
pub fn classify_fetched_revision(id: &str, date: &str, rev: &str) -> (r: Version)
    ensures
        has_prefix(id@, rev@) ==> (r matches Version::Commit { date: d, msg: m } && d@ == day_view(
            date@,
        ) && m@ == Seq::<char>::empty()),
        !has_prefix(id@, rev@) ==> r matches Version::Tag,
{
    if starts_with_str(id, rev) {
        let day = date_day(date);
        Version::Commit { date: day.to_owned(), msg: String::new() }
    } else {
        Version::Tag
    }
}

// ---------------------------------------------------------------------------
// The fetchers and what they produce.
// ---------------------------------------------------------------------------

/// Which remote a package is fetched from.
pub enum Fetcher {
    FetchCrate { pname: String },
    FetchFromGitHub { github_base: String, owner: String, repo: String },
    FetchFromGitLab { domain: String, group: Option<String>, owner: String, repo: String },
    FetchFromGitea { domain: String, owner: String, repo: String },
    FetchPypi { pname: String },
}

/// The fetcher's name in the generated manifest.
pub open spec fn fetcher_display(f: &Fetcher) -> Seq<char> {
    match f {
        Fetcher::FetchCrate { .. } => "fetchCrate"@,
        Fetcher::FetchFromGitHub { .. } => "fetchFromGitHub"@,
        Fetcher::FetchFromGitLab { .. } => "fetchFromGitLab"@,
        Fetcher::FetchFromGitea { .. } => "fetchFromGitea"@,
        Fetcher::FetchPypi { .. } => "fetchPypi"@,
    }
}

impl Fetcher {
    /// The fetcher's name in the generated manifest.
    pub fn display(&self) -> (r: String)
        ensures
            r@ == fetcher_display(self),
    {
        match self {
            Fetcher::FetchCrate { .. } => "fetchCrate".to_owned(),
            Fetcher::FetchFromGitHub { .. } => "fetchFromGitHub".to_owned(),
            Fetcher::FetchFromGitLab { .. } => "fetchFromGitLab".to_owned(),
            Fetcher::FetchFromGitea { .. } => "fetchFromGitea".to_owned(),
            Fetcher::FetchPypi { .. } => "fetchPypi".to_owned(),
        }
    }
}

/// The default host of the largest git-hosting provider.
pub fn default_github_base() -> (r: String)
    ensures
        r@ == "github.com"@,
{
    "github.com".to_owned()
}

/// The default domain of the group-capable hosting provider.
pub fn default_gitlab_domain() -> (r: String)
    ensures
        r@ == "gitlab.com"@,
{
    "gitlab.com".to_owned()
}

/// Everything one fetch learned about the package.
pub struct PackageInfo {
    pub pname: String,
    pub description: String,
    pub file_url_prefix: Option<String>,
    pub license: Vec<String>,
    pub python_dependencies: PythonDependencies,
    pub revisions: Revisions,
}

/// The file-browsing prefix of a repository on a github-like host.
pub fn github_file_url_prefix(github_base: &str, owner: &str, repo: &str) -> (r: String)
    ensures
        r@ == "https://"@ + github_base@ + "/"@ + owner@ + "/"@ + repo@ + "/blob/${src.rev}/"@,
{
    let mut s = String::new();
    s.append("https://");
    s.append(github_base);
    s.append("/");
    s.append(owner);
    s.append("/");
    s.append(repo);
    s.append("/blob/${src.rev}/");
    proof {
        assert(s@ =~= "https://"@ + github_base@ + "/"@ + owner@ + "/"@ + repo@
            + "/blob/${src.rev}/"@);
    }
    s
}

/// The file-browsing prefix of a repository on a gitlab-like host.
pub fn gitlab_file_url_prefix(domain: &str, owner: &str, repo: &str) -> (r: String)
    ensures
        r@ == "https://"@ + domain@ + "/"@ + owner@ + "/"@ + repo@ + "/-/blob/${src.rev}/"@,
{
    let mut s = String::new();
    s.append("https://");
    s.append(domain);
    s.append("/");
    s.append(owner);
    s.append("/");
    s.append(repo);
    s.append("/-/blob/${src.rev}/");
    proof {
        assert(s@ =~= "https://"@ + domain@ + "/"@ + owner@ + "/"@ + repo@
            + "/-/blob/${src.rev}/"@);
    }
    s
}

// ---------------------------------------------------------------------------
// The package-index fetcher's release selection.
// ---------------------------------------------------------------------------

/// One file of a published index release.
pub struct PypiRelease {
    pub filename: String,
    pub packagetype: String,
    pub upload_time: i64,
    pub yanked: bool,
}

/// One selectable index release: the name the file carries, the version, the
/// upload time of the chosen file, and its archive format.
pub struct PypiCandidate {
    pub pname: String,
    pub version: String,
    pub upload_time: i64,
    pub format: PypiFormat,
}

/// The package name a release file encodes, when the file is
/// `{name}-{version}{ext}`.
pub open spec fn pname_view(filename: Seq<char>, version: Seq<char>, ext: Seq<char>) -> Option<
    Seq<char>,
> {
    if has_suffix(filename, version + ext) && filename.len() > version.len() + ext.len()
        && filename[filename.len() - version.len() - ext.len() - 1] == '-' {
        Some(filename.take(filename.len() - version.len() - ext.len() - 1))
    } else {
        None
    }
}

/// Reads the package name out of a release file named
/// `{name}-{version}{ext}`.
pub fn get_pname<'a>(release: &'a PypiRelease, version: &str, ext: &str) -> (r: Option<&'a str>)
    ensures
        match r {
            Some(p) => pname_view(release.filename@, version@, ext@) == Some(p@),
            None => pname_view(release.filename@, version@, ext@) is None,
        },
{
    let stem = match strip_suffix_str(release.filename.as_str(), ext) {
        Some(stem) => stem,
        None => {
            proof {
                if has_suffix(release.filename@, version@ + ext@) {
                    assert((version@ + ext@).skip(version@.len() as int) =~= ext@);
                    assert(release.filename@.skip(
                        release.filename@.len() - ext@.len(),
                    ) =~= (version@ + ext@).skip(version@.len() as int));
                }
            }
            return None;
        },
    };
    let stem2 = match strip_suffix_str(stem, version) {
        Some(stem2) => stem2,
        None => {
            proof {
                if has_suffix(release.filename@, version@ + ext@) {
                    assert((version@ + ext@).take(version@.len() as int) =~= version@);
                    assert(stem@.skip(stem@.len() - version@.len()) =~= (version@ + ext@).take(
                        version@.len() as int,
                    ));
                }
            }
            return None;
        },
    };
    let r = match strip_suffix_str(stem2, "-") {
        Some(p) => p,
        None => {
            proof {
                reveal_strlit("-");
                if has_suffix(release.filename@, version@ + ext@) && release.filename@.len()
                    > version@.len() + ext@.len() && release.filename@[release.filename@.len()
                    - version@.len() - ext@.len() - 1] == '-' {
                    assert(stem2@.len() >= 1);
                    assert(stem2@[stem2@.len() - 1] == '-') by {
                        assert(release.filename@.take(
                            release.filename@.len() - (version@ + ext@).len(),
                        ) =~= stem2@);
                    }
                    assert(stem2@.skip(stem2@.len() - 1) =~= "-"@);
                }
            }
            return None;
        },
    };
    proof {
        reveal_strlit("-");
        assert(release.filename@ =~= stem2@ + version@ + ext@);
        assert(release.filename@.skip(release.filename@.len() - (version@ + ext@).len())
            =~= version@ + ext@);
        assert(release.filename@[release.filename@.len() - version@.len() - ext@.len() - 1]
            == '-') by {
            assert("-"@.len() == 1);
            assert(stem2@.skip(stem2@.len() - 1)[0] == stem2@[stem2@.len() - 1]);
            assert(stem2@[stem2@.len() - 1] == '-');
        }
        assert(r@ =~= release.filename@.take(
            release.filename@.len() - version@.len() - ext@.len() - 1,
        ));
    }
    Some(r)
}

/// Which file of one version's releases is selectable: the first acceptable
/// tarball, else the first acceptable zip.  A withdrawn file or one that is
/// not a source distribution is never picked.
pub open spec fn pick_view(
    rs: Seq<PypiRelease>,
    version: Seq<char>,
    zip: Option<(Seq<char>, int)>,
) -> Option<(Seq<char>, int, PypiFormat)>
    decreases rs.len(),
{
    if rs.len() == 0 {
        match zip {
            Some(z) => Some((z.0, z.1, PypiFormat::Zip)),
            None => None,
        }
    } else if rs[0].yanked || rs[0].packagetype@ != "sdist"@ {
        pick_view(rs.skip(1), version, zip)
    } else if pname_view(rs[0].filename@, version, ".tar.gz"@) is Some {
        Some(
            (
                pname_view(rs[0].filename@, version, ".tar.gz"@)->Some_0,
                rs[0].upload_time as int,
                PypiFormat::TarGz,
            ),
        )
    } else if zip is None && pname_view(rs[0].filename@, version, ".zip"@) is Some {
        pick_view(
            rs.skip(1),
            version,
            Some((pname_view(rs[0].filename@, version, ".zip"@)->Some_0, rs[0].upload_time as int)),
        )
    } else {
        pick_view(rs.skip(1), version, zip)
    }
}

/// Picks one version's selectable file, preferring the tarball format.
pub fn pick_release(releases: &Vec<PypiRelease>, version: &str) -> (r: Option<PypiCandidate>)
    ensures
        match r {
            Some(c) => pick_view(releases@, version@, None) == Some(
                (c.pname@, c.upload_time as int, c.format),
            ) && c.version@ == version@,
            None => pick_view(releases@, version@, None) is None,
        },
{
    let ghost all = releases@;
    let mut zip: Option<(String, i64)> = None;
    let n = releases.len();
    let mut i: usize = 0;
    proof {
        assert(all.skip(0) =~= all);
    }
    while i < n
        invariant
            n == releases@.len(),
            all == releases@,
            i <= n,
            pick_view(all, version@, None) == pick_view(all.skip(i as int), version@, match zip {
                Some(z) => Some((z.0@, z.1 as int)),
                None => None,
            }),
        decreases n - i,
    {
        let ghost rest = all.skip(i as int);
        proof {
            assert(rest[0] == all[i as int]);
            assert(rest.skip(1) =~= all.skip(i + 1));
        }
        let rel = &releases[i];
        if !rel.yanked && str_eq(rel.packagetype.as_str(), "sdist") {
            if let Some(p) = get_pname(rel, version, ".tar.gz") {
                return Some(
                    PypiCandidate {
                        pname: p.to_owned(),
                        version: version.to_owned(),
                        upload_time: rel.upload_time,
                        format: PypiFormat::TarGz,
                    },
                );
            }
            if zip.is_none() {
                if let Some(p) = get_pname(rel, version, ".zip") {
                    zip = Some((p.to_owned(), rel.upload_time));
                }
            }
        }
        i += 1;
    }
    proof {
        assert(all.skip(n as int).len() == 0);
    }
    match zip {
        Some(z) => Some(
            PypiCandidate {
                pname: z.0,
                version: version.to_owned(),
                upload_time: z.1,
                format: PypiFormat::Zip,
            },
        ),
        None => None,
    }
}

/// Where inserting a candidate into a list ordered by upload time, newest
/// first, leaves it: after every candidate at least as new.
pub open spec fn time_insert(v: Seq<PypiCandidate>, c: PypiCandidate) -> Seq<PypiCandidate>
    decreases v.len(),
{
    if v.len() == 0 {
        seq![c]
    } else if v[0].upload_time >= c.upload_time {
        seq![v[0]] + time_insert(v.skip(1), c)
    } else {
        seq![c] + v
    }
}

/// The candidates ordered by upload time, newest first; candidates of one
/// time keep their listing order.
pub open spec fn time_sorted(v: Seq<PypiCandidate>) -> Seq<PypiCandidate>
    decreases v.len(),
{
    if v.len() == 0 {
        Seq::empty()
    } else {
        time_insert(time_sorted(v.drop_last()), v.last())
    }
}

/// Files a candidate into a list ordered by upload time, newest first.
fn insert_by_time(v: &mut Vec<PypiCandidate>, c: PypiCandidate)
    ensures
        final(v)@ == time_insert(old(v)@, c),
{
    let ghost orig = v@;
    let ghost cv = c;
    let n = v.len();
    let mut i: usize = 0;
    proof {
        assert(orig.skip(0) =~= orig);
        assert(orig.take(0) + time_insert(orig, cv) =~= time_insert(orig, cv));
    }
    while i < n && v[i].upload_time >= c.upload_time
        invariant
            n == v@.len(),
            orig == v@,
            i <= n,
            time_insert(orig, cv) == orig.take(i as int) + time_insert(orig.skip(i as int), cv),
            cv == c,
        decreases n - i,
    {
        proof {
            let rest = orig.skip(i as int);
            assert(rest[0] == orig[i as int]);
            assert(rest.skip(1) =~= orig.skip(i + 1));
            assert(time_insert(rest, cv) == seq![rest[0]] + time_insert(rest.skip(1), cv));
            assert(orig.take(i as int) + (seq![orig[i as int]] + time_insert(
                orig.skip(i + 1),
                cv,
            )) =~= orig.take(i + 1) + time_insert(orig.skip(i + 1), cv));
        }
        i += 1;
    }
    proof {
        let rest = orig.skip(i as int);
        if i < n {
            assert(rest[0] == orig[i as int]);
            assert(time_insert(rest, cv) == seq![cv] + rest);
        } else {
            assert(rest.len() == 0);
            assert(time_insert(rest, cv) == seq![cv]);
        }
        assert(time_insert(orig, cv) =~= orig.take(i as int) + seq![cv] + orig.skip(i as int));
    }
    v.insert(i, c);
    proof {
        assert(v@ =~= orig.take(i as int) + seq![cv] + orig.skip(i as int));
    }
}

/// The view of one selectable candidate.
pub open spec fn cand_views(v: Seq<PypiCandidate>) -> Seq<(Seq<char>, Seq<char>, int, PypiFormat)> {
    v.map_values(|c: PypiCandidate| (c.pname@, c.version@, c.upload_time as int, c.format))
}

/// The selectable candidates of a whole release listing, in listing order.
pub open spec fn pypi_cand_views(listing: Seq<(String, Vec<PypiRelease>)>) -> Seq<
    (Seq<char>, Seq<char>, int, PypiFormat),
>
    decreases listing.len(),
{
    if listing.len() == 0 {
        Seq::empty()
    } else {
        pypi_cand_views(listing.drop_last()) + (match pick_view(
            listing.last().1@,
            listing.last().0@,
            None,
        ) {
            Some(c) => seq![(c.0, listing.last().0@, c.1, c.2)],
            None => Seq::empty(),
        })
    }
}

/// Collects the selectable candidate of each listed version, in listing
/// order.
pub fn collect_pypi_candidates(listing: &Vec<(String, Vec<PypiRelease>)>) -> (r: Vec<
    PypiCandidate,
>)
    ensures
        cand_views(r@) == pypi_cand_views(listing@),
{
    let ghost all = listing@;
    let mut out: Vec<PypiCandidate> = Vec::new();
    let n = listing.len();
    let mut i: usize = 0;
    proof {
        assert(pypi_cand_views(all.take(0)) =~= Seq::<(Seq<char>, Seq<char>, int, PypiFormat)>::empty());
        assert(cand_views(out@) =~= pypi_cand_views(all.take(0)));
    }
    while i < n
        invariant
            n == listing@.len(),
            all == listing@,
            i <= n,
            cand_views(out@) == pypi_cand_views(all.take(i as int)),
        decreases n - i,
    {
        proof {
            assert(all.take(i + 1).drop_last() =~= all.take(i as int));
            assert(all.take(i + 1).last() == all[i as int]);
        }
        let entry = &listing[i];
        match pick_release(&entry.1, entry.0.as_str()) {
            Some(c) => {
                out.push(c);
                proof {
                    assert(cand_views(out@) =~= pypi_cand_views(all.take(i + 1)));
                }
            },
            None => {
                proof {
                    assert(cand_views(out@) =~= pypi_cand_views(all.take(i + 1)));
                }
            },
        }
        i += 1;
    }
    proof {
        assert(all.take(n as int) =~= all);
    }
    out
}

/// One candidate's completion: the version, hinted with its format.
pub open spec fn pypi_comp(c: PypiCandidate) -> (Seq<char>, Seq<char>) {
    (c.version@ + " ("@ + pypi_format_display(c.format) + ")"@, c.version@)
}

/// Builds the revision model of a package index's release listing: the
/// candidates ordered by upload time, newest first, each selectable under its
/// version and carrying the file's name and format; the newest becomes the
/// default pick.
#[verifier::rlimit(100)]
#[verifier::spinoff_prover]
pub fn pypi_revisions(cands: Vec<PypiCandidate>) -> (r: Revisions)
    ensures
        r.wf(),
        ({
            let sc = time_sorted(cands@);
            &&& pair_views(r.completions@) == sc.map_values(|c: PypiCandidate| pypi_comp(c))
            &&& (forall|i: int|
                0 <= i < sc.len() && (forall|j: int|
                    0 <= j < i ==> #[trigger] sc[j].version@ != sc[i].version@) ==> (
                #[trigger] r.lookup(sc[i].version@) matches Some(Version::Pypi { pname, format })
                    && pname == sc[i].pname && format == sc[i].format))
            &&& (forall|k: Seq<char>|
                #[trigger] r.lookup(k) is Some ==> exists|i: int|
                    0 <= i < sc.len() && #[trigger] sc[i].version@ == k)
            &&& r.latest@ == (if sc.len() > 0 {
                sc[0].version@
            } else {
                Seq::<char>::empty()
            })
        }),
{
    let ghost orig = cands@;
    let mut sorted: Vec<PypiCandidate> = Vec::new();
    let n = cands.len();
    let mut cands = cands;
    proof {
        assert(time_sorted(orig.take(0)) =~= Seq::<PypiCandidate>::empty());
        assert(sorted@ =~= time_sorted(orig.take(0)));
        assert(cands@ =~= orig.skip(0));
    }
    let mut i: usize = 0;
    while i < n
        invariant
            n == orig.len(),
            i <= n,
            cands@ == orig.skip(i as int),
            sorted@ == time_sorted(orig.take(i as int)),
        decreases n - i,
    {
        proof {
            assert(orig.take(i + 1).drop_last() =~= orig.take(i as int));
            assert(orig.take(i + 1).last() == orig[i as int]);
            assert(orig.skip(i as int)[0] == orig[i as int]);
        }
        let c = cands.remove(0);
        proof {
            assert(c == orig[i as int]);
            assert(cands@ =~= orig.skip(i + 1));
        }
        insert_by_time(&mut sorted, c);
        i += 1;
    }
    proof {
        assert(orig.take(n as int) =~= orig);
    }
    let ghost sc = time_sorted(orig);
    let mut r = Revisions::new();
    let m = sorted.len();
    let mut k: usize = 0;
    proof {
        assert(sc.take(0).map_values(|c: PypiCandidate| pypi_comp(c)) =~= Seq::<
            (Seq<char>, Seq<char>),
        >::empty());
        assert(pair_views(r.completions@) =~= sc.take(0).map_values(
            |c: PypiCandidate| pypi_comp(c),
        ));
    }
    while k < m
        invariant
            m == sorted@.len(),
            sc == sorted@,
            sc == time_sorted(orig),
            k <= m,
            r.wf(),
            r.latest@.len() == 0,
            pair_views(r.completions@) == sc.take(k as int).map_values(
                |c: PypiCandidate| pypi_comp(c),
            ),
            forall|i: int|
                0 <= i < k && (forall|j: int|
                    0 <= j < i ==> #[trigger] sc[j].version@ != sc[i].version@) ==> (
                #[trigger] r.lookup(sc[i].version@) matches Some(Version::Pypi { pname, format })
                    && pname == sc[i].pname && format == sc[i].format),
            forall|q: Seq<char>|
                #[trigger] r.lookup(q) is Some ==> exists|i: int|
                    0 <= i < k && #[trigger] sc[i].version@ == q,
        decreases m - k,
    {
        let c = &sorted[k];
        let mut display = c.version.clone();
        display.append(" (");
        let fd = c.format.display();
        display.append(fd.as_str());
        display.append(")");
        let ghost rpre = r;
        r.completions.push(Pair { display, replacement: c.version.clone() });
        let ghost rmid = r;
        r.insert(
            c.version.as_str(),
            Version::Pypi { pname: c.pname.clone(), format: c.format },
        );
        proof {
            assert(sc.take(k + 1).drop_last() =~= sc.take(k as int));
            assert(sc.take(k + 1).last() == sc[k as int]);
            assert(pair_views(r.completions@) =~= sc.take(k + 1).map_values(
                |c: PypiCandidate| pypi_comp(c),
            )) by {
                assert(r.completions@ == rmid.completions@);
                assert(pair_views(rmid.completions@) =~= pair_views(rpre.completions@) + seq![
                    pypi_comp(sc[k as int]),
                ]);
                assert(sc.take(k + 1).map_values(|c: PypiCandidate| pypi_comp(c)) =~= sc.take(
                    k as int,
                ).map_values(|c: PypiCandidate| pypi_comp(c)) + seq![pypi_comp(sc[k as int])]);
            }
            assert forall|i: int|
                0 <= i < k + 1 && (forall|j: int|
                    0 <= j < i ==> #[trigger] sc[j].version@ != sc[i].version@) implies (
            #[trigger] r.lookup(sc[i].version@) matches Some(Version::Pypi { pname, format })
                && pname == sc[i].pname && format == sc[i].format) by {
                if i < k {
                    assert(rpre.lookup(sc[i].version@) matches Some(Version::Pypi { .. }));
                    assert(r.lookup(sc[i].version@) == rpre.lookup(sc[i].version@)) by {
                        if sc[i].version@ == sc[k as int].version@ {
                        }
                    }
                } else {
                    assert(rpre.lookup(sc[k as int].version@) is None) by {
                        if rpre.lookup(sc[k as int].version@) is Some {
                            let w = choose|w: int|
                                0 <= w < k && #[trigger] sc[w].version@ == sc[k as int].version@;
                        }
                    }
                }
            }
            assert forall|q: Seq<char>| #[trigger] r.lookup(q) is Some implies exists|i: int|
                0 <= i < k + 1 && #[trigger] sc[i].version@ == q by {
                if q == sc[k as int].version@ {
                    assert(sc[k as int].version@ == q);
                } else {
                    assert(r.lookup(q) == rpre.lookup(q));
                }
            }
        }
        k += 1;
    }
    proof {
        assert(sc.take(m as int) =~= sc);
        assert(sc.take(m as int).map_values(|c: PypiCandidate| pypi_comp(c)) == sc.map_values(
            |c: PypiCandidate| pypi_comp(c),
        ));
    }
    let ghost rdone = r;
    if sorted.len() > 0 {
        r.latest = sorted[0].version.clone();
    }
    proof {
        assert(r.completions@ == rdone.completions@ && r.versions@ == rdone.versions@);
        assert(forall|q: Seq<char>| r.lookup(q) == rdone.lookup(q));
        if sc.len() > 0 {
            assert(r.latest@ == sc[0].version@);
        } else {
            assert(r.latest@.len() == 0);
            assert(r.latest@ =~= Seq::<char>::empty());
        }
        assert forall|i: int|
            0 <= i < sc.len() && (forall|j: int|
                0 <= j < i ==> #[trigger] sc[j].version@ != sc[i].version@) implies (
        #[trigger] r.lookup(sc[i].version@) matches Some(Version::Pypi { pname, format })
            && pname == sc[i].pname && format == sc[i].format) by {
            assert(r.lookup(sc[i].version@) == rdone.lookup(sc[i].version@));
        }
    }
    r
}

} // verus!
