use vstd::prelude::*;

use crate::text::{lemma_lex_lt_irreflexive, lemma_lex_lt_total, lemma_lex_lt_transitive, lex_lt,
    str_eq, str_lt};

verus! {

// ---------------------------------------------------------------------------
// Ordered, duplicate-free name lists: the backing of every bucket.
// ---------------------------------------------------------------------------

/// The views of a vector of names.
pub open spec fn name_views(v: Seq<String>) -> Seq<Seq<char>> {
    v.map_values(|s: String| s@)
}

/// Strictly ascending in lexicographic order; such a list holds each name at
/// most once.
pub open spec fn ordered(v: Seq<Seq<char>>) -> bool {
    forall|i: int, j: int| 0 <= i < j < v.len() ==> lex_lt(v[i], v[j])
}

/// Membership of a name in a list.
pub open spec fn in_list(v: Seq<Seq<char>>, x: Seq<char>) -> bool {
    exists|i: int| 0 <= i < v.len() && v[i] == x
}

/// Where an insertion into a sorted list leaves it: the name put before the
/// first entry not below it, or nothing changed when the name is already
/// there.
pub open spec fn sorted_insert_view(v: Seq<Seq<char>>, x: Seq<char>) -> Seq<Seq<char>>
    decreases v.len(),
{
    if v.len() == 0 {
        seq![x]
    } else if lex_lt(v[0], x) {
        seq![v[0]] + sorted_insert_view(v.skip(1), x)
    } else if v[0] == x {
        v
    } else {
        seq![x] + v
    }
}

pub proof fn lemma_sorted_insert_membership(v: Seq<Seq<char>>, x: Seq<char>, y: Seq<char>)
    ensures
        in_list(sorted_insert_view(v, x), y) <==> (in_list(v, y) || y == x),
    decreases v.len(),
{
    let r = sorted_insert_view(v, x);
    if v.len() == 0 {
        assert(r == seq![x]);
        assert(in_list(r, y) <==> y == x) by {
            if in_list(r, y) {
                let i = choose|i: int| 0 <= i < r.len() && r[i] == y;
                assert(r[0] == x);
            }
            if y == x {
                assert(r[0] == y);
            }
        }
    } else if lex_lt(v[0], x) {
        lemma_sorted_insert_membership(v.skip(1), x, y);
        let t = sorted_insert_view(v.skip(1), x);
        assert(r == seq![v[0]] + t);
        assert(in_list(r, y) <==> (y == v[0] || in_list(t, y))) by {
            if in_list(r, y) {
                let i = choose|i: int| 0 <= i < r.len() && r[i] == y;
                if i == 0 {
                    assert(r[0] == v[0]);
                } else {
                    assert(r[i] == t[i - 1]);
                }
            }
            if y == v[0] {
                assert(r[0] == y);
            }
            if in_list(t, y) {
                let i = choose|i: int| 0 <= i < t.len() && t[i] == y;
                assert(r[i + 1] == y);
            }
        }
        assert(in_list(v, y) <==> (y == v[0] || in_list(v.skip(1), y))) by {
            if in_list(v, y) {
                let i = choose|i: int| 0 <= i < v.len() && v[i] == y;
                if i > 0 {
                    assert(v.skip(1)[i - 1] == y);
                }
            }
            if in_list(v.skip(1), y) {
                let i = choose|i: int| 0 <= i < v.skip(1).len() && v.skip(1)[i] == y;
                assert(v[i + 1] == y);
            }
            if y == v[0] {
                assert(v[0] == y);
            }
        }
    } else if v[0] == x {
        assert(r == v);
        if y == x {
            assert(v[0] == y);
        }
    } else {
        assert(r == seq![x] + v);
        assert(in_list(r, y) <==> (y == x || in_list(v, y))) by {
            if in_list(r, y) {
                let i = choose|i: int| 0 <= i < r.len() && r[i] == y;
                if i > 0 {
                    assert(v[i - 1] == y);
                }
            }
            if y == x {
                assert(r[0] == y);
            }
            if in_list(v, y) {
                let i = choose|i: int| 0 <= i < v.len() && v[i] == y;
                assert(r[i + 1] == y);
            }
        }
    }
}

pub proof fn lemma_sorted_insert_ordered(v: Seq<Seq<char>>, x: Seq<char>)
    requires
        ordered(v),
    ensures
        ordered(sorted_insert_view(v, x)),
    decreases v.len(),
{
    let r = sorted_insert_view(v, x);
    if v.len() == 0 {
    } else if lex_lt(v[0], x) {
        assert(ordered(v.skip(1))) by {
            assert(forall|i: int, j: int|
                0 <= i < j < v.skip(1).len() ==> v.skip(1)[i] == v[i + 1] && v.skip(1)[j] == v[j
                    + 1]);
        }
        lemma_sorted_insert_ordered(v.skip(1), x);
        let t = sorted_insert_view(v.skip(1), x);
        assert(r == seq![v[0]] + t);
        assert forall|i: int, j: int| 0 <= i < j < r.len() implies lex_lt(r[i], r[j]) by {
            if i == 0 {
                assert(r[0] == v[0]);
                assert(r[j] == t[j - 1]);
                lemma_sorted_insert_membership(v.skip(1), x, t[j - 1]);
                if t[j - 1] == x {
                    assert(lex_lt(v[0], x));
                } else {
                    let k = choose|k: int| 0 <= k < v.skip(1).len() && v.skip(1)[k] == t[j - 1];
                    assert(v[k + 1] == t[j - 1]);
                    assert(lex_lt(v[0], v[k + 1]));
                }
            } else {
                assert(r[i] == t[i - 1] && r[j] == t[j - 1]);
            }
        }
    } else if v[0] == x {
    } else {
        lemma_lex_lt_total(v[0], x);
        assert(lex_lt(x, v[0]));
        assert(r == seq![x] + v);
        assert forall|i: int, j: int| 0 <= i < j < r.len() implies lex_lt(r[i], r[j]) by {
            if i == 0 {
                assert(r[0] == x);
                assert(r[j] == v[j - 1]);
                if j - 1 > 0 {
                    assert(lex_lt(v[0], v[j - 1]));
                    lemma_lex_lt_transitive(x, v[0], v[j - 1]);
                }
            } else {
                assert(r[i] == v[i - 1] && r[j] == v[j - 1]);
            }
        }
    }
}

/// Filing a name a sorted list already holds changes nothing: the second of
/// two equal insertions — a module-sum line repeated for its lock entry, say
/// — adds nothing.
pub proof fn lemma_sorted_insert_idempotent(v: Seq<Seq<char>>, x: Seq<char>)
    requires
        ordered(v),
    ensures
        sorted_insert_view(sorted_insert_view(v, x), x) == sorted_insert_view(v, x),
{
    let once = sorted_insert_view(v, x);
    lemma_sorted_insert_ordered(v, x);
    lemma_sorted_insert_ordered(once, x);
    assert forall|y: Seq<char>|
        in_list(sorted_insert_view(once, x), y) <==> in_list(once, y) by {
        lemma_sorted_insert_membership(once, x, y);
        lemma_sorted_insert_membership(v, x, y);
    }
    lemma_ordered_unique(sorted_insert_view(once, x), once);
}

/// Two ordered lists with the same members are the same list.
pub proof fn lemma_ordered_unique(a: Seq<Seq<char>>, b: Seq<Seq<char>>)
    requires
        ordered(a),
        ordered(b),
        forall|x: Seq<char>| in_list(a, x) <==> in_list(b, x),
    ensures
        a == b,
    decreases a.len(),
{
    if a.len() == 0 {
        if b.len() > 0 {
            assert(in_list(b, b[0]));
            assert(in_list(a, b[0]));
        }
        assert(a =~= b);
    } else {
        assert(in_list(b, a[0])) by {
            assert(in_list(a, a[0]));
        }
        assert(in_list(a, b[0])) by {
            assert(in_list(b, b[0]));
        }
        let i = choose|i: int| 0 <= i < b.len() && b[i] == a[0];
        let j = choose|j: int| 0 <= j < a.len() && a[j] == b[0];
        if i > 0 {
            assert(lex_lt(b[0], b[i]));
            if j > 0 {
                assert(lex_lt(a[0], a[j]));
                lemma_lex_lt_transitive(a[0], b[0], a[0]);
                lemma_lex_lt_irreflexive(a[0]);
            } else {
                lemma_lex_lt_irreflexive(b[0]);
            }
        }
        assert(a[0] == b[0]);
        assert(ordered(a.skip(1)) && ordered(b.skip(1))) by {
            assert(forall|p: int, q: int|
                0 <= p < q < a.skip(1).len() ==> a.skip(1)[p] == a[p + 1] && a.skip(1)[q] == a[q
                    + 1]);
            assert(forall|p: int, q: int|
                0 <= p < q < b.skip(1).len() ==> b.skip(1)[p] == b[p + 1] && b.skip(1)[q] == b[q
                    + 1]);
        }
        assert forall|x: Seq<char>| in_list(a.skip(1), x) <==> in_list(b.skip(1), x) by {
            lemma_ordered_tail_membership(a, x);
            lemma_ordered_tail_membership(b, x);
        }
        lemma_ordered_unique(a.skip(1), b.skip(1));
        assert(a =~= b) by {
            assert(forall|p: int| 1 <= p < a.len() ==> a[p] == a.skip(1)[p - 1]);
            assert(forall|p: int| 1 <= p < b.len() ==> b[p] == b.skip(1)[p - 1]);
        }
    }
}

/// In an ordered list a name sits in the tail exactly when it is a member
/// other than the head.
pub proof fn lemma_ordered_tail_membership(a: Seq<Seq<char>>, x: Seq<char>)
    requires
        ordered(a),
        a.len() > 0,
    ensures
        in_list(a.skip(1), x) <==> (in_list(a, x) && x != a[0]),
{
    if in_list(a.skip(1), x) {
        let i = choose|i: int| 0 <= i < a.skip(1).len() && a.skip(1)[i] == x;
        assert(a[i + 1] == x);
        assert(lex_lt(a[0], a[i + 1]));
        if x == a[0] {
            lemma_lex_lt_irreflexive(a[0]);
        }
    }
    if in_list(a, x) && x != a[0] {
        let i = choose|i: int| 0 <= i < a.len() && a[i] == x;
        assert(i > 0);
        assert(a.skip(1)[i - 1] == x);
    }
}

/// A scan that ran past every entry below `x` without finding `x` rules its
/// membership out.
proof fn lemma_scan_not_member(v: Seq<Seq<char>>, x: Seq<char>, i: int)
    requires
        ordered(v),
        0 <= i <= v.len(),
        forall|j: int| 0 <= j < i ==> lex_lt(v[j], x),
        i < v.len() ==> !lex_lt(v[i], x) && v[i] != x,
    ensures
        !in_list(v, x),
{
    assert forall|j: int| 0 <= j < v.len() implies v[j] != x by {
        if j < i {
            lemma_lex_lt_irreflexive(x);
        } else if j == i {
        } else {
            lemma_lex_lt_total(v[i as int], x);
            assert(lex_lt(x, v[i as int]));
            assert(lex_lt(v[i as int], v[j]));
            lemma_lex_lt_transitive(x, v[i as int], v[j]);
            lemma_lex_lt_irreflexive(x);
        }
    }
}

/// Puts a name into a sorted duplicate-free list, keeping it sorted; putting
/// in a name already there changes nothing.  Reports whether the name was
/// new.
pub fn sorted_insert(v: &mut Vec<String>, name: &str) -> (added: bool)
    requires
        ordered(name_views(old(v)@)),
    ensures
        name_views(final(v)@) == sorted_insert_view(name_views(old(v)@), name@),
        ordered(name_views(final(v)@)),
        added == !in_list(name_views(old(v)@), name@),
{
    proof {
        lemma_sorted_insert_ordered(name_views(v@), name@);
    }
    let ghost orig = name_views(v@);
    let len = v.len();
    let mut i: usize = 0;
    while i < len && str_lt(v[i].as_str(), name)
        invariant
            len == v@.len(),
            i <= len,
            orig == name_views(v@),
            ordered(orig),
            forall|j: int| 0 <= j < i ==> lex_lt(orig[j], name@),
        decreases len - i,
    {
        i += 1;
    }
    proof {
        lemma_sorted_insert_position(orig, name@, i as int);
    }
    if i < len && str_eq(v[i].as_str(), name) {
        assert(in_list(orig, name@));
        return false;
    }
    proof {
        lemma_scan_not_member(orig, name@, i as int);
    }
    let owned = name.to_owned();
    v.insert(i, owned);
    proof {
        assert(name_views(v@) =~= orig.take(i as int) + seq![name@] + orig.skip(i as int));
    }
    true
}

/// Where the scan of `sorted_insert` stops, the spec insertion acts.
proof fn lemma_sorted_insert_position(v: Seq<Seq<char>>, x: Seq<char>, i: int)
    requires
        ordered(v),
        0 <= i <= v.len(),
        forall|j: int| 0 <= j < i ==> lex_lt(v[j], x),
        i < v.len() ==> !lex_lt(v[i], x),
    ensures
        i < v.len() && v[i] == x ==> sorted_insert_view(v, x) == v,
        !(i < v.len() && v[i] == x) ==> sorted_insert_view(v, x) =~= v.take(i) + seq![x] + v.skip(
            i,
        ),
    decreases i,
{
    if i == 0 {
        if v.len() == 0 {
            assert(sorted_insert_view(v, x) =~= v.take(0) + seq![x] + v.skip(0));
        } else if !lex_lt(v[0], x) {
            if v[0] == x {
            } else {
                assert(sorted_insert_view(v, x) == seq![x] + v);
                assert(sorted_insert_view(v, x) =~= v.take(0) + seq![x] + v.skip(0));
            }
        }
    } else {
        assert(lex_lt(v[0], x));
        assert(ordered(v.skip(1))) by {
            assert(forall|p: int, q: int|
                0 <= p < q < v.skip(1).len() ==> v.skip(1)[p] == v[p + 1] && v.skip(1)[q] == v[q
                    + 1]);
        }
        assert(forall|j: int| 0 <= j < i - 1 ==> v.skip(1)[j] == v[j + 1]);
        if i < v.len() {
            assert(v.skip(1)[i - 1] == v[i]);
        }
        lemma_sorted_insert_position(v.skip(1), x, i - 1);
        assert(sorted_insert_view(v, x) == seq![v[0]] + sorted_insert_view(v.skip(1), x));
        if i < v.len() && v[i] == x {
            assert(sorted_insert_view(v.skip(1), x) == v.skip(1));
            assert(sorted_insert_view(v, x) =~= v);
        } else {
            assert(sorted_insert_view(v.skip(1), x) =~= v.skip(1).take(i - 1) + seq![x] + v.skip(
                1,
            ).skip(i - 1));
            assert(v.skip(1).take(i - 1) =~= v.take(i).skip(1));
            assert(v.skip(1).skip(i - 1) =~= v.skip(i));
            assert(sorted_insert_view(v, x) =~= v.take(i) + seq![x] + v.skip(i));
        }
    }
}

/// Where removing a name leaves a sorted list: the first entry equal to it
/// taken out, nothing changed when it is absent.
pub open spec fn sorted_remove_view(v: Seq<Seq<char>>, x: Seq<char>) -> Seq<Seq<char>>
    decreases v.len(),
{
    if v.len() == 0 {
        v
    } else if v[0] == x {
        v.skip(1)
    } else {
        seq![v[0]] + sorted_remove_view(v.skip(1), x)
    }
}

pub proof fn lemma_sorted_remove_ordered(v: Seq<Seq<char>>, x: Seq<char>)
    requires
        ordered(v),
    ensures
        ordered(sorted_remove_view(v, x)),
        forall|y: Seq<char>|
            in_list(sorted_remove_view(v, x), y) <==> (in_list(v, y) && y != x),
    decreases v.len(),
{
    let r = sorted_remove_view(v, x);
    if v.len() == 0 {
    } else if v[0] == x {
        lemma_ordered_tail_membership(v, x);
        assert(ordered(v.skip(1))) by {
            assert(forall|p: int, q: int|
                0 <= p < q < v.skip(1).len() ==> v.skip(1)[p] == v[p + 1] && v.skip(1)[q] == v[q
                    + 1]);
        }
        assert forall|y: Seq<char>| in_list(r, y) <==> (in_list(v, y) && y != x) by {
            lemma_ordered_tail_membership(v, y);
        }
    } else {
        assert(ordered(v.skip(1))) by {
            assert(forall|p: int, q: int|
                0 <= p < q < v.skip(1).len() ==> v.skip(1)[p] == v[p + 1] && v.skip(1)[q] == v[q
                    + 1]);
        }
        lemma_sorted_remove_ordered(v.skip(1), x);
        let t = sorted_remove_view(v.skip(1), x);
        assert(r == seq![v[0]] + t);
        assert forall|y: Seq<char>| in_list(r, y) <==> (in_list(v, y) && y != x) by {
            assert(in_list(r, y) <==> (y == v[0] || in_list(t, y))) by {
                if in_list(r, y) {
                    let i = choose|i: int| 0 <= i < r.len() && r[i] == y;
                    if i > 0 {
                        assert(t[i - 1] == y);
                    }
                }
                if y == v[0] {
                    assert(r[0] == y);
                }
                if in_list(t, y) {
                    let i = choose|i: int| 0 <= i < t.len() && t[i] == y;
                    assert(r[i + 1] == y);
                }
            }
            lemma_ordered_tail_membership(v, y);
        }
        assert forall|p: int, q: int| 0 <= p < q < r.len() implies lex_lt(r[p], r[q]) by {
            if p == 0 {
                assert(r[0] == v[0]);
                assert(r[q] == t[q - 1]);
                assert(in_list(t, t[q - 1])) by {
                    assert(t[q - 1] == t[q - 1]);
                }
                assert(in_list(v.skip(1), t[q - 1]));
                let w = choose|w: int| 0 <= w < v.skip(1).len() && v.skip(1)[w] == t[q - 1];
                assert(v[w + 1] == t[q - 1]);
                assert(lex_lt(v[0], v[w + 1]));
            } else {
                assert(r[p] == t[p - 1] && r[q] == t[q - 1]);
            }
        }
    }
}

/// Where the exec scan stops, the spec removal acts.
proof fn lemma_sorted_remove_at(v: Seq<Seq<char>>, x: Seq<char>, i: int)
    requires
        ordered(v),
        0 <= i <= v.len(),
        forall|j: int| 0 <= j < i ==> lex_lt(v[j], x),
        i < v.len() ==> !lex_lt(v[i], x),
    ensures
        i < v.len() && v[i] == x ==> sorted_remove_view(v, x) =~= v.take(i) + v.skip(i + 1),
        !(i < v.len() && v[i] == x) ==> sorted_remove_view(v, x) == v,
    decreases i,
{
    if i == 0 {
        if v.len() > 0 && v[0] != x {
            lemma_scan_not_member(v, x, 0);
            lemma_sorted_remove_absent(v, x);
        } else if v.len() > 0 {
            assert(sorted_remove_view(v, x) =~= v.take(0) + v.skip(1));
        }
    } else {
        assert(lex_lt(v[0], x));
        assert(v[0] != x) by {
            lemma_lex_lt_irreflexive(x);
        }
        assert(ordered(v.skip(1))) by {
            assert(forall|p: int, q: int|
                0 <= p < q < v.skip(1).len() ==> v.skip(1)[p] == v[p + 1] && v.skip(1)[q] == v[q
                    + 1]);
        }
        assert(forall|j: int| 0 <= j < i - 1 ==> v.skip(1)[j] == v[j + 1]);
        if i < v.len() {
            assert(v.skip(1)[i - 1] == v[i]);
        }
        lemma_sorted_remove_at(v.skip(1), x, i - 1);
        assert(sorted_remove_view(v, x) == seq![v[0]] + sorted_remove_view(v.skip(1), x));
        if i < v.len() && v[i] == x {
            assert(sorted_remove_view(v.skip(1), x) =~= v.skip(1).take(i - 1) + v.skip(1).skip(
                i,
            ));
            assert(v.skip(1).take(i - 1) =~= v.take(i).skip(1));
            assert(v.skip(1).skip(i) =~= v.skip(i + 1));
            assert(sorted_remove_view(v, x) =~= v.take(i) + v.skip(i + 1));
        } else {
            assert(sorted_remove_view(v.skip(1), x) == v.skip(1));
            assert(seq![v[0]] + v.skip(1) =~= v);
        }
    }
}

/// Removing an absent name changes nothing.
pub proof fn lemma_sorted_remove_absent(v: Seq<Seq<char>>, x: Seq<char>)
    requires
        !in_list(v, x),
    ensures
        sorted_remove_view(v, x) == v,
    decreases v.len(),
{
    if v.len() > 0 {
        assert(v[0] != x);
        assert(!in_list(v.skip(1), x)) by {
            if in_list(v.skip(1), x) {
                let i = choose|i: int| 0 <= i < v.skip(1).len() && v.skip(1)[i] == x;
                assert(v[i + 1] == x);
            }
        }
        lemma_sorted_remove_absent(v.skip(1), x);
        assert(seq![v[0]] + v.skip(1) =~= v);
    }
}

/// Takes a name out of a sorted duplicate-free list, if it is there;
/// reports whether it was.
pub fn sorted_remove(v: &mut Vec<String>, name: &str) -> (removed: bool)
    requires
        ordered(name_views(old(v)@)),
    ensures
        ordered(name_views(final(v)@)),
        name_views(final(v)@) == sorted_remove_view(name_views(old(v)@), name@),
        removed == in_list(name_views(old(v)@), name@),
{
    proof {
        lemma_sorted_remove_ordered(name_views(v@), name@);
    }
    let ghost orig = name_views(v@);
    let len = v.len();
    let mut i: usize = 0;
    while i < len && str_lt(v[i].as_str(), name)
        invariant
            len == v@.len(),
            i <= len,
            orig == name_views(v@),
            ordered(orig),
            forall|j: int| 0 <= j < i ==> lex_lt(orig[j], name@),
        decreases len - i,
    {
        i += 1;
    }
    proof {
        lemma_sorted_remove_at(orig, name@, i as int);
    }
    if i < len && str_eq(v[i].as_str(), name) {
        let _ = v.remove(i);
        proof {
            assert(name_views(v@) =~= orig.take(i as int) + orig.skip(i + 1));
            assert(in_list(orig, name@)) by {
                assert(orig[i as int] == name@);
            }
        }
        true
    } else {
        proof {
            lemma_scan_not_member(orig, name@, i as int);
        }
        false
    }
}

// ---------------------------------------------------------------------------
// The bucketed, deduplicating collectors of build inputs.
// ---------------------------------------------------------------------------

/// One platform-conditioned subset of a build-input set.
#[derive(Clone, Copy, PartialEq, Eq, Structural)]
pub enum Bucket {
    Always,
    Darwin,
    Aarch64Darwin,
    X8664Darwin,
    Linux,
    Aarch64Linux,
    X8664Linux,
}

/// Seven disjointly emitted buckets of input names; insertion keeps each
/// bucket sorted and free of repeats.
pub struct Inputs {
    pub always: Vec<String>,
    pub darwin: Vec<String>,
    pub aarch64_darwin: Vec<String>,
    pub x86_64_darwin: Vec<String>,
    pub linux: Vec<String>,
    pub aarch64_linux: Vec<String>,
    pub x86_64_linux: Vec<String>,
}

/// An environment variable a dependency mapping injects into the manifest,
/// with the input names its value mentions.
pub struct EnvVar {
    pub name: String,
    pub value: String,
    pub tags: Vec<String>,
}

/// Everything the dependency mappers collect for one manifest: the two input
/// sets and the injected environment.
pub struct AllInputs {
    pub native_build_inputs: Inputs,
    pub build_inputs: Inputs,
    pub env: Vec<EnvVar>,
}

impl Inputs {
    /// Every bucket sorted and duplicate-free.
    pub open spec fn wf(&self) -> bool {
        &&& ordered(name_views(self.always@))
        &&& ordered(name_views(self.darwin@))
        &&& ordered(name_views(self.aarch64_darwin@))
        &&& ordered(name_views(self.x86_64_darwin@))
        &&& ordered(name_views(self.linux@))
        &&& ordered(name_views(self.aarch64_linux@))
        &&& ordered(name_views(self.x86_64_linux@))
    }

    /// The views of the names in one bucket.
    pub open spec fn bucket_view(&self, b: Bucket) -> Seq<Seq<char>> {
        match b {
            Bucket::Always => name_views(self.always@),
            Bucket::Darwin => name_views(self.darwin@),
            Bucket::Aarch64Darwin => name_views(self.aarch64_darwin@),
            Bucket::X8664Darwin => name_views(self.x86_64_darwin@),
            Bucket::Linux => name_views(self.linux@),
            Bucket::Aarch64Linux => name_views(self.aarch64_linux@),
            Bucket::X8664Linux => name_views(self.x86_64_linux@),
        }
    }

    pub fn new() -> (r: Inputs)
        ensures
            r.wf(),
            forall|b: Bucket| r.bucket_view(b).len() == 0,
    {
        Inputs {
            always: Vec::new(),
            darwin: Vec::new(),
            aarch64_darwin: Vec::new(),
            x86_64_darwin: Vec::new(),
            linux: Vec::new(),
            aarch64_linux: Vec::new(),
            x86_64_linux: Vec::new(),
        }
    }

    /// Takes a name out of a bucket, if it is there; reports whether it
    /// was.
    pub fn remove(&mut self, b: Bucket, name: &str) -> (removed: bool)
        requires
            old(self).wf(),
        ensures
            final(self).wf(),
            final(self).bucket_view(b) == sorted_remove_view(old(self).bucket_view(b), name@),
            forall|c: Bucket| c != b ==> final(self).bucket_view(c) == old(self).bucket_view(c),
            removed == in_list(old(self).bucket_view(b), name@),
    {
        match b {
            Bucket::Always => sorted_remove(&mut self.always, name),
            Bucket::Darwin => sorted_remove(&mut self.darwin, name),
            Bucket::Aarch64Darwin => sorted_remove(&mut self.aarch64_darwin, name),
            Bucket::X8664Darwin => sorted_remove(&mut self.x86_64_darwin, name),
            Bucket::Linux => sorted_remove(&mut self.linux, name),
            Bucket::Aarch64Linux => sorted_remove(&mut self.aarch64_linux, name),
            Bucket::X8664Linux => sorted_remove(&mut self.x86_64_linux, name),
        }
    }

    /// Whether a bucket holds a name.
    pub fn contains(&self, b: Bucket, name: &str) -> (r: bool)
        requires
            self.wf(),
        ensures
            r == in_list(self.bucket_view(b), name@),
    {
        let v = match b {
            Bucket::Always => &self.always,
            Bucket::Darwin => &self.darwin,
            Bucket::Aarch64Darwin => &self.aarch64_darwin,
            Bucket::X8664Darwin => &self.x86_64_darwin,
            Bucket::Linux => &self.linux,
            Bucket::Aarch64Linux => &self.aarch64_linux,
            Bucket::X8664Linux => &self.x86_64_linux,
        };
        let n = v.len();
        let mut i: usize = 0;
        while i < n
            invariant
                n == v@.len(),
                i <= n,
                v@ == (match b {
                    Bucket::Always => self.always@,
                    Bucket::Darwin => self.darwin@,
                    Bucket::Aarch64Darwin => self.aarch64_darwin@,
                    Bucket::X8664Darwin => self.x86_64_darwin@,
                    Bucket::Linux => self.linux@,
                    Bucket::Aarch64Linux => self.aarch64_linux@,
                    Bucket::X8664Linux => self.x86_64_linux@,
                }),
                forall|j: int| 0 <= j < i ==> name_views(v@)[j] != name@,
            decreases n - i,
        {
            if str_eq(v[i].as_str(), name) {
                proof {
                    assert(name_views(v@)[i as int] == name@);
                }
                return true;
            }
            i += 1;
        }
        proof {
            if in_list(self.bucket_view(b), name@) {
                let j = choose|j: int|
                    0 <= j < self.bucket_view(b).len() && self.bucket_view(b)[j] == name@;
            }
        }
        false
    }

    /// The one mutator: files a name under a bucket, idempotently.
    pub fn insert(&mut self, b: Bucket, name: &str)
        requires
            old(self).wf(),
        ensures
            final(self).wf(),
            final(self).bucket_view(b) == sorted_insert_view(old(self).bucket_view(b), name@),
            forall|c: Bucket| c != b ==> final(self).bucket_view(c) == old(self).bucket_view(c),
    {
        match b {
            Bucket::Always => {
                sorted_insert(&mut self.always, name);
            },
            Bucket::Darwin => {
                sorted_insert(&mut self.darwin, name);
            },
            Bucket::Aarch64Darwin => {
                sorted_insert(&mut self.aarch64_darwin, name);
            },
            Bucket::X8664Darwin => {
                sorted_insert(&mut self.x86_64_darwin, name);
            },
            Bucket::Linux => {
                sorted_insert(&mut self.linux, name);
            },
            Bucket::Aarch64Linux => {
                sorted_insert(&mut self.aarch64_linux, name);
            },
            Bucket::X8664Linux => {
                sorted_insert(&mut self.x86_64_linux, name);
            },
        }
    }
}

impl Default for Inputs {
    fn default() -> (r: Inputs)
        ensures
            r.wf(),
            forall|b: Bucket| r.bucket_view(b).len() == 0,
    {
        Inputs::new()
    }
}

/// The views of an environment list's names.
pub open spec fn env_names(v: Seq<EnvVar>) -> Seq<Seq<char>> {
    v.map_values(|e: EnvVar| e.name@)
}

/// Replaces the value under a name, or files a new entry in name order, as an
/// ordered map does.
pub fn env_insert(v: &mut Vec<EnvVar>, entry: EnvVar)
    requires
        ordered(env_names(old(v)@)),
    ensures
        ordered(env_names(final(v)@)),
        in_list(env_names(final(v)@), entry.name@),
        forall|x: Seq<char>|
            in_list(env_names(final(v)@), x) <==> (in_list(env_names(old(v)@), x) || x
                == entry.name@),
        forall|i: int|
            0 <= i < final(v)@.len() && final(v)@[i].name@ != entry.name@ ==> exists|j: int|
                0 <= j < old(v)@.len() && final(v)@[i] == old(v)@[j],
        exists|i: int| 0 <= i < final(v)@.len() && final(v)@[i] == entry,
{
    let ghost orig = env_names(v@);
    let len = v.len();
    let mut i: usize = 0;
    while i < len && str_lt(v[i].name.as_str(), entry.name.as_str())
        invariant
            len == v@.len(),
            i <= len,
            orig == env_names(v@),
            ordered(orig),
            forall|j: int| 0 <= j < i ==> lex_lt(orig[j], entry.name@),
        decreases len - i,
    {
        i += 1;
    }
    if i < len && str_eq(v[i].name.as_str(), entry.name.as_str()) {
        let ghost before = v@;
        v.set(i, entry);
        proof {
            assert(env_names(v@) =~= orig);
            assert forall|x: Seq<char>|
                in_list(env_names(v@), x) <==> (in_list(orig, x) || x == entry.name@) by {
                if x == entry.name@ {
                    assert(env_names(v@)[i as int] == x);
                }
            }
            assert forall|k: int|
                0 <= k < v@.len() && v@[k].name@ != entry.name@ implies exists|j: int|
                0 <= j < before.len() && v@[k] == before[j] by {
                assert(v@[k] == before[k]);
            }
            assert(v@[i as int] == entry);
        }
    } else {
        let ghost before = v@;
        v.insert(i, entry);
        proof {
            assert(env_names(v@) =~= orig.take(i as int) + seq![entry.name@] + orig.skip(i as int));
            lemma_scan_not_member(orig, entry.name@, i as int);
            lemma_sorted_insert_position(orig, entry.name@, i as int);
            lemma_sorted_insert_ordered(orig, entry.name@);
            assert(env_names(v@) =~= sorted_insert_view(orig, entry.name@));
            assert forall|x: Seq<char>|
                in_list(env_names(v@), x) <==> (in_list(orig, x) || x == entry.name@) by {
                lemma_sorted_insert_membership(orig, entry.name@, x);
            }
            assert(in_list(env_names(v@), entry.name@)) by {
                assert(env_names(v@)[i as int] == entry.name@);
            }
            assert forall|k: int|
                0 <= k < v@.len() && v@[k].name@ != entry.name@ implies exists|j: int|
                0 <= j < before.len() && v@[k] == before[j] by {
                if k < i {
                    assert(v@[k] == before[k]);
                } else if k > i {
                    assert(v@[k] == before[k - 1]);
                }
            }
            assert(v@[i as int] == entry);
        }
    }
}

impl AllInputs {
    pub open spec fn wf(&self) -> bool {
        &&& self.native_build_inputs.wf()
        &&& self.build_inputs.wf()
        &&& ordered(env_names(self.env@))
    }

    pub fn new() -> (r: AllInputs)
        ensures
            r.wf(),
            forall|b: Bucket| r.native_build_inputs.bucket_view(b).len() == 0,
            forall|b: Bucket| r.build_inputs.bucket_view(b).len() == 0,
            r.env@.len() == 0,
    {
        AllInputs { native_build_inputs: Inputs::new(), build_inputs: Inputs::new(), env: Vec::new() }
    }

    /// Files a name among the native build inputs, under `always`.
    pub fn native(&mut self, name: &str)
        requires
            old(self).wf(),
        ensures
            final(self).wf(),
            final(self).native_build_inputs.bucket_view(Bucket::Always) == sorted_insert_view(
                old(self).native_build_inputs.bucket_view(Bucket::Always),
                name@,
            ),
            forall|b: Bucket|
                b != Bucket::Always ==> final(self).native_build_inputs.bucket_view(b) == old(
                    self,
                ).native_build_inputs.bucket_view(b),
            final(self).build_inputs == old(self).build_inputs,
            final(self).env == old(self).env,
    {
        self.native_build_inputs.insert(Bucket::Always, name);
    }

    /// Files a name among the native build inputs, under the given bucket.
    pub fn native_on(&mut self, b: Bucket, name: &str)
        requires
            old(self).wf(),
        ensures
            final(self).wf(),
            final(self).native_build_inputs.bucket_view(b) == sorted_insert_view(
                old(self).native_build_inputs.bucket_view(b),
                name@,
            ),
            forall|c: Bucket|
                c != b ==> final(self).native_build_inputs.bucket_view(c) == old(
                    self,
                ).native_build_inputs.bucket_view(c),
            final(self).build_inputs == old(self).build_inputs,
            final(self).env == old(self).env,
    {
        self.native_build_inputs.insert(b, name);
    }

    /// Files a name among the build inputs, under `always`.
    pub fn build(&mut self, name: &str)
        requires
            old(self).wf(),
        ensures
            final(self).wf(),
            final(self).build_inputs.bucket_view(Bucket::Always) == sorted_insert_view(
                old(self).build_inputs.bucket_view(Bucket::Always),
                name@,
            ),
            forall|b: Bucket|
                b != Bucket::Always ==> final(self).build_inputs.bucket_view(b) == old(
                    self,
                ).build_inputs.bucket_view(b),
            final(self).native_build_inputs == old(self).native_build_inputs,
            final(self).env == old(self).env,
    {
        self.build_inputs.insert(Bucket::Always, name);
    }

    /// Files a name among the build inputs, under the given bucket.
    pub fn build_on(&mut self, b: Bucket, name: &str)
        requires
            old(self).wf(),
        ensures
            final(self).wf(),
            final(self).build_inputs.bucket_view(b) == sorted_insert_view(
                old(self).build_inputs.bucket_view(b),
                name@,
            ),
            forall|c: Bucket|
                c != b ==> final(self).build_inputs.bucket_view(c) == old(
                    self,
                ).build_inputs.bucket_view(c),
            final(self).native_build_inputs == old(self).native_build_inputs,
            final(self).env == old(self).env,
    {
        self.build_inputs.insert(b, name);
    }

    /// Files an Apple framework under the darwin build inputs.
    pub fn framework(&mut self, name: &str)
        requires
            old(self).wf(),
        ensures
            final(self).wf(),
            final(self).build_inputs.bucket_view(Bucket::Darwin) == sorted_insert_view(
                old(self).build_inputs.bucket_view(Bucket::Darwin),
                "darwin.apple_sdk.frameworks."@ + name@,
            ),
            forall|c: Bucket|
                c != Bucket::Darwin ==> final(self).build_inputs.bucket_view(c) == old(
                    self,
                ).build_inputs.bucket_view(c),
            final(self).native_build_inputs == old(self).native_build_inputs,
            final(self).env == old(self).env,
    {
        let mut full = String::new();
        full.append("darwin.apple_sdk.frameworks.");
        full.append(name);
        self.build_inputs.insert(Bucket::Darwin, full.as_str());
    }

    /// Files a gstreamer library under the always build inputs.
    pub fn gst(&mut self, name: &str)
        requires
            old(self).wf(),
        ensures
            final(self).wf(),
            final(self).build_inputs.bucket_view(Bucket::Always) == sorted_insert_view(
                old(self).build_inputs.bucket_view(Bucket::Always),
                "gst_all_1."@ + name@,
            ),
            forall|c: Bucket|
                c != Bucket::Always ==> final(self).build_inputs.bucket_view(c) == old(
                    self,
                ).build_inputs.bucket_view(c),
            final(self).native_build_inputs == old(self).native_build_inputs,
            final(self).env == old(self).env,
    {
        let mut full = String::new();
        full.append("gst_all_1.");
        full.append(name);
        self.build_inputs.insert(Bucket::Always, full.as_str());
    }

    /// Injects an environment variable; a later value for one name wins.
    pub fn env_var(&mut self, name: &str, value: &str, tags: Vec<String>)
        requires
            old(self).wf(),
        ensures
            final(self).wf(),
            final(self).native_build_inputs == old(self).native_build_inputs,
            final(self).build_inputs == old(self).build_inputs,
            in_list(env_names(final(self).env@), name@),
            forall|x: Seq<char>|
                in_list(env_names(final(self).env@), x) <==> (in_list(
                    env_names(old(self).env@),
                    x,
                ) || x == name@),
            exists|i: int|
                #![trigger final(self).env@[i]]
                0 <= i < final(self).env@.len() && final(self).env@[i].name@ == name@
                    && final(self).env@[i].value@ == value@,
            forall|i: int|
                0 <= i < final(self).env@.len() && #[trigger] final(self).env@[i].name@ != name@
                    ==> exists|j: int|
                    0 <= j < old(self).env@.len() && final(self).env@[i] == old(self).env@[j],
    {
        let entry = EnvVar { name: name.to_owned(), value: value.to_owned(), tags };
        let ghost e = entry;
        env_insert(&mut self.env, entry);
        proof {
            let i = choose|i: int| 0 <= i < self.env@.len() && self.env@[i] == e;
            assert(self.env@[i].name@ == name@ && self.env@[i].value@ == value@);
        }
    }
}

impl Default for AllInputs {
    fn default() -> (r: AllInputs)
        ensures
            r.wf(),
            forall|b: Bucket| r.native_build_inputs.bucket_view(b).len() == 0,
            forall|b: Bucket| r.build_inputs.bucket_view(b).len() == 0,
            r.env@.len() == 0,
    {
        AllInputs::new()
    }
}

/// One name filed into one bucket of a set; the other buckets stand.
pub open spec fn added1(o: Inputs, n: Inputs, b: Bucket, x: Seq<char>) -> bool {
    &&& n.bucket_view(b) == sorted_insert_view(o.bucket_view(b), x)
    &&& (forall|c: Bucket| c != b ==> n.bucket_view(c) == o.bucket_view(c))
}

/// Two names filed in order; the untouched buckets stand.
pub open spec fn added2(o: Inputs, n: Inputs, b1: Bucket, x1: Seq<char>, b2: Bucket, x2: Seq<char>)
    -> bool {
    if b1 == b2 {
        &&& n.bucket_view(b1) == sorted_insert_view(sorted_insert_view(o.bucket_view(b1), x1), x2)
        &&& (forall|c: Bucket| c != b1 ==> n.bucket_view(c) == o.bucket_view(c))
    } else {
        &&& n.bucket_view(b1) == sorted_insert_view(o.bucket_view(b1), x1)
        &&& n.bucket_view(b2) == sorted_insert_view(o.bucket_view(b2), x2)
        &&& (forall|c: Bucket| c != b1 && c != b2 ==> n.bucket_view(c) == o.bucket_view(c))
    }
}

/// Three names filed into the unconditional bucket.
pub open spec fn added3(o: Inputs, n: Inputs, x1: Seq<char>, x2: Seq<char>, x3: Seq<char>)
    -> bool {
    &&& n.bucket_view(Bucket::Always) == sorted_insert_view(
        sorted_insert_view(sorted_insert_view(o.bucket_view(Bucket::Always), x1), x2),
        x3,
    )
    &&& (forall|c: Bucket| c != Bucket::Always ==> n.bucket_view(c) == o.bucket_view(c))
}

/// What the environment gains from one injected variable: an entry with
/// this name and value, and no other name.
pub open spec fn env_gains(o: Seq<EnvVar>, n: Seq<EnvVar>, k: Seq<char>, v: Seq<char>) -> bool {
    &&& (exists|i: int| 0 <= i < n.len() && #[trigger] n[i].name@ == k && n[i].value@ == v)
    &&& (forall|x: Seq<char>|
        in_list(env_names(n), x) <==> in_list(env_names(o), x) || x == k)
}

/// An entry another insertion did not touch keeps its value: with the keys
/// distinct, the one entry under a name is the one that was there.
pub proof fn lemma_env_value_stays(
    pre: Seq<EnvVar>,
    post: Seq<EnvVar>,
    k: Seq<char>,
    other: Seq<char>,
    v: Seq<char>,
)
    requires
        ordered(env_names(pre)),
        k != other,
        exists|i: int| 0 <= i < pre.len() && #[trigger] pre[i].name@ == k && pre[i].value@ == v,
        in_list(env_names(post), k),
        forall|i: int|
            0 <= i < post.len() && #[trigger] post[i].name@ != other ==> exists|j: int|
                0 <= j < pre.len() && post[i] == pre[j],
    ensures
        exists|i: int| 0 <= i < post.len() && #[trigger] post[i].name@ == k && post[i].value@ == v,
{
    let w = choose|w: int| 0 <= w < pre.len() && #[trigger] pre[w].name@ == k && pre[w].value@ == v;
    let i = choose|i: int| 0 <= i < env_names(post).len() && env_names(post)[i] == k;
    assert(post[i].name@ == k);
    let j = choose|j: int| 0 <= j < pre.len() && post[i] == pre[j];
    assert(pre[j].name@ == k);
    if j != w {
        assert(env_names(pre)[j] == k && env_names(pre)[w] == k);
        if j < w {
            assert(lex_lt(env_names(pre)[j], env_names(pre)[w]));
            lemma_lex_lt_irreflexive(k);
        } else {
            assert(lex_lt(env_names(pre)[w], env_names(pre)[j]));
            lemma_lex_lt_irreflexive(k);
        }
    }
    assert(post[i].value@ == v);
}

// ---------------------------------------------------------------------------
// Emission: the bucketed expression of one input set.
// ---------------------------------------------------------------------------

/// The head of an attribute path: everything before its first dot.
pub open spec fn head_len(s: Seq<char>) -> int
    decreases s.len(),
{
    if s.len() > 0 && s[0] != '.' {
        1 + head_len(s.skip(1))
    } else {
        0
    }
}

pub open spec fn head_view(s: Seq<char>) -> Seq<char> {
    s.take(head_len(s))
}


/// The part of a compound identifier before its first dot, as declared in the
/// argument list (`darwin.apple_sdk.frameworks.Cocoa` is requested as
/// `darwin`).
pub fn attr_head(s: &str) -> (r: &str)
    ensures
        r@ == head_view(s@),
{
    let len = s.unicode_len();
    let mut i: usize = 0;
    assert(s@.skip(0) =~= s@);
    while i < len && s.get_char(i) != '.'
        invariant
            len == s@.len(),
            i <= len,
            head_len(s@) == i + head_len(s@.skip(i as int)),
            forall|j: int| 0 <= j < i ==> s@[j] != '.',
        decreases len - i,
    {
        proof {
            assert(s@.skip(i as int)[0] == s@[i as int]);
            assert(s@.skip(i as int).skip(1) =~= s@.skip(i + 1));
        }
        i += 1;
    }
    proof {
        if i < len {
            assert(s@.skip(i as int)[0] == s@[i as int]);
        }
        assert(head_len(s@) == i);
    }
    let r = s.substring_char(0, i);
    assert(r@ =~= s@.take(i as int));
    r
}

/// The text of one bucket's list: each name on an indented line of its own.
pub open spec fn list_items_text(names: Seq<Seq<char>>) -> Seq<char>
    decreases names.len(),
{
    if names.len() == 0 {
        Seq::empty()
    } else {
        list_items_text(names.drop_last()) + "    "@ + names.last() + "\n"@
    }
}

/// A bucket's list expression.
pub open spec fn input_list_text(names: Seq<Seq<char>>) -> Seq<char> {
    "[\n"@ + list_items_text(names) + "  ]"@
}

/// Writes one bucket as a bracketed list.
pub fn write_input_list(out: &mut String, v: &Vec<String>)
    ensures
        final(out)@ == old(out)@ + input_list_text(name_views(v@)),
{
    let ghost out0 = out@;
    let ghost all = name_views(v@);
    out.append("[\n");
    let n = v.len();
    let mut i: usize = 0;
    while i < n
        invariant
            n == v@.len(),
            all == name_views(v@),
            i <= n,
            out@ == out0 + "[\n"@ + list_items_text(all.take(i as int)),
        decreases n - i,
    {
        out.append("    ");
        out.append(v[i].as_str());
        out.append("\n");
        proof {
            assert(all.take(i + 1).drop_last() =~= all.take(i as int));
            assert(all.take(i + 1).last() == all[i as int]);
            assert(out@ =~= out0 + "[\n"@ + list_items_text(all.take(i + 1)));
        }
        i += 1;
    }
    out.append("  ]");
    proof {
        assert(all.take(n as int) =~= all);
        assert(out@ =~= out0 + input_list_text(all));
    }
}

/// The platform condition under which a bucket's names are pulled in.
pub open spec fn bucket_prefix(b: Bucket) -> Seq<char> {
    match b {
        Bucket::Always => ""@,
        Bucket::Darwin => "lib.optionals stdenv.isDarwin "@,
        Bucket::Aarch64Darwin => "lib.optionals (stdenv.isDarwin && stdenv.isAarch64) "@,
        Bucket::X8664Darwin => "lib.optionals (stdenv.isDarwin && stdenv.isx86_64) "@,
        Bucket::Linux => "lib.optionals stdenv.isLinux "@,
        Bucket::Aarch64Linux => "lib.optionals (stdenv.isLinux && stdenv.isAarch64) "@,
        Bucket::X8664Linux => "lib.optionals (stdenv.isLinux && stdenv.isx86_64) "@,
    }
}

/// One bucket's contribution to the joined expression: nothing when empty,
/// else its condition and list, preceded by the append operator unless it is
/// the first non-empty bucket.
pub open spec fn part_text(prefix: Seq<char>, names: Seq<Seq<char>>, first: bool) -> Seq<char> {
    if names.len() == 0 {
        Seq::empty()
    } else {
        (if first {
            " "@
        } else {
            " ++ "@
        }) + prefix + input_list_text(names)
    }
}

fn write_bucket_part(out: &mut String, first: bool, prefix: &str, v: &Vec<String>) -> (nf: bool)
    ensures
        final(out)@ == old(out)@ + part_text(prefix@, name_views(v@), first),
        nf == (first && v@.len() == 0),
{
    let ghost out0 = out@;
    if v.len() == 0 {
        return first;
    }
    if first {
        out.append(" ");
    } else {
        out.append(" ++ ");
    }
    out.append(prefix);
    write_input_list(out, v);
    proof {
        assert(out@ =~= out0 + part_text(prefix@, name_views(v@), first));
    }
    false
}

/// The whole field: the buckets joined in their fixed precedence order, empty
/// ones skipped.
pub open spec fn inputs_expr(inputs: &Inputs, name: Seq<char>) -> Seq<char> {
    let a = name_views(inputs.always@);
    let d = name_views(inputs.darwin@);
    let ad = name_views(inputs.aarch64_darwin@);
    let xd = name_views(inputs.x86_64_darwin@);
    let l = name_views(inputs.linux@);
    let al = name_views(inputs.aarch64_linux@);
    let xl = name_views(inputs.x86_64_linux@);
    let f1 = a.len() == 0;
    let f2 = f1 && d.len() == 0;
    let f3 = f2 && ad.len() == 0;
    let f4 = f3 && xd.len() == 0;
    let f5 = f4 && l.len() == 0;
    let f6 = f5 && al.len() == 0;
    "  "@ + name + " ="@ + part_text(bucket_prefix(Bucket::Always), a, true) + part_text(
        bucket_prefix(Bucket::Darwin),
        d,
        f1,
    ) + part_text(bucket_prefix(Bucket::Aarch64Darwin), ad, f2) + part_text(
        bucket_prefix(Bucket::X8664Darwin),
        xd,
        f3,
    ) + part_text(bucket_prefix(Bucket::Linux), l, f4) + part_text(
        bucket_prefix(Bucket::Aarch64Linux),
        al,
        f5,
    ) + part_text(bucket_prefix(Bucket::X8664Linux), xl, f6) + ";\n\n"@
}

/// Concatenation of character sequences is associative.
pub proof fn lemma_concat_assoc(a: Seq<char>, b: Seq<char>, c: Seq<char>)
    ensures
        (a + b) + c == a + (b + c),
{
    assert((a + b) + c =~= a + (b + c));
}

/// Writes one input set as a manifest field, walking the buckets in their
/// fixed precedence order and joining the non-empty ones with the list-append
/// operator.
pub fn write_inputs(out: &mut String, inputs: &Inputs, name: &str)
    ensures
        final(out)@ == old(out)@ + inputs_expr(inputs, name@),
{
    let ghost out0 = out@;
    out.append("  ");
    out.append(name);
    out.append(" =");
    let ghost acc0 = "  "@ + name@ + " ="@;
    proof {
        lemma_concat_assoc(out0, "  "@, name@);
        lemma_concat_assoc(out0, "  "@ + name@, " ="@);
        assert(out@ == out0 + acc0);
    }
    let first = true;
    let first = write_bucket_part(out, first, "", &inputs.always);
    let ghost p1 = part_text(bucket_prefix(Bucket::Always), name_views(inputs.always@), true);
    let ghost acc1 = acc0 + p1;
    proof {
        lemma_concat_assoc(out0, acc0, p1);
    }
    let first = write_bucket_part(
        out,
        first,
        "lib.optionals stdenv.isDarwin ",
        &inputs.darwin,
    );
    let ghost p2 = part_text(
        bucket_prefix(Bucket::Darwin),
        name_views(inputs.darwin@),
        name_views(inputs.always@).len() == 0,
    );
    let ghost acc2 = acc1 + p2;
    proof {
        lemma_concat_assoc(out0, acc1, p2);
    }
    let first = write_bucket_part(
        out,
        first,
        "lib.optionals (stdenv.isDarwin && stdenv.isAarch64) ",
        &inputs.aarch64_darwin,
    );
    let ghost f2 = name_views(inputs.always@).len() == 0 && name_views(inputs.darwin@).len() == 0;
    let ghost p3 = part_text(
        bucket_prefix(Bucket::Aarch64Darwin),
        name_views(inputs.aarch64_darwin@),
        f2,
    );
    let ghost acc3 = acc2 + p3;
    proof {
        lemma_concat_assoc(out0, acc2, p3);
    }
    let first = write_bucket_part(
        out,
        first,
        "lib.optionals (stdenv.isDarwin && stdenv.isx86_64) ",
        &inputs.x86_64_darwin,
    );
    let ghost f3 = f2 && name_views(inputs.aarch64_darwin@).len() == 0;
    let ghost p4 = part_text(
        bucket_prefix(Bucket::X8664Darwin),
        name_views(inputs.x86_64_darwin@),
        f3,
    );
    let ghost acc4 = acc3 + p4;
    proof {
        lemma_concat_assoc(out0, acc3, p4);
    }
    let first = write_bucket_part(out, first, "lib.optionals stdenv.isLinux ", &inputs.linux);
    let ghost f4 = f3 && name_views(inputs.x86_64_darwin@).len() == 0;
    let ghost p5 = part_text(bucket_prefix(Bucket::Linux), name_views(inputs.linux@), f4);
    let ghost acc5 = acc4 + p5;
    proof {
        lemma_concat_assoc(out0, acc4, p5);
    }
    let first = write_bucket_part(
        out,
        first,
        "lib.optionals (stdenv.isLinux && stdenv.isAarch64) ",
        &inputs.aarch64_linux,
    );
    let ghost f5 = f4 && name_views(inputs.linux@).len() == 0;
    let ghost p6 = part_text(
        bucket_prefix(Bucket::Aarch64Linux),
        name_views(inputs.aarch64_linux@),
        f5,
    );
    let ghost acc6 = acc5 + p6;
    proof {
        lemma_concat_assoc(out0, acc5, p6);
    }
    let _ = write_bucket_part(
        out,
        first,
        "lib.optionals (stdenv.isLinux && stdenv.isx86_64) ",
        &inputs.x86_64_linux,
    );
    let ghost f6 = f5 && name_views(inputs.aarch64_linux@).len() == 0;
    let ghost p7 = part_text(
        bucket_prefix(Bucket::X8664Linux),
        name_views(inputs.x86_64_linux@),
        f6,
    );
    let ghost acc7 = acc6 + p7;
    proof {
        lemma_concat_assoc(out0, acc6, p7);
    }
    out.append(";\n\n");
    proof {
        lemma_concat_assoc(out0, acc7, ";\n\n"@);
        assert(acc7 + ";\n\n"@ == inputs_expr(inputs, name@));
    }
}

// ---------------------------------------------------------------------------
// Emission: the deduplicated argument list a manifest requests.
// ---------------------------------------------------------------------------

/// One candidate argument name: a line when it was not yet written, nothing
/// otherwise.
pub open spec fn lambda_input_text(written: Seq<Seq<char>>, x: Seq<char>) -> Seq<char> {
    if in_list(written, x) {
        Seq::empty()
    } else {
        ", "@ + x + "\n"@
    }
}

/// The text that declaring a row of candidate names emits, threading the
/// already-written set through.
pub open spec fn lambda_fold_text(written: Seq<Seq<char>>, items: Seq<Seq<char>>) -> Seq<char>
    decreases items.len(),
{
    if items.len() == 0 {
        Seq::empty()
    } else {
        lambda_input_text(written, items[0]) + lambda_fold_text(
            sorted_insert_view(written, items[0]),
            items.skip(1),
        )
    }
}

/// The already-written set after declaring a row of candidate names.
pub open spec fn lambda_fold_written(written: Seq<Seq<char>>, items: Seq<Seq<char>>) -> Seq<
    Seq<char>,
>
    decreases items.len(),
{
    if items.len() == 0 {
        written
    } else {
        lambda_fold_written(sorted_insert_view(written, items[0]), items.skip(1))
    }
}

pub proof fn lemma_lambda_fold_concat(w: Seq<Seq<char>>, a: Seq<Seq<char>>, b: Seq<Seq<char>>)
    ensures
        lambda_fold_text(w, a + b) == lambda_fold_text(w, a) + lambda_fold_text(
            lambda_fold_written(w, a),
            b,
        ),
        lambda_fold_written(w, a + b) == lambda_fold_written(lambda_fold_written(w, a), b),
    decreases a.len(),
{
    if a.len() == 0 {
        assert(a + b =~= b);
        assert(lambda_fold_text(w, a) == Seq::<char>::empty());
        assert(Seq::<char>::empty() + lambda_fold_text(w, b) =~= lambda_fold_text(w, b));
    } else {
        let w1 = sorted_insert_view(w, a[0]);
        assert((a + b)[0] == a[0]);
        assert((a + b).skip(1) =~= a.skip(1) + b);
        lemma_lambda_fold_concat(w1, a.skip(1), b);
        lemma_concat_assoc(
            lambda_input_text(w, a[0]),
            lambda_fold_text(w1, a.skip(1)),
            lambda_fold_text(lambda_fold_written(w1, a.skip(1)), b),
        );
    }
}

/// Declares one input, unless it was already written.
pub fn write_lambda_input(out: &mut String, written: &mut Vec<String>, input: &str)
    requires
        ordered(name_views(old(written)@)),
    ensures
        ordered(name_views(final(written)@)),
        name_views(final(written)@) == sorted_insert_view(name_views(old(written)@), input@),
        final(out)@ == old(out)@ + lambda_input_text(name_views(old(written)@), input@),
{
    let ghost out0 = out@;
    if sorted_insert(written, input) {
        out.append(", ");
        out.append(input);
        out.append("\n");
        proof {
            lemma_concat_assoc(out0, ", "@, input@);
            lemma_concat_assoc(out0, ", "@ + input@, "\n"@);
        }
    }
}

/// The candidate names of one platform bucket: the standard environment
/// before each entry's head.
pub open spec fn with_stdenv(names: Seq<Seq<char>>) -> Seq<Seq<char>>
    decreases names.len(),
{
    if names.len() == 0 {
        Seq::empty()
    } else {
        seq!["stdenv"@, head_view(names[0])] + with_stdenv(names.skip(1))
    }
}

/// The heads of a bucket's names.
pub open spec fn head_views(names: Seq<Seq<char>>) -> Seq<Seq<char>> {
    names.map_values(|n: Seq<char>| head_view(n))
}

/// Every candidate name one input set asks the manifest's argument list for.
pub open spec fn lambda_items(inputs: &Inputs) -> Seq<Seq<char>> {
    head_views(name_views(inputs.always@)) + (with_stdenv(name_views(inputs.darwin@))
        + with_stdenv(name_views(inputs.aarch64_darwin@)) + with_stdenv(
        name_views(inputs.x86_64_darwin@),
    ) + with_stdenv(name_views(inputs.linux@)) + with_stdenv(name_views(inputs.aarch64_linux@))
        + with_stdenv(name_views(inputs.x86_64_linux@)))
}

/// Whether any bucket holds a name.
pub open spec fn some_input(inputs: &Inputs) -> bool {
    ||| inputs.always@.len() > 0
    ||| inputs.darwin@.len() > 0
    ||| inputs.aarch64_darwin@.len() > 0
    ||| inputs.x86_64_darwin@.len() > 0
    ||| inputs.linux@.len() > 0
    ||| inputs.aarch64_linux@.len() > 0
    ||| inputs.x86_64_linux@.len() > 0
}

/// Declares the heads of one platform bucket, each preceded by the standard
/// environment.
fn write_lambda_bucket(out: &mut String, written: &mut Vec<String>, v: &Vec<String>)
    requires
        ordered(name_views(old(written)@)),
    ensures
        ordered(name_views(final(written)@)),
        name_views(final(written)@) == lambda_fold_written(
            name_views(old(written)@),
            with_stdenv(name_views(v@)),
        ),
        final(out)@ == old(out)@ + lambda_fold_text(
            name_views(old(written)@),
            with_stdenv(name_views(v@)),
        ),
{
    let ghost out0 = out@;
    let ghost w0 = name_views(written@);
    let ghost names = name_views(v@);
    let n = v.len();
    let mut i: usize = 0;
    proof {
        assert(names.skip(0) =~= names);
    }
    while i < n
        invariant
            n == v@.len(),
            names == name_views(v@),
            i <= n,
            ordered(name_views(written@)),
            lambda_fold_written(w0, with_stdenv(names)) == lambda_fold_written(
                name_views(written@),
                with_stdenv(names.skip(i as int)),
            ),
            out0 + lambda_fold_text(w0, with_stdenv(names)) == out@ + lambda_fold_text(
                name_views(written@),
                with_stdenv(names.skip(i as int)),
            ),
        decreases n - i,
    {
        let ghost wcur = name_views(written@);
        let ghost outcur = out@;
        let ghost rest = names.skip(i as int);
        proof {
            assert(rest[0] == names[i as int]);
            assert(rest.skip(1) =~= names.skip(i + 1));
            assert(with_stdenv(rest) == seq!["stdenv"@, head_view(rest[0])] + with_stdenv(
                rest.skip(1),
            ));
        }
        write_lambda_input(out, written, "stdenv");
        let head = attr_head(v[i].as_str());
        write_lambda_input(out, written, head);
        proof {
            let s = with_stdenv(rest);
            assert(s[0] == "stdenv"@ && s.skip(1)[0] == head_view(rest[0]));
            assert(s.skip(1).skip(1) =~= with_stdenv(rest.skip(1)));
            let w1 = sorted_insert_view(wcur, "stdenv"@);
            let w2 = sorted_insert_view(w1, head_view(rest[0]));
            assert(lambda_fold_written(wcur, s) == lambda_fold_written(w1, s.skip(1)));
            assert(lambda_fold_written(w1, s.skip(1)) == lambda_fold_written(
                w2,
                s.skip(1).skip(1),
            ));
            assert(lambda_fold_text(wcur, s) == lambda_input_text(wcur, "stdenv"@)
                + lambda_fold_text(w1, s.skip(1)));
            assert(lambda_fold_text(w1, s.skip(1)) == lambda_input_text(w1, head_view(rest[0]))
                + lambda_fold_text(w2, s.skip(1).skip(1)));
            lemma_concat_assoc(
                lambda_input_text(wcur, "stdenv"@),
                lambda_input_text(w1, head_view(rest[0])),
                lambda_fold_text(w2, with_stdenv(rest.skip(1))),
            );
            lemma_concat_assoc(
                outcur,
                lambda_input_text(wcur, "stdenv"@),
                lambda_input_text(w1, head_view(rest[0])),
            );
            lemma_concat_assoc(
                outcur + lambda_input_text(wcur, "stdenv"@) + lambda_input_text(
                    w1,
                    head_view(rest[0]),
                ),
                Seq::<char>::empty(),
                lambda_fold_text(w2, with_stdenv(rest.skip(1))),
            );
            assert(out@ == outcur + lambda_input_text(wcur, "stdenv"@) + lambda_input_text(
                w1,
                head_view(rest[0]),
            ));
            lemma_concat_assoc(
                outcur,
                lambda_input_text(wcur, "stdenv"@) + lambda_input_text(w1, head_view(rest[0])),
                lambda_fold_text(w2, with_stdenv(rest.skip(1))),
            );
            lemma_concat_assoc(
                lambda_input_text(wcur, "stdenv"@),
                lambda_input_text(w1, head_view(rest[0])),
                lambda_fold_text(w2, with_stdenv(rest.skip(1))),
            );
        }
        i += 1;
    }
    proof {
        assert(names.skip(n as int).len() == 0);
        assert(with_stdenv(names.skip(n as int)) == Seq::<Seq<char>>::empty());
        assert(out0 + lambda_fold_text(w0, with_stdenv(names)) == out@ + Seq::<char>::empty());
        assert(out@ + Seq::<char>::empty() =~= out@);
    }
}

/// Declares the arguments one input set needs: the heads of the
/// unconditional bucket, then the standard environment and the head for each
/// platform-conditioned entry.  Reports whether the set held anything.
#[verifier::rlimit(100)]
pub fn write_lambda_inputs(out: &mut String, written: &mut Vec<String>, inputs: &Inputs) -> (r:
    bool)
    requires
        ordered(name_views(old(written)@)),
    ensures
        ordered(name_views(final(written)@)),
        name_views(final(written)@) == lambda_fold_written(
            name_views(old(written)@),
            lambda_items(inputs),
        ),
        final(out)@ == old(out)@ + lambda_fold_text(name_views(old(written)@), lambda_items(inputs)),
        r == some_input(inputs),
{
    let ghost out0 = out@;
    let ghost w0 = name_views(written@);
    let ghost names = name_views(inputs.always@);
    let mut non_empty = inputs.always.len() > 0;
    let n = inputs.always.len();
    let mut i: usize = 0;
    proof {
        assert(names.skip(0) =~= names);
    }
    while i < n
        invariant
            n == inputs.always@.len(),
            names == name_views(inputs.always@),
            i <= n,
            ordered(name_views(written@)),
            lambda_fold_written(w0, head_views(names)) == lambda_fold_written(
                name_views(written@),
                head_views(names.skip(i as int)),
            ),
            out0 + lambda_fold_text(w0, head_views(names)) == out@ + lambda_fold_text(
                name_views(written@),
                head_views(names.skip(i as int)),
            ),
            non_empty == (n > 0),
        decreases n - i,
    {
        let ghost wcur = name_views(written@);
        let ghost outcur = out@;
        let ghost rest = names.skip(i as int);
        proof {
            assert(head_views(rest)[0] == head_view(rest[0]));
            assert(rest[0] == names[i as int]);
            assert(head_views(rest).skip(1) =~= head_views(rest.skip(1)));
            assert(rest.skip(1) =~= names.skip(i + 1));
        }
        let head = attr_head(inputs.always[i].as_str());
        write_lambda_input(out, written, head);
        proof {
            let w1 = sorted_insert_view(wcur, head_view(rest[0]));
            lemma_concat_assoc(
                outcur,
                lambda_input_text(wcur, head_view(rest[0])),
                lambda_fold_text(w1, head_views(rest.skip(1))),
            );
        }
        i += 1;
    }
    proof {
        assert(head_views(names.skip(n as int)).len() == 0);
        assert(out0 + lambda_fold_text(w0, head_views(names)) == out@ + Seq::<char>::empty());
        assert(out@ + Seq::<char>::empty() =~= out@);
    }
    let ghost wa = name_views(written@);
    let ghost outa = out@;
    if inputs.darwin.len() > 0 || inputs.aarch64_darwin.len() > 0 || inputs.x86_64_darwin.len()
        > 0 || inputs.linux.len() > 0 || inputs.aarch64_linux.len() > 0
        || inputs.x86_64_linux.len() > 0 {
        non_empty = true;
    }
    write_lambda_bucket(out, written, &inputs.darwin);
    write_lambda_bucket(out, written, &inputs.aarch64_darwin);
    write_lambda_bucket(out, written, &inputs.x86_64_darwin);
    write_lambda_bucket(out, written, &inputs.linux);
    write_lambda_bucket(out, written, &inputs.aarch64_linux);
    write_lambda_bucket(out, written, &inputs.x86_64_linux);
    proof {
        let s1 = with_stdenv(name_views(inputs.darwin@));
        let s2 = with_stdenv(name_views(inputs.aarch64_darwin@));
        let s3 = with_stdenv(name_views(inputs.x86_64_darwin@));
        let s4 = with_stdenv(name_views(inputs.linux@));
        let s5 = with_stdenv(name_views(inputs.aarch64_linux@));
        let s6 = with_stdenv(name_views(inputs.x86_64_linux@));
        lemma_lambda_fold_concat(wa, s1 + s2 + s3 + s4 + s5, s6);
        lemma_lambda_fold_concat(wa, s1 + s2 + s3 + s4, s5);
        lemma_lambda_fold_concat(wa, s1 + s2 + s3, s4);
        lemma_lambda_fold_concat(wa, s1 + s2, s3);
        lemma_lambda_fold_concat(wa, s1, s2);
        assert(s1 + s2 + s3 + s4 + s5 + s6 =~= s1 + (s2 + s3 + s4 + s5 + s6));
        assert(s2 + s3 + s4 + s5 + s6 =~= s2 + (s3 + s4 + s5 + s6));
        assert(s3 + s4 + s5 + s6 =~= s3 + (s4 + s5 + s6));
        assert(s4 + s5 + s6 =~= s4 + (s5 + s6));
        lemma_lambda_fold_concat(wa, s1, s2 + s3 + s4 + s5 + s6);
        let wb1 = lambda_fold_written(wa, s1);
        lemma_lambda_fold_concat(wb1, s2, s3 + s4 + s5 + s6);
        let wb2 = lambda_fold_written(wb1, s2);
        lemma_lambda_fold_concat(wb2, s3, s4 + s5 + s6);
        let wb3 = lambda_fold_written(wb2, s3);
        lemma_lambda_fold_concat(wb3, s4, s5 + s6);
        let wb4 = lambda_fold_written(wb3, s4);
        lemma_lambda_fold_concat(wb4, s5, s6);
        let plat = s1 + (s2 + s3 + s4 + s5 + s6);
        let t1 = lambda_fold_text(wa, s1);
        let t2 = lambda_fold_text(wb1, s2);
        let t3 = lambda_fold_text(wb2, s3);
        let t4 = lambda_fold_text(wb3, s4);
        let t5 = lambda_fold_text(wb4, s5);
        let wb5 = lambda_fold_written(wb4, s5);
        let t6 = lambda_fold_text(wb5, s6);
        assert(out@ == outa + t1 + t2 + t3 + t4 + t5 + t6);
        assert(lambda_fold_text(wa, plat) =~= t1 + (t2 + (t3 + (t4 + (t5 + t6)))));
        lemma_concat_assoc(outa, t1, t2 + (t3 + (t4 + (t5 + t6))));
        lemma_concat_assoc(outa + t1, t2, t3 + (t4 + (t5 + t6)));
        lemma_concat_assoc(outa + t1 + t2, t3, t4 + (t5 + t6));
        lemma_concat_assoc(outa + t1 + t2 + t3, t4, t5 + t6);
        lemma_concat_assoc(outa + t1 + t2 + t3 + t4, t5, t6);
        assert(out@ == outa + lambda_fold_text(wa, plat));
        lemma_lambda_fold_concat(w0, head_views(names), plat);
        assert(head_views(names) + plat =~= lambda_items(inputs));
        lemma_concat_assoc(out0, lambda_fold_text(w0, head_views(names)), lambda_fold_text(wa, plat));
    }
    non_empty
}

/// Declares every external input the manifest must request as an argument:
/// both input sets flattened into one deduplicated ordered list.  Reports
/// whether each of the two sets was non-empty.
pub fn write_all_lambda_inputs(out: &mut String, inputs: &AllInputs, written: &mut Vec<String>)
    -> (r: (bool, bool))
    requires
        ordered(name_views(old(written)@)),
    ensures
        ordered(name_views(final(written)@)),
        ({
            let w0 = name_views(old(written)@);
            let ni = lambda_items(&inputs.native_build_inputs);
            let bi = lambda_items(&inputs.build_inputs);
            let w1 = lambda_fold_written(w0, ni);
            &&& name_views(final(written)@) == lambda_fold_written(w1, bi)
            &&& final(out)@ == old(out)@ + lambda_fold_text(w0, ni) + lambda_fold_text(w1, bi)
            &&& r.0 == some_input(&inputs.native_build_inputs)
            &&& r.1 == some_input(&inputs.build_inputs)
        }),
{
    let a = write_lambda_inputs(out, written, &inputs.native_build_inputs);
    let b = write_lambda_inputs(out, written, &inputs.build_inputs);
    (a, b)
}

// ---------------------------------------------------------------------------
// The dedup laws.
// ---------------------------------------------------------------------------

/// One bucket after a whole sequence of insertions.
pub open spec fn inserted_all(names: Seq<Seq<char>>) -> Seq<Seq<char>>
    decreases names.len(),
{
    if names.len() == 0 {
        Seq::empty()
    } else {
        sorted_insert_view(inserted_all(names.drop_last()), names.last())
    }
}

/// An ordered list holds no name twice.
pub proof fn lemma_ordered_distinct(v: Seq<Seq<char>>)
    requires
        ordered(v),
    ensures
        forall|p: int, q: int| 0 <= p < q < v.len() ==> v[p] != v[q],
{
    assert forall|p: int, q: int| 0 <= p < q < v.len() implies v[p] != v[q] by {
        if v[p] == v[q] {
            lemma_lex_lt_irreflexive(v[p]);
        }
    }
}

proof fn lemma_inserted_all_props(names: Seq<Seq<char>>)
    ensures
        ordered(inserted_all(names)),
        forall|x: Seq<char>| in_list(inserted_all(names), x) <==> names.contains(x),
    decreases names.len(),
{
    if names.len() == 0 {
        assert forall|x: Seq<char>| !names.contains(x) by {}
    } else {
        let head = inserted_all(names.drop_last());
        lemma_inserted_all_props(names.drop_last());
        lemma_sorted_insert_ordered(head, names.last());
        assert forall|x: Seq<char>|
            in_list(inserted_all(names), x) <==> names.contains(x) by {
            lemma_sorted_insert_membership(head, names.last(), x);
            assert(names.contains(x) <==> (names.drop_last().contains(x) || x
                == names.last())) by {
                if names.contains(x) {
                    let i = choose|i: int| 0 <= i < names.len() && names[i] == x;
                    if i < names.len() - 1 {
                        assert(names.drop_last()[i] == x);
                    }
                }
                if names.drop_last().contains(x) {
                    let i = choose|i: int|
                        0 <= i < names.drop_last().len() && names.drop_last()[i] == x;
                    assert(names[i] == x);
                }
            }
        }
    }
}

/// Law (dedup invariant): a bucket built by any sequence of insertions —
/// repeats included — lists each distinct inserted name exactly once, in
/// ascending lexicographic order; and another insertion order of the same
/// names builds the same bucket.
pub proof fn lemma_bucket_insertions(names: Seq<Seq<char>>, other: Seq<Seq<char>>)
    requires
        forall|x: Seq<char>| names.contains(x) <==> other.contains(x),
    ensures
        ordered(inserted_all(names)),
        forall|x: Seq<char>| in_list(inserted_all(names), x) <==> names.contains(x),
        forall|p: int, q: int|
            0 <= p < q < inserted_all(names).len() ==> inserted_all(names)[p] != inserted_all(
                names,
            )[q],
        inserted_all(names) == inserted_all(other),
{
    lemma_inserted_all_props(names);
    lemma_inserted_all_props(other);
    lemma_ordered_distinct(inserted_all(names));
    assert forall|x: Seq<char>|
        in_list(inserted_all(names), x) <==> in_list(inserted_all(other), x) by {
        assert(in_list(inserted_all(names), x) <==> names.contains(x));
        assert(in_list(inserted_all(other), x) <==> other.contains(x));
    }
    lemma_ordered_unique(inserted_all(names), inserted_all(other));
}

/// The names a row of candidates actually adds to the argument list, in
/// order.
pub open spec fn lambda_emitted(written: Seq<Seq<char>>, items: Seq<Seq<char>>) -> Seq<Seq<char>>
    decreases items.len(),
{
    if items.len() == 0 {
        Seq::empty()
    } else {
        let tail = lambda_emitted(sorted_insert_view(written, items[0]), items.skip(1));
        if in_list(written, items[0]) {
            tail
        } else {
            seq![items[0]] + tail
        }
    }
}

/// The argument lines of a list of names.
pub open spec fn lambda_texts(names: Seq<Seq<char>>) -> Seq<char>
    decreases names.len(),
{
    if names.len() == 0 {
        Seq::empty()
    } else {
        ", "@ + names[0] + "\n"@ + lambda_texts(names.skip(1))
    }
}

proof fn lemma_lambda_fold_text_emitted(w: Seq<Seq<char>>, items: Seq<Seq<char>>)
    ensures
        lambda_fold_text(w, items) == lambda_texts(lambda_emitted(w, items)),
    decreases items.len(),
{
    if items.len() > 0 {
        let w1 = sorted_insert_view(w, items[0]);
        lemma_lambda_fold_text_emitted(w1, items.skip(1));
        if in_list(w, items[0]) {
            assert(lambda_input_text(w, items[0]) == Seq::<char>::empty());
            assert(Seq::<char>::empty() + lambda_texts(lambda_emitted(w1, items.skip(1))) =~= lambda_texts(
                lambda_emitted(w1, items.skip(1)),
            ));
        } else {
            let e = lambda_emitted(w1, items.skip(1));
            let full = seq![items[0]] + e;
            assert(full[0] == items[0]);
            assert(full.skip(1) =~= e);
            assert(lambda_texts(full) == ", "@ + items[0] + "\n"@ + lambda_texts(e));
        }
    }
}

proof fn lemma_lambda_emitted_membership(w: Seq<Seq<char>>, items: Seq<Seq<char>>, y: Seq<char>)
    ensures
        in_list(lambda_emitted(w, items), y) <==> (items.contains(y) && !in_list(w, y)),
    decreases items.len(),
{
    if items.len() == 0 {
    } else {
        let w1 = sorted_insert_view(w, items[0]);
        lemma_lambda_emitted_membership(w1, items.skip(1), y);
        lemma_sorted_insert_membership(w, items[0], y);
        assert(items.contains(y) <==> (items[0] == y || items.skip(1).contains(y))) by {
            if items.contains(y) {
                let i = choose|i: int| 0 <= i < items.len() && items[i] == y;
                if i > 0 {
                    assert(items.skip(1)[i - 1] == y);
                }
            }
            if items.skip(1).contains(y) {
                let i = choose|i: int| 0 <= i < items.skip(1).len() && items.skip(1)[i] == y;
                assert(items[i + 1] == y);
            }
        }
        let tail = lambda_emitted(w1, items.skip(1));
        if in_list(w, items[0]) {
        } else {
            let full = seq![items[0]] + tail;
            assert(in_list(full, y) <==> (y == items[0] || in_list(tail, y))) by {
                if in_list(full, y) {
                    let i = choose|i: int| 0 <= i < full.len() && full[i] == y;
                    if i > 0 {
                        assert(tail[i - 1] == y);
                    }
                }
                if y == items[0] {
                    assert(full[0] == y);
                }
                if in_list(tail, y) {
                    let i = choose|i: int| 0 <= i < tail.len() && tail[i] == y;
                    assert(full[i + 1] == y);
                }
            }
        }
    }
}

proof fn lemma_lambda_emitted_distinct(w: Seq<Seq<char>>, items: Seq<Seq<char>>)
    ensures
        forall|p: int, q: int|
            0 <= p < q < lambda_emitted(w, items).len() ==> lambda_emitted(w, items)[p]
                != lambda_emitted(w, items)[q],
    decreases items.len(),
{
    if items.len() > 0 {
        let w1 = sorted_insert_view(w, items[0]);
        let tail = lambda_emitted(w1, items.skip(1));
        lemma_lambda_emitted_distinct(w1, items.skip(1));
        if !in_list(w, items[0]) {
            let full = seq![items[0]] + tail;
            assert forall|p: int, q: int|
                0 <= p < q < full.len() implies full[p] != full[q] by {
                if p == 0 {
                    assert(full[0] == items[0]);
                    assert(full[q] == tail[q - 1]);
                    lemma_lambda_emitted_membership(w1, items.skip(1), items[0]);
                    lemma_sorted_insert_membership(w, items[0], items[0]);
                    if full[q] == items[0] {
                        assert(in_list(tail, items[0])) by {
                            assert(tail[q - 1] == items[0]);
                        }
                    }
                } else {
                    assert(full[p] == tail[p - 1] && full[q] == tail[q - 1]);
                }
            }
        }
    }
}

/// Law (dedup invariant, across buckets): the argument list the manifest
/// requests is the lines of the names that were new to the already-written
/// set, and no name is requested twice, however many buckets of either input
/// set mention it.
pub proof fn lemma_lambda_list_once(w: Seq<Seq<char>>, items: Seq<Seq<char>>)
    ensures
        lambda_fold_text(w, items) == lambda_texts(lambda_emitted(w, items)),
        forall|y: Seq<char>|
            in_list(lambda_emitted(w, items), y) <==> (items.contains(y) && !in_list(w, y)),
        forall|p: int, q: int|
            0 <= p < q < lambda_emitted(w, items).len() ==> lambda_emitted(w, items)[p]
                != lambda_emitted(w, items)[q],
{
    lemma_lambda_fold_text_emitted(w, items);
    assert forall|y: Seq<char>|
        in_list(lambda_emitted(w, items), y) <==> (items.contains(y) && !in_list(w, y)) by {
        lemma_lambda_emitted_membership(w, items, y);
    }
    lemma_lambda_emitted_distinct(w, items);
}

} // verus!
