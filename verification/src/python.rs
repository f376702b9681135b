use vstd::prelude::*;

use crate::inputs::{AllInputs, Bucket, lemma_sorted_insert_ordered, name_views, ordered,
    sorted_insert, sorted_insert_view};
use crate::text::{alpha_char, ascii_lower_char, lemma_lex_lt_irreflexive, lemma_lex_lt_total,
    lemma_lex_lt_transitive, lex_lt, str_eq, str_lt, to_lower_char, trim_start_str,
    trim_start_view};
use crate::utils::views;

verus! {

// ---------------------------------------------------------------------------
// Trusted interface to the casing crate, std's case folding, and the
// dependency-specifier parser.
// ---------------------------------------------------------------------------

/// What std's case folding yields of a string.
pub uninterp spec fn lower_of(s: Seq<char>) -> Seq<char>;

/// Relies on str::to_lowercase: the result depends on the characters alone.
#[verifier::external_body]
pub fn to_lowercase_str(s: &str) -> (r: String)
    ensures
        r@ == lower_of(s@),
{
    s.to_lowercase()
}

/// What heck's kebab-case conversion yields of a string.
pub uninterp spec fn kebab_of(s: Seq<char>) -> Seq<char>;

/// Relies on heck::ToKebabCase::to_kebab_case: the result depends on the
/// characters alone.
#[verifier::external_body]
pub fn to_kebab_str(s: &str) -> (r: String)
    ensures
        r@ == kebab_of(s@),
{
    heck::ToKebabCase::to_kebab_case(s)
}

/// The comparison operators of an environment marker.
pub enum MarkerComparator {
    Lt,
    Le,
    Ne,
    Eq,
    Ge,
    Gt,
    Cp,
    Ae,
}

/// The operators of an environment marker.
pub enum MarkerOp {
    Comparator(MarkerComparator),
    In,
    NotIn,
}

/// One side of an environment-marker comparison.
pub enum MarkerVar {
    PythonVersion,
    PythonFullVersion,
    OsName,
    SysPlatform,
    PlatformRelease,
    PlatformSystem,
    PlatformVersion,
    PlatformMachine,
    PlatformPythonImplementation,
    ImplementationName,
    ImplementationVersion,
    Extra,
    Str(String),
}

/// An environment marker: comparisons combined with and / or.
pub enum MarkerExpr {
    And(Box<MarkerExpr>, Box<MarkerExpr>),
    Or(Box<MarkerExpr>, Box<MarkerExpr>),
    Operator(MarkerVar, MarkerOp, MarkerVar),
}

/// What this library reads of a parsed dependency specifier: the declared
/// name and the environment marker, when one is given.
pub struct ParsedDependency {
    pub name: String,
    pub marker: Option<MarkerExpr>,
}

/// What the dependency-specifier parser yields of a string, when the string
/// is a well-formed specifier.
pub uninterp spec fn pep_dep_of(s: Seq<char>) -> Option<ParsedDependency>;

#[verifier::external_type_specification]
#[verifier::external_body]
pub struct ExPepMarker<'a>(pep_508::Marker<'a>);

#[verifier::external_type_specification]
#[verifier::external_body]
pub struct ExPepVariable<'a>(pep_508::Variable<'a>);

#[verifier::external_type_specification]
#[verifier::external_body]
pub struct ExPepOperator(pep_508::Operator);

#[verifier::external_type_specification]
#[verifier::external_body]
pub struct ExPepComparator(pep_508::Comparator);

/// Relies on pep_508's marker tree: each variant is mirrored one for one.
#[verifier::external_body]
fn convert_marker(m: pep_508::Marker<'_>) -> MarkerExpr {
    match m {
        pep_508::Marker::And(a, b) => {
            MarkerExpr::And(Box::new(convert_marker(*a)), Box::new(convert_marker(*b)))
        },
        pep_508::Marker::Or(a, b) => {
            MarkerExpr::Or(Box::new(convert_marker(*a)), Box::new(convert_marker(*b)))
        },
        pep_508::Marker::Operator(l, op, r) => {
            MarkerExpr::Operator(convert_variable(l), convert_operator(op), convert_variable(r))
        },
    }
}

/// Relies on pep_508's marker variables: each variant is mirrored one for
/// one, a literal string by its content.
#[verifier::external_body]
fn convert_variable(v: pep_508::Variable<'_>) -> MarkerVar {
    match v {
        pep_508::Variable::PythonVersion => MarkerVar::PythonVersion,
        pep_508::Variable::PythonFullVersion => MarkerVar::PythonFullVersion,
        pep_508::Variable::OsName => MarkerVar::OsName,
        pep_508::Variable::SysPlatform => MarkerVar::SysPlatform,
        pep_508::Variable::PlatformRelease => MarkerVar::PlatformRelease,
        pep_508::Variable::PlatformSystem => MarkerVar::PlatformSystem,
        pep_508::Variable::PlatformVersion => MarkerVar::PlatformVersion,
        pep_508::Variable::PlatformMachine => MarkerVar::PlatformMachine,
        pep_508::Variable::PlatformPythonImplementation => MarkerVar::PlatformPythonImplementation,
        pep_508::Variable::ImplementationName => MarkerVar::ImplementationName,
        pep_508::Variable::ImplementationVersion => MarkerVar::ImplementationVersion,
        pep_508::Variable::Extra => MarkerVar::Extra,
        pep_508::Variable::String(s) => MarkerVar::Str(s.to_owned()),
    }
}

/// Relies on pep_508's marker comparators: each variant is mirrored one for
/// one.
#[verifier::external_body]
fn convert_comparator(c: pep_508::Comparator) -> MarkerComparator {
    match c {
        pep_508::Comparator::Lt => MarkerComparator::Lt,
        pep_508::Comparator::Le => MarkerComparator::Le,
        pep_508::Comparator::Ne => MarkerComparator::Ne,
        pep_508::Comparator::Eq => MarkerComparator::Eq,
        pep_508::Comparator::Ge => MarkerComparator::Ge,
        pep_508::Comparator::Gt => MarkerComparator::Gt,
        pep_508::Comparator::Cp => MarkerComparator::Cp,
        pep_508::Comparator::Ae => MarkerComparator::Ae,
    }
}

/// Relies on pep_508's marker operators: each variant is mirrored one for
/// one.
#[verifier::external_body]
fn convert_operator(o: pep_508::Operator) -> MarkerOp {
    match o {
        pep_508::Operator::Comparator(c) => MarkerOp::Comparator(convert_comparator(c)),
        pep_508::Operator::In => MarkerOp::In,
        pep_508::Operator::NotIn => MarkerOp::NotIn,
    }
}

/// Relies on pep_508::parse: accepts exactly the well-formed dependency
/// specifiers; the name and marker carried over are all this library reads.
#[verifier::external_body]
pub fn parse_pep_dependency(s: &str) -> (r: Option<ParsedDependency>)
    ensures
        r == pep_dep_of(s@),
{
    match pep_508::parse(s) {
        Ok(d) => Some(
            ParsedDependency { name: d.name.to_owned(), marker: d.marker.map(convert_marker) },
        ),
        Err(_) => None,
    }
}

// ---------------------------------------------------------------------------
// The extras an environment marker names.
// ---------------------------------------------------------------------------

/// The extras a marker references: every side of an equality between the
/// `extra` variable and a literal, through any and / or.
pub open spec fn marker_extras(m: MarkerExpr) -> Seq<Seq<char>>
    decreases m,
{
    match m {
        MarkerExpr::And(a, b) => marker_extras(*a) + marker_extras(*b),
        MarkerExpr::Or(a, b) => marker_extras(*a) + marker_extras(*b),
        MarkerExpr::Operator(l, op, r) => {
            if (l matches MarkerVar::Extra) && (op matches MarkerOp::Comparator(
                MarkerComparator::Eq,
            )) && (r matches MarkerVar::Str(_)) {
                seq![r->Str_0@]
            } else if (l matches MarkerVar::Str(_)) && (op matches MarkerOp::Comparator(
                MarkerComparator::Eq,
            )) && (r matches MarkerVar::Extra) {
                seq![l->Str_0@]
            } else {
                Seq::empty()
            }
        },
    }
}

/// Collects the extras a marker references, walking and / or recursively.
pub fn load_extras(extras: &mut Vec<String>, m: &MarkerExpr)
    ensures
        views(final(extras)@) == views(old(extras)@) + marker_extras(*m),
    decreases m,
{
    match m {
        MarkerExpr::And(a, b) => {
            let ghost e0 = views(extras@);
            load_extras(extras, a);
            load_extras(extras, b);
            proof {
                assert(views(extras@) =~= e0 + marker_extras(**a) + marker_extras(**b));
                assert(e0 + (marker_extras(**a) + marker_extras(**b)) =~= e0 + marker_extras(
                    **a,
                ) + marker_extras(**b));
            }
        },
        MarkerExpr::Or(a, b) => {
            let ghost e0 = views(extras@);
            load_extras(extras, a);
            load_extras(extras, b);
            proof {
                assert(views(extras@) =~= e0 + marker_extras(**a) + marker_extras(**b));
                assert(e0 + (marker_extras(**a) + marker_extras(**b)) =~= e0 + marker_extras(
                    **a,
                ) + marker_extras(**b));
            }
        },
        MarkerExpr::Operator(l, op, r) => {
            match (l, op, r) {
                (MarkerVar::Extra, MarkerOp::Comparator(MarkerComparator::Eq), MarkerVar::Str(s)) => {
                    extras.push(s.clone());
                    proof {
                        assert(views(extras@) =~= views(old(extras)@) + marker_extras(*m));
                    }
                },
                (MarkerVar::Str(s), MarkerOp::Comparator(MarkerComparator::Eq), MarkerVar::Extra) => {
                    extras.push(s.clone());
                    proof {
                        assert(views(extras@) =~= views(old(extras)@) + marker_extras(*m));
                    }
                },
                _ => {
                    proof {
                        assert(views(extras@) + Seq::<Seq<char>>::empty() =~= views(extras@));
                    }
                },
            }
        },
    }
}

// ---------------------------------------------------------------------------
// The dependency sets of an interpreted-language package.
// ---------------------------------------------------------------------------

/// The dependencies an interpreted-language package declares: the always
/// installed set, and one set per named optional-dependency group.
pub struct PythonDependencies {
    pub always: Vec<String>,
    pub optional: Vec<(String, Vec<String>)>,
}

/// The group names of the optional sets.
pub open spec fn group_keys(v: Seq<(String, Vec<String>)>) -> Seq<Seq<char>> {
    v.map_values(|e: (String, Vec<String>)| e.0@)
}

/// The view of the optional sets: each group name with its names.
pub open spec fn group_views(v: Seq<(String, Vec<String>)>) -> Seq<(Seq<char>, Seq<Seq<char>>)> {
    v.map_values(|e: (String, Vec<String>)| (e.0@, name_views(e.1@)))
}

/// Whether a grouped map is sorted by key with each set sorted.
pub open spec fn groups_wf(v: Seq<(Seq<char>, Seq<Seq<char>>)>) -> bool {
    &&& (forall|i: int, j: int| 0 <= i < j < v.len() ==> lex_lt(v[i].0, v[j].0))
    &&& (forall|i: int| 0 <= i < v.len() ==> ordered(#[trigger] v[i].1))
}

impl PythonDependencies {
    /// Both levels sorted and duplicate-free.
    pub open spec fn wf(&self) -> bool {
        &&& ordered(name_views(self.always@))
        &&& groups_wf(group_views(self.optional@))
    }

    pub fn new() -> (r: PythonDependencies)
        ensures
            r.wf(),
            r.always@.len() == 0,
            r.optional@.len() == 0,
    {
        PythonDependencies { always: Vec::new(), optional: Vec::new() }
    }

    /// Whether nothing was declared.
    pub fn is_empty(&self) -> (r: bool)
        ensures
            r == (self.always@.len() == 0 && self.optional@.len() == 0),
    {
        self.always.len() == 0 && self.optional.len() == 0
    }
}

impl Default for PythonDependencies {
    fn default() -> (r: PythonDependencies)
        ensures
            r.wf(),
            r.always@.len() == 0,
            r.optional@.len() == 0,
    {
        PythonDependencies::new()
    }
}

/// Where filing a name under a group leaves the grouped map: the group's set
/// gains the name; a new group is put in key order.
pub open spec fn group_insert_view(
    m: Seq<(Seq<char>, Seq<Seq<char>>)>,
    k: Seq<char>,
    name: Seq<char>,
) -> Seq<(Seq<char>, Seq<Seq<char>>)>
    decreases m.len(),
{
    if m.len() == 0 {
        seq![(k, seq![name])]
    } else if lex_lt(m[0].0, k) {
        seq![m[0]] + group_insert_view(m.skip(1), k, name)
    } else if m[0].0 == k {
        seq![(m[0].0, sorted_insert_view(m[0].1, name))] + m.skip(1)
    } else {
        seq![(k, seq![name])] + m
    }
}

/// Where the exec scan stops, the spec insertion acts.
proof fn lemma_group_insert_at(
    m: Seq<(Seq<char>, Seq<Seq<char>>)>,
    k: Seq<char>,
    name: Seq<char>,
    i: int,
)
    requires
        0 <= i <= m.len(),
        forall|j: int| 0 <= j < i ==> lex_lt(#[trigger] m[j].0, k),
        i < m.len() ==> !lex_lt(m[i].0, k),
    ensures
        i < m.len() && m[i].0 == k ==> group_insert_view(m, k, name) =~= m.take(i) + seq![
            (m[i].0, sorted_insert_view(m[i].1, name)),
        ] + m.skip(i + 1),
        !(i < m.len() && m[i].0 == k) ==> group_insert_view(m, k, name) =~= m.take(i) + seq![
            (k, seq![name]),
        ] + m.skip(i),
    decreases i,
{
    if i == 0 {
        if m.len() == 0 {
            assert(group_insert_view(m, k, name) =~= m.take(0) + seq![(k, seq![name])] + m.skip(
                0,
            ));
        } else if !lex_lt(m[0].0, k) {
            if m[0].0 == k {
                assert(group_insert_view(m, k, name) =~= m.take(0) + seq![
                    (m[0].0, sorted_insert_view(m[0].1, name)),
                ] + m.skip(1));
            } else {
                assert(group_insert_view(m, k, name) =~= m.take(0) + seq![(k, seq![name])]
                    + m.skip(0));
            }
        }
    } else {
        assert(lex_lt(m[0].0, k));
        assert(forall|j: int| 0 <= j < i - 1 ==> #[trigger] m.skip(1)[j] == m[j + 1]);
        if i < m.len() {
            assert(m.skip(1)[i - 1] == m[i]);
        }
        lemma_group_insert_at(m.skip(1), k, name, i - 1);
        assert(group_insert_view(m, k, name) == seq![m[0]] + group_insert_view(
            m.skip(1),
            k,
            name,
        ));
        if i < m.len() && m[i].0 == k {
            assert(m.skip(1).take(i - 1) =~= m.take(i).skip(1));
            assert(m.skip(1).skip(i) =~= m.skip(i + 1));
            assert(group_insert_view(m, k, name) =~= m.take(i) + seq![
                (m[i].0, sorted_insert_view(m[i].1, name)),
            ] + m.skip(i + 1));
        } else {
            assert(m.skip(1).take(i - 1) =~= m.take(i).skip(1));
            assert(m.skip(1).skip(i - 1) =~= m.skip(i));
            assert(group_insert_view(m, k, name) =~= m.take(i) + seq![(k, seq![name])] + m.skip(
                i,
            ));
        }
    }
}

/// Files a name under a named optional group, keeping both levels sorted.
pub fn group_insert(v: &mut Vec<(String, Vec<String>)>, key: &str, name: &str)
    requires
        groups_wf(group_views(old(v)@)),
    ensures
        groups_wf(group_views(final(v)@)),
        group_views(final(v)@) == group_insert_view(group_views(old(v)@), key@, name@),
{
    let ghost orig = group_views(v@);
    let n = v.len();
    let mut i: usize = 0;
    while i < n && str_lt(v[i].0.as_str(), key)
        invariant
            n == v@.len(),
            orig == group_views(v@),
            i <= n,
            forall|j: int| 0 <= j < i ==> lex_lt(#[trigger] orig[j].0, key@),
        decreases n - i,
    {
        proof {
            assert(orig[i as int].0 == v@[i as int].0@);
        }
        i += 1;
    }
    proof {
        if i < n {
            assert(orig[i as int].0 == v@[i as int].0@);
        }
        lemma_group_insert_at(orig, key@, name@, i as int);
    }
    if i < n && str_eq(v[i].0.as_str(), key) {
        let mut entry = v.remove(i);
        sorted_insert(&mut entry.1, name);
        let ghost eview = (entry.0@, name_views(entry.1@));
        v.insert(i, entry);
        proof {
            assert(group_views(v@) =~= orig.take(i as int) + seq![
                (orig[i as int].0, sorted_insert_view(orig[i as int].1, name@)),
            ] + orig.skip(i + 1));
            assert(groups_wf(group_views(v@))) by {
                lemma_sorted_insert_ordered(orig[i as int].1, name@);
                assert(forall|p: int|
                    0 <= p < group_views(v@).len() && p != i ==> #[trigger] group_views(v@)[p]
                        == orig[p]);
                assert(group_views(v@)[i as int].0 == orig[i as int].0);
            }
        }
    } else {
        let mut fresh: Vec<String> = Vec::new();
        fresh.push(name.to_owned());
        proof {
            assert(name_views(fresh@) =~= seq![name@]);
        }
        v.insert(i, (key.to_owned(), fresh));
        proof {
            assert(group_views(v@) =~= orig.take(i as int) + seq![(key@, seq![name@])] + orig.skip(
                i as int,
            ));
            assert(groups_wf(group_views(v@))) by {
                assert forall|p: int, q: int|
                    0 <= p < q < group_views(v@).len() implies lex_lt(
                    group_views(v@)[p].0,
                    group_views(v@)[q].0,
                ) by {
                    let gp = group_views(v@);
                    if p < i && q == i {
                        assert(gp[p] == orig[p]);
                    } else if p == i && q > i {
                        assert(gp[q] == orig[q - 1]);
                        lemma_lex_lt_total(key@, orig[q - 1].0);
                        if orig[q - 1].0 == key@ {
                            assert(false) by {
                                if q - 1 >= i {
                                    assert(!lex_lt(orig[i as int].0, key@));
                                    if q - 1 > i {
                                        assert(lex_lt(orig[i as int].0, orig[q - 1].0));
                                    }
                                }
                            }
                        }
                        if lex_lt(orig[q - 1].0, key@) {
                            if q - 1 == i {
                            } else {
                                assert(lex_lt(orig[i as int].0, orig[q - 1].0));
                                lemma_lex_lt_transitive(orig[i as int].0, orig[q - 1].0, key@);
                            }
                        }
                    } else if p < i && q > i {
                        assert(gp[p] == orig[p] && gp[q] == orig[q - 1]);
                        if p == q - 1 {
                            lemma_lex_lt_irreflexive(orig[p].0);
                            assert(lex_lt(orig[p].0, key@));
                            lemma_lex_lt_total(orig[p].0, orig[q - 1].0);
                        } else {
                            assert(lex_lt(orig[p].0, orig[q - 1].0));
                        }
                    } else if p < i && q < i {
                        assert(gp[p] == orig[p] && gp[q] == orig[q]);
                    } else if p > i && q > i {
                        assert(gp[p] == orig[p - 1] && gp[q] == orig[q - 1]);
                    }
                }
                assert forall|p: int|
                    0 <= p < group_views(v@).len() implies ordered(
                    #[trigger] group_views(v@)[p].1,
                ) by {
                    if p < i {
                        assert(group_views(v@)[p] == orig[p]);
                    } else if p > i {
                        assert(group_views(v@)[p] == orig[p - 1]);
                    } else {
                        assert(group_views(v@)[p].1 =~= seq![name@]);
                    }
                }
            }
        }
    }
}

/// Where making sure a group exists leaves the grouped map: a new empty
/// group in key order, nothing changed when it is already there.
pub open spec fn group_touch_view(m: Seq<(Seq<char>, Seq<Seq<char>>)>, k: Seq<char>) -> Seq<
    (Seq<char>, Seq<Seq<char>>),
>
    decreases m.len(),
{
    if m.len() == 0 {
        seq![(k, Seq::empty())]
    } else if lex_lt(m[0].0, k) {
        seq![m[0]] + group_touch_view(m.skip(1), k)
    } else if m[0].0 == k {
        m
    } else {
        seq![(k, Seq::empty())] + m
    }
}

/// Where the exec scan stops, the spec touch acts.
proof fn lemma_group_touch_at(m: Seq<(Seq<char>, Seq<Seq<char>>)>, k: Seq<char>, i: int)
    requires
        0 <= i <= m.len(),
        forall|j: int| 0 <= j < i ==> lex_lt(#[trigger] m[j].0, k),
        i < m.len() ==> !lex_lt(m[i].0, k),
    ensures
        i < m.len() && m[i].0 == k ==> group_touch_view(m, k) == m,
        !(i < m.len() && m[i].0 == k) ==> group_touch_view(m, k) =~= m.take(i) + seq![
            (k, Seq::<Seq<char>>::empty()),
        ] + m.skip(i),
    decreases i,
{
    if i == 0 {
        if m.len() == 0 {
            assert(group_touch_view(m, k) =~= m.take(0) + seq![(k, Seq::<Seq<char>>::empty())]
                + m.skip(0));
        } else if !lex_lt(m[0].0, k) && m[0].0 != k {
            assert(group_touch_view(m, k) =~= m.take(0) + seq![(k, Seq::<Seq<char>>::empty())]
                + m.skip(0));
        }
    } else {
        assert(lex_lt(m[0].0, k));
        assert(forall|j: int| 0 <= j < i - 1 ==> #[trigger] m.skip(1)[j] == m[j + 1]);
        if i < m.len() {
            assert(m.skip(1)[i - 1] == m[i]);
        }
        lemma_group_touch_at(m.skip(1), k, i - 1);
        assert(group_touch_view(m, k) == seq![m[0]] + group_touch_view(m.skip(1), k));
        if i < m.len() && m[i].0 == k {
            assert(seq![m[0]] + m.skip(1) =~= m);
        } else {
            assert(m.skip(1).take(i - 1) =~= m.take(i).skip(1));
            assert(m.skip(1).skip(i - 1) =~= m.skip(i));
            assert(group_touch_view(m, k) =~= m.take(i) + seq![(k, Seq::<Seq<char>>::empty())]
                + m.skip(i));
        }
    }
}

/// Makes sure a named optional group exists, empty if new, keeping the keys
/// sorted.
pub fn group_touch(v: &mut Vec<(String, Vec<String>)>, key: &str)
    requires
        groups_wf(group_views(old(v)@)),
    ensures
        groups_wf(group_views(final(v)@)),
        group_views(final(v)@) == group_touch_view(group_views(old(v)@), key@),
{
    let ghost orig = group_views(v@);
    let n = v.len();
    let mut i: usize = 0;
    while i < n && str_lt(v[i].0.as_str(), key)
        invariant
            n == v@.len(),
            orig == group_views(v@),
            i <= n,
            forall|j: int| 0 <= j < i ==> lex_lt(#[trigger] orig[j].0, key@),
        decreases n - i,
    {
        proof {
            assert(orig[i as int].0 == v@[i as int].0@);
        }
        i += 1;
    }
    proof {
        if i < n {
            assert(orig[i as int].0 == v@[i as int].0@);
        }
        lemma_group_touch_at(orig, key@, i as int);
    }
    if i < n && str_eq(v[i].0.as_str(), key) {
        return ;
    }
    let fresh: Vec<String> = Vec::new();
    proof {
        assert(name_views(fresh@) =~= Seq::<Seq<char>>::empty());
    }
    v.insert(i, (key.to_owned(), fresh));
    proof {
        assert(group_views(v@) =~= orig.take(i as int) + seq![
            (key@, Seq::<Seq<char>>::empty()),
        ] + orig.skip(i as int));
        assert(groups_wf(group_views(v@))) by {
            assert forall|p: int, q: int|
                0 <= p < q < group_views(v@).len() implies lex_lt(
                group_views(v@)[p].0,
                group_views(v@)[q].0,
            ) by {
                let gp = group_views(v@);
                if p < i && q == i {
                    assert(gp[p] == orig[p]);
                } else if p == i && q > i {
                    assert(gp[q] == orig[q - 1]);
                    lemma_lex_lt_total(key@, orig[q - 1].0);
                    if orig[q - 1].0 == key@ {
                        assert(false) by {
                            if q - 1 > i {
                                assert(lex_lt(orig[i as int].0, orig[q - 1].0));
                            }
                        }
                    }
                    if lex_lt(orig[q - 1].0, key@) {
                        if q - 1 == i {
                        } else {
                            assert(lex_lt(orig[i as int].0, orig[q - 1].0));
                            lemma_lex_lt_transitive(orig[i as int].0, orig[q - 1].0, key@);
                        }
                    }
                } else if p < i && q > i {
                    assert(gp[p] == orig[p] && gp[q] == orig[q - 1]);
                    if p == q - 1 {
                        lemma_lex_lt_irreflexive(orig[p].0);
                        assert(lex_lt(orig[p].0, key@));
                        lemma_lex_lt_total(orig[p].0, orig[q - 1].0);
                    } else {
                        assert(lex_lt(orig[p].0, orig[q - 1].0));
                    }
                } else if p < i && q < i {
                    assert(gp[p] == orig[p] && gp[q] == orig[q]);
                } else if p > i && q > i {
                    assert(gp[p] == orig[p - 1] && gp[q] == orig[q - 1]);
                }
            }
            assert forall|p: int|
                0 <= p < group_views(v@).len() implies ordered(#[trigger] group_views(v@)[p].1) by {
                if p < i {
                    assert(group_views(v@)[p] == orig[p]);
                } else if p > i {
                    assert(group_views(v@)[p] == orig[p - 1]);
                }
            }
        }
    }
}

// ---------------------------------------------------------------------------
// Mapping declared dependencies.
// ---------------------------------------------------------------------------

/// The normalized name a specifier files its dependency under.
pub open spec fn dep_name_view(d: ParsedDependency) -> Seq<char> {
    kebab_of(lower_of(d.name@))
}

/// The extras a specifier's marker names; none without a marker.
pub open spec fn dep_extras_view(d: ParsedDependency) -> Seq<Seq<char>> {
    match d.marker {
        Some(m) => marker_extras(m),
        None => Seq::empty(),
    }
}

/// Filing one name under each of a marker's extras in turn.
pub open spec fn extras_fold(
    m: Seq<(Seq<char>, Seq<Seq<char>>)>,
    ex: Seq<Seq<char>>,
    name: Seq<char>,
) -> Seq<(Seq<char>, Seq<Seq<char>>)>
    decreases ex.len(),
{
    if ex.len() == 0 {
        m
    } else {
        extras_fold(group_insert_view(m, ex[0], name), ex.skip(1), name)
    }
}

/// What one declared specifier does to the sets: an unparseable one nothing,
/// one without extras files its name in the always set, one with extras files
/// it under each extra instead.
pub open spec fn dep_step(
    st: (Seq<Seq<char>>, Seq<(Seq<char>, Seq<Seq<char>>)>),
    s: Seq<char>,
) -> (Seq<Seq<char>>, Seq<(Seq<char>, Seq<Seq<char>>)>) {
    match pep_dep_of(s) {
        None => st,
        Some(d) => {
            if dep_extras_view(d).len() == 0 {
                (sorted_insert_view(st.0, dep_name_view(d)), st.1)
            } else {
                (st.0, extras_fold(st.1, dep_extras_view(d), dep_name_view(d)))
            }
        },
    }
}

/// The sets a whole list of declared specifiers builds.
pub open spec fn python_deps_fold(
    st: (Seq<Seq<char>>, Seq<(Seq<char>, Seq<Seq<char>>)>),
    xs: Seq<Seq<char>>,
) -> (Seq<Seq<char>>, Seq<(Seq<char>, Seq<Seq<char>>)>)
    decreases xs.len(),
{
    if xs.len() == 0 {
        st
    } else {
        python_deps_fold(dep_step(st, xs[0]), xs.skip(1))
    }
}

/// Maps declared dependency specifiers onto the always-installed set and the
/// per-extra optional sets.  A specifier the grammar rejects is skipped; it
/// never stops the mapping of those after it.
pub fn get_python_dependencies(xs: &Vec<String>) -> (r: PythonDependencies)
    ensures
        r.wf(),
        (name_views(r.always@), group_views(r.optional@)) == python_deps_fold(
            (Seq::<Seq<char>>::empty(), Seq::<(Seq<char>, Seq<Seq<char>>)>::empty()),
            views(xs@),
        ),
{
    let ghost all = views(xs@);
    let ghost st0 = (Seq::<Seq<char>>::empty(), Seq::<(Seq<char>, Seq<Seq<char>>)>::empty());
    let mut deps = PythonDependencies::new();
    let n = xs.len();
    let mut i: usize = 0;
    proof {
        assert(all.skip(0) =~= all);
        assert(name_views(deps.always@) =~= st0.0);
        assert(group_views(deps.optional@) =~= st0.1);
    }
    while i < n
        invariant
            n == xs@.len(),
            all == views(xs@),
            i <= n,
            deps.wf(),
            python_deps_fold(st0, all) == python_deps_fold(
                (name_views(deps.always@), group_views(deps.optional@)),
                all.skip(i as int),
            ),
        decreases n - i,
    {
        let ghost rest = all.skip(i as int);
        proof {
            assert(rest[0] == all[i as int]);
            assert(rest.skip(1) =~= all.skip(i + 1));
        }
        let ghost stpre = (name_views(deps.always@), group_views(deps.optional@));
        if let Some(dep) = parse_pep_dependency(xs[i].as_str()) {
            let mut extras: Vec<String> = Vec::new();
            if let Some(marker) = &dep.marker {
                load_extras(&mut extras, marker);
            }
            proof {
                assert(views(extras@) =~= dep_extras_view(dep));
            }
            let lowered = to_lowercase_str(dep.name.as_str());
            let name = to_kebab_str(lowered.as_str());
            proof {
                assert(name@ == dep_name_view(dep));
            }
            if extras.len() == 0 {
                sorted_insert(&mut deps.always, name.as_str());
                proof {
                    assert(dep_step(stpre, rest[0]) == (
                        sorted_insert_view(stpre.0, dep_name_view(dep)),
                        stpre.1,
                    ));
                }
            } else {
                let ghost exs = views(extras@);
                let m = extras.len();
                let mut j: usize = 0;
                proof {
                    assert(exs.skip(0) =~= exs);
                }
                while j < m
                    invariant
                        m == extras@.len(),
                        exs == views(extras@),
                        j <= m,
                        name@ == dep_name_view(dep),
                        deps.wf(),
                        name_views(deps.always@) == stpre.0,
                        extras_fold(stpre.1, exs, name@) == extras_fold(
                            group_views(deps.optional@),
                            exs.skip(j as int),
                            name@,
                        ),
                    decreases m - j,
                {
                    proof {
                        assert(exs.skip(j as int)[0] == exs[j as int]);
                        assert(exs.skip(j as int).skip(1) =~= exs.skip(j + 1));
                    }
                    group_insert(&mut deps.optional, extras[j].as_str(), name.as_str());
                    j += 1;
                }
                proof {
                    assert(exs.skip(m as int).len() == 0);
                    assert(dep_step(stpre, rest[0]) == (
                        stpre.0,
                        extras_fold(stpre.1, dep_extras_view(dep), dep_name_view(dep)),
                    ));
                }
            }
        }
        i += 1;
    }
    proof {
        assert(all.skip(n as int).len() == 0);
    }
    deps
}

/// Law (mapping partiality): a dependency specifier the grammar rejects
/// contributes nothing; mapping a list with such a specifier anywhere in it
/// builds the same sets as mapping the list without it.
pub proof fn lemma_unparsed_dep_skipped(
    st: (Seq<Seq<char>>, Seq<(Seq<char>, Seq<Seq<char>>)>),
    xs: Seq<Seq<char>>,
    i: int,
    bad: Seq<char>,
)
    requires
        0 <= i <= xs.len(),
        pep_dep_of(bad) is None,
    ensures
        python_deps_fold(st, xs.take(i) + seq![bad] + xs.skip(i)) == python_deps_fold(st, xs),
    decreases i,
{
    let with_bad = xs.take(i) + seq![bad] + xs.skip(i);
    if i == 0 {
        assert(with_bad =~= seq![bad] + xs);
        assert(with_bad[0] == bad);
        assert(dep_step(st, bad) == st);
        assert(with_bad.skip(1) =~= xs);
    } else {
        assert(xs.len() > 0);
        assert(with_bad[0] == xs[0]);
        assert(with_bad.skip(1) =~= xs.skip(1).take(i - 1) + seq![bad] + xs.skip(1).skip(i - 1))
            by {
            assert(forall|p: int| 0 <= p < i - 1 ==> #[trigger] xs.skip(1).take(i - 1)[p] == xs[p
                + 1]);
            assert(forall|p: int|
                0 <= p < xs.len() - i ==> #[trigger] xs.skip(1).skip(i - 1)[p] == xs[p + i]);
        }
        lemma_unparsed_dep_skipped(dep_step(st, xs[0]), xs.skip(1), i - 1, bad);
    }
}

/// Maps the lines of a plain requirement list: each line is one declared
/// specifier, and a line the grammar rejects — a comment, a blank — is
/// skipped.
pub fn parse_requirements_txt(lines: &Vec<String>) -> (r: PythonDependencies)
    ensures
        r.wf(),
        (name_views(r.always@), group_views(r.optional@)) == python_deps_fold(
            (Seq::<Seq<char>>::empty(), Seq::<(Seq<char>, Seq<Seq<char>>)>::empty()),
            views(lines@),
        ),
{
    get_python_dependencies(lines)
}

// ---------------------------------------------------------------------------
// The loose normalizer for single declared names.
// ---------------------------------------------------------------------------

/// The tail of a loosely normalized name: letters lowered, one separator at a
/// time turned into a dash when a letter follows, anything else ending the
/// name.
pub open spec fn norm_tail(s: Seq<char>) -> Seq<char>
    decreases s.len(),
{
    if s.len() == 0 {
        Seq::empty()
    } else if alpha_char(s[0]) {
        seq![ascii_lower_char(s[0])] + norm_tail(s.skip(1))
    } else if s[0] == '-' || s[0] == '.' || s[0] == '_' {
        if s.len() >= 2 && alpha_char(s[1]) {
            seq!['-', ascii_lower_char(s[1])] + norm_tail(s.skip(2))
        } else {
            Seq::empty()
        }
    } else {
        Seq::empty()
    }
}

/// What loosely reading a declared dependency yields: the lowered letters of
/// its leading name, separators dashed; nothing when no letter starts it.
pub open spec fn python_dep_view(s: Seq<char>) -> Option<Seq<char>> {
    let t = trim_start_view(s);
    if t.len() == 0 {
        None
    } else if !alpha_char(t[0]) {
        None
    } else {
        Some(seq![ascii_lower_char(t[0])] + norm_tail(t.skip(1)))
    }
}

/// Reads the leading package name out of one loosely declared dependency:
/// letters lowered, separators turned into dashes, everything from the first
/// version constraint or marker on ignored.
pub fn get_python_dependency(dep: &str) -> (r: Option<String>)
    ensures
        match r {
            Some(name) => python_dep_view(dep@) == Some(name@),
            None => python_dep_view(dep@) is None,
        },
{
    let t = trim_start_str(dep);
    let tlen = t.unicode_len();
    if tlen == 0 {
        return None;
    }
    let c0 = t.get_char(0);
    if !c0.is_alphabetic() {
        return None;
    }
    let mut name = String::new();
    name.push(to_lower_char(c0));
    let ghost full = seq![ascii_lower_char(t@[0])] + norm_tail(t@.skip(1));
    let mut i: usize = 1;
    proof {
        assert(name@ =~= seq![ascii_lower_char(t@[0])]);
        assert(full =~= name@ + norm_tail(t@.skip(1)));
    }
    loop
        invariant
            tlen == t@.len(),
            1 <= i <= tlen,
            t@ == trim_start_view(dep@),
            alpha_char(t@[0]),
            full == seq![ascii_lower_char(t@[0])] + norm_tail(t@.skip(1)),
            full == name@ + norm_tail(t@.skip(i as int)),
        decreases tlen - i,
    {
        let ghost rest = t@.skip(i as int);
        if i >= tlen {
            proof {
                assert(rest.len() == 0);
                assert(norm_tail(rest) =~= Seq::<char>::empty());
                assert(name@ + Seq::<char>::empty() =~= name@);
            }
            return Some(name);
        }
        proof {
            assert(rest[0] == t@[i as int]);
            assert(rest.skip(1) =~= t@.skip(i + 1));
        }
        let c = t.get_char(i);
        if c.is_alphabetic() {
            name.push(to_lower_char(c));
            proof {
                assert(norm_tail(rest) == seq![ascii_lower_char(rest[0])] + norm_tail(
                    rest.skip(1),
                ));
                assert(name@ + norm_tail(t@.skip(i + 1)) =~= name@.drop_last() + norm_tail(rest));
            }
            i += 1;
        } else if c == '-' || c == '.' || c == '_' {
            if i + 1 < tlen {
                let c2 = t.get_char(i + 1);
                if c2.is_alphabetic() {
                    proof {
                        assert(rest.len() >= 2);
                        assert(rest[1] == t@[i + 1]);
                        assert(rest.skip(2) =~= t@.skip(i + 2));
                        assert(norm_tail(rest) == seq!['-', ascii_lower_char(rest[1])]
                            + norm_tail(rest.skip(2)));
                    }
                    name.push('-');
                    name.push(to_lower_char(c2));
                    proof {
                        assert(name@ + norm_tail(t@.skip(i + 2)) =~= name@.drop_last().drop_last()
                            + norm_tail(rest));
                    }
                    i += 2;
                } else {
                    proof {
                        assert(norm_tail(rest) =~= Seq::<char>::empty());
                        assert(name@ + Seq::<char>::empty() =~= name@);
                    }
                    return Some(name);
                }
            } else {
                proof {
                    assert(rest.len() == 1);
                    assert(norm_tail(rest) =~= Seq::<char>::empty());
                    assert(name@ + Seq::<char>::empty() =~= name@);
                }
                return Some(name);
            }
        } else {
            proof {
                assert(norm_tail(rest) =~= Seq::<char>::empty());
                assert(name@ + Seq::<char>::empty() =~= name@);
            }
            return Some(name);
        }
    }
}

// ---------------------------------------------------------------------------
// The interpreted-language project descriptor.
// ---------------------------------------------------------------------------

/// The build backends a project descriptor declares; without a declaration
/// the conventional backend stands in.
pub struct BuildSystem {
    pub requires: Vec<String>,
}

impl BuildSystem {
    /// The conventional backend assumed when none is declared.
    pub fn default_requires() -> (r: Vec<String>)
        ensures
            views(r@) =~= seq!["setuptools"@],
    {
        let mut v: Vec<String> = Vec::new();
        v.push("setuptools".to_owned());
        v
    }
}

impl Default for BuildSystem {
    fn default() -> (r: BuildSystem)
        ensures
            views(r.requires@) =~= seq!["setuptools"@],
    {
        BuildSystem { requires: BuildSystem::default_requires() }
    }
}

/// What a project descriptor declares, as plain values: the modern project
/// table, the poetry tool table, and the build backends.
pub struct Pyproject {
    pub project_name: Option<String>,
    pub project_license: Option<String>,
    pub project_dependencies: Option<Vec<String>>,
    pub project_optional_dependencies: Option<Vec<(String, Vec<String>)>>,
    pub poetry_name: Option<String>,
    pub poetry_license: Option<String>,
    pub poetry_dependencies: Option<Vec<(String, bool)>>,
    pub poetry_extras: Vec<(String, Vec<String>)>,
    pub build_system: BuildSystem,
}

/// The input name a build backend is requested under: the vendoring hook for
/// the one that builds compiled extensions, the interpreter's package set for
/// an application, the plain name for a library.
pub open spec fn build_dep_name(s: Seq<char>, application: bool) -> Option<Seq<char>> {
    match pep_dep_of(s) {
        None => None,
        Some(d) => Some(
            if d.name@ == "maturin"@ {
                "rustPlatform.maturinBuildHook"@
            } else if application {
                "python3.pkgs."@ + kebab_of(lower_of(d.name@))
            } else {
                kebab_of(d.name@)
            },
        ),
    }
}

/// The always bucket after filing every declared backend.
pub open spec fn build_deps_fold(cur: Seq<Seq<char>>, xs: Seq<Seq<char>>, application: bool)
    -> Seq<Seq<char>>
    decreases xs.len(),
{
    if xs.len() == 0 {
        cur
    } else {
        build_deps_fold(
            match build_dep_name(xs[0], application) {
                Some(n) => sorted_insert_view(cur, n),
                None => cur,
            },
            xs.skip(1),
            application,
        )
    }
}

/// The always set after filing a poetry dependency table: every
/// non-optional entry but the interpreter itself, its name lowered and
/// kebab-cased.
pub open spec fn poetry_always_fold(cur: Seq<Seq<char>>, deps: Seq<(Seq<char>, bool)>) -> Seq<
    Seq<char>,
>
    decreases deps.len(),
{
    if deps.len() == 0 {
        cur
    } else {
        poetry_always_fold(
            if deps[0].0 == "python"@ || deps[0].1 {
                cur
            } else {
                sorted_insert_view(cur, kebab_of(lower_of(deps[0].0)))
            },
            deps.skip(1),
        )
    }
}

/// The views of a poetry dependency table.
pub open spec fn poetry_dep_views(v: Seq<(String, bool)>) -> Seq<(Seq<char>, bool)> {
    v.map_values(|e: (String, bool)| (e.0@, e.1))
}

/// One group's names filed one by one.
pub open spec fn group_names_fold(
    m: Seq<(Seq<char>, Seq<Seq<char>>)>,
    k: Seq<char>,
    names: Seq<Seq<char>>,
) -> Seq<(Seq<char>, Seq<Seq<char>>)>
    decreases names.len(),
{
    if names.len() == 0 {
        m
    } else {
        group_names_fold(group_insert_view(m, k, names[0]), k, names.skip(1))
    }
}

/// A whole raw extras table filed group by group.
pub open spec fn groups_rebuild(
    m: Seq<(Seq<char>, Seq<Seq<char>>)>,
    entries: Seq<(Seq<char>, Seq<Seq<char>>)>,
) -> Seq<(Seq<char>, Seq<Seq<char>>)>
    decreases entries.len(),
{
    if entries.len() == 0 {
        m
    } else {
        groups_rebuild(
            group_names_fold(group_touch_view(m, entries[0].0), entries[0].0, entries[0].1),
            entries.skip(1),
        )
    }
}

/// One declared optional table filed: each group's specifiers parsed and
/// their names filed under the group, rejected ones skipped.
pub open spec fn opt_specs_fold(
    m: Seq<(Seq<char>, Seq<Seq<char>>)>,
    k: Seq<char>,
    specs: Seq<Seq<char>>,
) -> Seq<(Seq<char>, Seq<Seq<char>>)>
    decreases specs.len(),
{
    if specs.len() == 0 {
        m
    } else {
        opt_specs_fold(
            match pep_dep_of(specs[0]) {
                Some(d) => group_insert_view(m, k, kebab_of(lower_of(d.name@))),
                None => m,
            },
            k,
            specs.skip(1),
        )
    }
}

/// A whole declared optional table filed.
pub open spec fn opt_table_fold(
    m: Seq<(Seq<char>, Seq<Seq<char>>)>,
    entries: Seq<(Seq<char>, Seq<Seq<char>>)>,
) -> Seq<(Seq<char>, Seq<Seq<char>>)>
    decreases entries.len(),
{
    if entries.len() == 0 {
        m
    } else {
        opt_table_fold(
            opt_specs_fold(group_touch_view(m, entries[0].0), entries[0].0, entries[0].1),
            entries.skip(1),
        )
    }
}

/// Files one group's raw names.
fn group_insert_names(m: &mut Vec<(String, Vec<String>)>, key: &str, names: &Vec<String>)
    requires
        groups_wf(group_views(old(m)@)),
    ensures
        groups_wf(group_views(final(m)@)),
        group_views(final(m)@) == group_names_fold(group_views(old(m)@), key@, views(names@)),
{
    let ghost ns = views(names@);
    let n = names.len();
    let mut i: usize = 0;
    proof {
        assert(ns.skip(0) =~= ns);
    }
    while i < n
        invariant
            n == names@.len(),
            ns == views(names@),
            i <= n,
            groups_wf(group_views(m@)),
            group_names_fold(group_views(old(m)@), key@, ns) == group_names_fold(
                group_views(m@),
                key@,
                ns.skip(i as int),
            ),
        decreases n - i,
    {
        proof {
            assert(ns.skip(i as int)[0] == ns[i as int]);
            assert(ns.skip(i as int).skip(1) =~= ns.skip(i + 1));
        }
        group_insert(m, key, names[i].as_str());
        i += 1;
    }
    proof {
        assert(ns.skip(n as int).len() == 0);
    }
}

impl Pyproject {
    /// The declared package name, the modern table's first; taking it leaves
    /// none behind.
    pub fn get_name(&mut self) -> (r: Option<String>)
        ensures
            r == (if old(self).project_name is Some {
                old(self).project_name
            } else {
                old(self).poetry_name
            }),
            final(self).project_name is None,
            old(self).project_name is Some ==> final(self).poetry_name == old(self).poetry_name,
            old(self).project_name is None ==> final(self).poetry_name is None,
    {
        let n = self.project_name.take();
        if n.is_some() {
            n
        } else {
            self.poetry_name.take()
        }
    }

    /// The license text a descriptor hints at, the modern table's first.
    pub fn license_hint(&self) -> (r: Option<&String>)
        ensures
            r == (if self.project_license is Some {
                match self.project_license {
                    Some(ref l) => Some(l),
                    None => None,
                }
            } else {
                match self.poetry_license {
                    Some(ref l) => Some(l),
                    None => None,
                }
            }),
    {
        match &self.project_license {
            Some(l) => Some(l),
            None => {
                match &self.poetry_license {
                    Some(l) => Some(l),
                    None => None,
                }
            },
        }
    }

    /// Files the declared build backends among the native build inputs: the
    /// compiled-extension backend as its vendoring hook, the others under
    /// the interpreter's package set for an application, plainly for a
    /// library.
    pub fn load_build_dependencies(&self, inputs: &mut AllInputs, application: bool)
        requires
            old(inputs).wf(),
        ensures
            final(inputs).wf(),
            final(inputs).native_build_inputs.bucket_view(Bucket::Always) == build_deps_fold(
                old(inputs).native_build_inputs.bucket_view(Bucket::Always),
                views(self.build_system.requires@),
                application,
            ),
            forall|c: Bucket|
                c != Bucket::Always ==> final(inputs).native_build_inputs.bucket_view(c) == old(
                    inputs,
                ).native_build_inputs.bucket_view(c),
            final(inputs).build_inputs == old(inputs).build_inputs,
            final(inputs).env == old(inputs).env,
    {
        let ghost xs = views(self.build_system.requires@);
        let n = self.build_system.requires.len();
        let mut i: usize = 0;
        proof {
            assert(xs.skip(0) =~= xs);
        }
        while i < n
            invariant
                n == self.build_system.requires@.len(),
                xs == views(self.build_system.requires@),
                i <= n,
                inputs.wf(),
                build_deps_fold(
                    old(inputs).native_build_inputs.bucket_view(Bucket::Always),
                    xs,
                    application,
                ) == build_deps_fold(
                    inputs.native_build_inputs.bucket_view(Bucket::Always),
                    xs.skip(i as int),
                    application,
                ),
                forall|c: Bucket|
                    c != Bucket::Always ==> inputs.native_build_inputs.bucket_view(c) == old(
                        inputs,
                    ).native_build_inputs.bucket_view(c),
                inputs.build_inputs == old(inputs).build_inputs,
                inputs.env == old(inputs).env,
            decreases n - i,
        {
            proof {
                assert(xs.skip(i as int)[0] == xs[i as int]);
                assert(xs.skip(i as int).skip(1) =~= xs.skip(i + 1));
            }
            if let Some(dep) = parse_pep_dependency(self.build_system.requires[i].as_str()) {
                if str_eq(dep.name.as_str(), "maturin") {
                    inputs.native("rustPlatform.maturinBuildHook");
                } else if application {
                    let lowered = to_lowercase_str(dep.name.as_str());
                    let kebab = to_kebab_str(lowered.as_str());
                    let mut full = String::new();
                    full.append("python3.pkgs.");
                    full.append(kebab.as_str());
                    proof {
                        assert(full@ =~= "python3.pkgs."@ + kebab_of(lower_of(dep.name@)));
                    }
                    inputs.native(full.as_str());
                } else {
                    let kebab = to_kebab_str(dep.name.as_str());
                    inputs.native(kebab.as_str());
                }
            }
            i += 1;
        }
        proof {
            assert(xs.skip(n as int).len() == 0);
        }
    }

    /// The declared dependency sets, when the descriptor declares any: the
    /// poetry table wins, its non-optional entries always installed and its
    /// raw extras kept; else the modern table's list and optional groups; a
    /// descriptor declaring neither yields nothing.  Taking the sets empties
    /// the poetry extras.
    pub fn get_dependencies(&mut self) -> (r: Option<PythonDependencies>)
        ensures
            old(self).poetry_dependencies matches Some(deps) ==> (r matches Some(d) && d.wf()
                && name_views(d.always@) == poetry_always_fold(
                Seq::empty(),
                poetry_dep_views(deps@),
            ) && group_views(d.optional@) == groups_rebuild(
                Seq::empty(),
                group_views(old(self).poetry_extras@),
            )),
            old(self).project_dependencies is Some && old(self).poetry_dependencies is None
                && old(self).project_optional_dependencies is None ==> (r matches Some(d)
                && d.wf() && (name_views(d.always@), group_views(d.optional@))
                == python_deps_fold(
                (Seq::<Seq<char>>::empty(), Seq::<(Seq<char>, Seq<Seq<char>>)>::empty()),
                views((old(self).project_dependencies->Some_0)@),
            )),
            old(self).project_optional_dependencies is Some && old(
                self,
            ).poetry_dependencies is None ==> (r matches Some(d) && d.wf() && ({
                let base = match old(self).project_dependencies {
                    Some(always) => python_deps_fold(
                        (Seq::<Seq<char>>::empty(), Seq::<(Seq<char>, Seq<Seq<char>>)>::empty()),
                        views(always@),
                    ),
                    None => (Seq::<Seq<char>>::empty(), Seq::<(Seq<char>, Seq<Seq<char>>)>::empty()),
                };
                &&& name_views(d.always@) == base.0
                &&& group_views(d.optional@) == opt_table_fold(
                    base.1,
                    group_views((old(self).project_optional_dependencies->Some_0)@),
                )
            })),
            old(self).poetry_dependencies is None && old(self).project_dependencies is None && old(
                self,
            ).project_optional_dependencies is None ==> r is None,
    {
        if let Some(deps) = self.poetry_dependencies.take() {
            let mut out = PythonDependencies::new();
            let ghost dv = poetry_dep_views(deps@);
            let n = deps.len();
            let mut i: usize = 0;
            proof {
                assert(dv.skip(0) =~= dv);
                assert(name_views(out.always@) =~= Seq::<Seq<char>>::empty());
            }
            while i < n
                invariant
                    n == deps@.len(),
                    dv == poetry_dep_views(deps@),
                    i <= n,
                    out.wf(),
                    out.optional@.len() == 0,
                    poetry_always_fold(Seq::empty(), dv) == poetry_always_fold(
                        name_views(out.always@),
                        dv.skip(i as int),
                    ),
                decreases n - i,
            {
                proof {
                    assert(dv.skip(i as int)[0] == dv[i as int]);
                    assert(dv.skip(i as int).skip(1) =~= dv.skip(i + 1));
                }
                let entry = &deps[i];
                if !entry.1 && !str_eq(entry.0.as_str(), "python") {
                    let lowered = to_lowercase_str(entry.0.as_str());
                    let kebab = to_kebab_str(lowered.as_str());
                    sorted_insert(&mut out.always, kebab.as_str());
                }
                i += 1;
            }
            proof {
                assert(dv.skip(n as int).len() == 0);
            }
            let ghost ev = group_views(self.poetry_extras@);
            let m = self.poetry_extras.len();
            let mut j: usize = 0;
            proof {
                assert(ev.skip(0) =~= ev);
                assert(group_views(out.optional@) =~= Seq::<(Seq<char>, Seq<Seq<char>>)>::empty());
            }
            while j < m
                invariant
                    m == self.poetry_extras@.len(),
                    ev == group_views(self.poetry_extras@),
                    j <= m,
                    out.wf(),
                    name_views(out.always@) == poetry_always_fold(Seq::empty(), dv),
                    groups_rebuild(Seq::empty(), ev) == groups_rebuild(
                        group_views(out.optional@),
                        ev.skip(j as int),
                    ),
                decreases m - j,
            {
                proof {
                    assert(ev.skip(j as int)[0] == ev[j as int]);
                    assert(ev.skip(j as int).skip(1) =~= ev.skip(j + 1));
                }
                let entry = &self.poetry_extras[j];
                group_touch(&mut out.optional, entry.0.as_str());
                group_insert_names(&mut out.optional, entry.0.as_str(), &entry.1);
                j += 1;
            }
            proof {
                assert(ev.skip(m as int).len() == 0);
            }
            self.poetry_extras = Vec::new();
            return Some(out);
        }
        let has_optional = self.project_optional_dependencies.is_some();
        if !has_optional {
            match self.project_dependencies.take() {
                Some(always) => {
                    return Some(get_python_dependencies(&always));
                },
                None => {
                    return None;
                },
            }
        }
        let mut out = match self.project_dependencies.take() {
            Some(always) => get_python_dependencies(&always),
            None => PythonDependencies::new(),
        };
        let optional = match self.project_optional_dependencies.take() {
            Some(optional) => optional,
            None => Vec::new(),
        };
        let ghost ov = group_views(optional@);
        let ghost base_always = name_views(out.always@);
        let ghost base_groups = group_views(out.optional@);
        let n = optional.len();
        let mut i: usize = 0;
        proof {
            assert(ov.skip(0) =~= ov);
        }
        while i < n
            invariant
                n == optional@.len(),
                ov == group_views(optional@),
                i <= n,
                out.wf(),
                name_views(out.always@) == base_always,
                opt_table_fold(base_groups, ov) == opt_table_fold(
                    group_views(out.optional@),
                    ov.skip(i as int),
                ),
            decreases n - i,
        {
            proof {
                assert(ov.skip(i as int)[0] == ov[i as int]);
                assert(ov.skip(i as int).skip(1) =~= ov.skip(i + 1));
            }
            let entry = &optional[i];
            group_touch(&mut out.optional, entry.0.as_str());
            let ghost specs = ov[i as int].1;
            let ghost gpre = group_views(out.optional@);
            let m = entry.1.len();
            let mut j: usize = 0;
            proof {
                assert(specs == views(entry.1@));
                assert(specs.skip(0) =~= specs);
            }
            while j < m
                invariant
                    m == entry.1@.len(),
                    specs == views(entry.1@),
                    j <= m,
                    out.wf(),
                    name_views(out.always@) == base_always,
                    opt_specs_fold(gpre, entry.0@, specs) == opt_specs_fold(
                        group_views(out.optional@),
                        entry.0@,
                        specs.skip(j as int),
                    ),
                decreases m - j,
            {
                proof {
                    assert(specs.skip(j as int)[0] == specs[j as int]);
                    assert(specs.skip(j as int).skip(1) =~= specs.skip(j + 1));
                }
                if let Some(dep) = parse_pep_dependency(entry.1[j].as_str()) {
                    let lowered = to_lowercase_str(dep.name.as_str());
                    let kebab = to_kebab_str(lowered.as_str());
                    group_insert(&mut out.optional, entry.0.as_str(), kebab.as_str());
                }
                j += 1;
            }
            proof {
                assert(specs.skip(m as int).len() == 0);
            }
            i += 1;
        }
        proof {
            assert(ov.skip(n as int).len() == 0);
            assert(group_views(out.optional@) == opt_table_fold(base_groups, ov));
            assert(ov == group_views((old(self).project_optional_dependencies->Some_0)@));
            let base = match old(self).project_dependencies {
                Some(always) => python_deps_fold(
                    (Seq::<Seq<char>>::empty(), Seq::<(Seq<char>, Seq<Seq<char>>)>::empty()),
                    views(always@),
                ),
                None => (Seq::<Seq<char>>::empty(), Seq::<(Seq<char>, Seq<Seq<char>>)>::empty()),
            };
            assert(base_always == base.0);
            assert(base_groups == base.1);
        }
        Some(out)
    }
}

} // verus!
