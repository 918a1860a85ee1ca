//! The constraint algebra of package relations and the grammar of
//! dependency fields: groups separated by `,`, alternatives by `|`, each
//! alternative a name with an optional version clause in parentheses.

use crate::number::{decimal, lemma_decimal, lemma_number_of_decimal, number_of, parse_number,
    push_decimal};
use crate::text::{begins_with, chars_of, index_of, is_space, is_whitespace, lead, lead_end,
    lemma_index_of, lemma_index_of_is, lemma_lead_is, lemma_trail_is, position, slice_of, split,
    split_on, string_of, strip_end, strip_start, trim, trim_bounds, views, CharClass};
use vstd::prelude::*;

verus! {

/// Why a piece of control text was refused.
#[derive(Debug, Clone, Copy, PartialEq, Eq)]
pub enum ControlError {
    /// A mandatory field is absent from the paragraph.
    MissingField(Mandatory),
    /// An alternative has no name, or its version clause is neither an
    /// operator followed by a version nor a wildcard.
    MalformedConstraint,
}

/// The fields that every package paragraph must hold.
#[derive(Debug, Clone, Copy, PartialEq, Eq)]
pub enum Mandatory {
    Package,
    Version,
    Maintainer,
}

/// How a constraint compares a package's version with its own.
#[derive(Debug, Clone, Copy, PartialEq, Eq)]
pub enum Operator {
    Exact,
    GreaterThan,
    GreaterOrEqual,
    LessThan,
    LessOrEqual,
}

/// A version as the source text gives it. Its ordering belongs to the
/// versioning library that consumes it; here it is carried verbatim.
#[derive(Debug, Clone)]
pub struct Version {
    pub text: String,
}

impl View for Version {
    type V = Seq<char>;

    open spec fn view(&self) -> Seq<char> {
        self.text@
    }
}

/// The versions that satisfy a dependency.
#[derive(Debug, Clone)]
pub enum VersionConstraint {
    /// Every version.
    Any,
    /// The versions that stand in the given relation to the given one.
    Compare(Operator, Version),
    /// The versions of the given major number, written `{major}.*`.
    WildcardMinor(u64),
    /// The versions of the given major and minor numbers, written
    /// `{major}.{minor}.*`.
    WildcardPatch(u64, u64),
}

/// A constraint over plain sequences of characters.
pub enum ConstraintView {
    Any,
    Compare(Operator, Seq<char>),
    WildcardMinor(u64),
    WildcardPatch(u64, u64),
}

impl View for VersionConstraint {
    type V = ConstraintView;

    open spec fn view(&self) -> ConstraintView {
        match self {
            VersionConstraint::Any => ConstraintView::Any,
            VersionConstraint::Compare(op, v) => ConstraintView::Compare(*op, v@),
            VersionConstraint::WildcardMinor(a) => ConstraintView::WildcardMinor(*a),
            VersionConstraint::WildcardPatch(a, b) => ConstraintView::WildcardPatch(*a, *b),
        }
    }
}

/// One alternative of a dependency group: a package name and the versions
/// of it that will do.
#[derive(Debug, Clone)]
pub struct Dependency {
    pub name: String,
    pub constraint: VersionConstraint,
}

/// One alternative of a dependency group, as plain values.
pub struct DependencyView {
    pub name: Seq<char>,
    pub constraint: ConstraintView,
}

impl View for Dependency {
    type V = DependencyView;

    open spec fn view(&self) -> DependencyView {
        DependencyView { name: self.name@, constraint: self.constraint@ }
    }
}

/// A package name with the version under which it is provided. The version
/// is empty where the source names none.
#[derive(Debug, Clone)]
pub struct PackageIdentity {
    pub name: String,
    pub version: Version,
}

/// A provided name and its version, as plain values.
pub struct IdentityView {
    pub name: Seq<char>,
    pub version: Seq<char>,
}

impl View for PackageIdentity {
    type V = IdentityView;

    open spec fn view(&self) -> IdentityView {
        IdentityView { name: self.name@, version: self.version@ }
    }
}

/// The views of a sequence of alternatives.
pub open spec fn deps_view(v: Seq<Dependency>) -> Seq<DependencyView> {
    v.map_values(|d: Dependency| d@)
}

/// The views of a sequence of groups.
pub open spec fn groups_view(v: Seq<Vec<Dependency>>) -> Seq<Seq<DependencyView>> {
    v.map_values(|g: Vec<Dependency>| deps_view(g@))
}

/// The views of a sequence of identities.
pub open spec fn identities_view(v: Seq<PackageIdentity>) -> Seq<IdentityView> {
    v.map_values(|d: PackageIdentity| d@)
}

/// The text of an operator.
pub open spec fn op_text(op: Operator) -> Seq<char> {
    match op {
        Operator::Exact => seq!['='],
        Operator::GreaterThan => seq!['>'],
        Operator::GreaterOrEqual => seq!['>', '='],
        Operator::LessThan => seq!['<'],
        Operator::LessOrEqual => seq!['<', '='],
    }
}

/// The operator that `c` begins with and the length of its text, the
/// longer texts first. Besides the texts of `op_text`, `>>` is read as `>`
/// and `<<` as `<`, as archive indices write them.
pub open spec fn leading_operator(c: Seq<char>) -> Option<(Operator, int)> {
    if begins_with(c, seq!['>', '=']) {
        Some((Operator::GreaterOrEqual, 2))
    } else if begins_with(c, seq!['<', '=']) {
        Some((Operator::LessOrEqual, 2))
    } else if begins_with(c, seq!['>', '>']) {
        Some((Operator::GreaterThan, 2))
    } else if begins_with(c, seq!['<', '<']) {
        Some((Operator::LessThan, 2))
    } else if begins_with(c, seq!['>']) {
        Some((Operator::GreaterThan, 1))
    } else if begins_with(c, seq!['<']) {
        Some((Operator::LessThan, 1))
    } else if begins_with(c, seq!['=']) {
        Some((Operator::Exact, 1))
    } else {
        None
    }
}

/// A version token: not empty, free of white space, not ending in `)`.
pub open spec fn valid_version(v: Seq<char>) -> bool {
    &&& v.len() > 0
    &&& forall|i: int| 0 <= i < v.len() ==> !is_space(#[trigger] v[i])
    &&& v.last() != ')'
}

/// The wildcard that a text writes: `{major}.*` or `{major}.{minor}.*`,
/// the numbers in decimal digits.
pub open spec fn wildcard_of(c: Seq<char>) -> Option<ConstraintView> {
    let dot = index_of(c, '.');
    let rest = c.skip(dot + 1);
    let second = index_of(rest, '.');
    if dot >= c.len() {
        None
    } else if rest == seq!['*'] {
        match number_of(c.take(dot)) {
            Some(major) => Some(ConstraintView::WildcardMinor(major)),
            None => None,
        }
    } else if second < rest.len() && rest.skip(second + 1) == seq!['*'] {
        match (number_of(c.take(dot)), number_of(rest.take(second))) {
            (Some(major), Some(minor)) => Some(ConstraintView::WildcardPatch(major, minor)),
            _ => None,
        }
    } else {
        None
    }
}

/// What a version clause means, parentheses already removed: an operator
/// followed by a version token, or a wildcard.
pub open spec fn parse_constraint(clause: Seq<char>) -> Result<ConstraintView, ControlError> {
    let c = trim(clause);
    match leading_operator(c) {
        None => match wildcard_of(c) {
            Some(w) => Ok(w),
            None => Err(ControlError::MalformedConstraint),
        },
        Some((op, len)) => {
            let v = trim(c.skip(len));
            if valid_version(v) {
                Ok(ConstraintView::Compare(op, v))
            } else {
                Err(ControlError::MalformedConstraint)
            }
        },
    }
}

/// The text of a constraint: nothing for `Any`; the operator, a space and
/// the version for a comparison; the numbers and `.*` for a wildcard.
pub open spec fn render_constraint(c: ConstraintView) -> Seq<char> {
    match c {
        ConstraintView::Any => Seq::empty(),
        ConstraintView::Compare(op, v) => op_text(op) + seq![' '] + v,
        ConstraintView::WildcardMinor(major) => decimal(major as nat) + seq!['.', '*'],
        ConstraintView::WildcardPatch(major, minor) => decimal(major as nat) + seq!['.']
            + decimal(minor as nat) + seq!['.', '*'],
    }
}

/// `s` without the `(` that begin it and the `)` that end it.
pub open spec fn unwrap_clause(s: Seq<char>) -> Seq<char> {
    strip_end(strip_start(s, CharClass::Is('(').pred()), CharClass::Is(')').pred())
}

/// The name that begins an alternative: its characters up to the first
/// white space.
pub open spec fn name_of(t: Seq<char>) -> Seq<char> {
    t.take(lead(t, CharClass::Word.pred()) as int)
}

/// What follows the name of an alternative, trimmed.
pub open spec fn clause_of(t: Seq<char>) -> Seq<char> {
    trim(t.skip(lead(t, CharClass::Word.pred()) as int))
}

/// What one alternative means: `name`, or `name (OP version)`.
pub open spec fn parse_alternative(s: Seq<char>) -> Result<DependencyView, ControlError> {
    let t = trim(s);
    if name_of(t).len() == 0 {
        Err(ControlError::MalformedConstraint)
    } else if clause_of(t).len() == 0 {
        Ok(DependencyView { name: name_of(t), constraint: ConstraintView::Any })
    } else {
        match parse_constraint(unwrap_clause(clause_of(t))) {
            Ok(c) => Ok(DependencyView { name: name_of(t), constraint: c }),
            Err(e) => Err(e),
        }
    }
}

/// What a list of single alternatives separated by `sep` means. One
/// alternative that is refused refuses the list.
pub open spec fn parse_alternatives(s: Seq<char>, sep: char) -> Result<
    Seq<DependencyView>,
    ControlError,
> {
    let alts = split(s, sep);
    if forall|i: int| 0 <= i < alts.len() ==> (#[trigger] parse_alternative(alts[i])) is Ok {
        Ok(Seq::new(alts.len(), |i: int| parse_alternative(alts[i])->Ok_0))
    } else {
        Err(ControlError::MalformedConstraint)
    }
}

/// What one group means: its alternatives, separated by `|`.
pub open spec fn parse_group(s: Seq<char>) -> Result<Seq<DependencyView>, ControlError> {
    parse_alternatives(s, '|')
}

/// What a dependency field means: its groups, separated by `,`.
pub open spec fn parse_list(s: Seq<char>) -> Result<Seq<Seq<DependencyView>>, ControlError> {
    let groups = split(s, ',');
    if forall|i: int| 0 <= i < groups.len() ==> (#[trigger] parse_group(groups[i])) is Ok {
        Ok(Seq::new(groups.len(), |i: int| parse_group(groups[i])->Ok_0))
    } else {
        Err(ControlError::MalformedConstraint)
    }
}

/// The version that a provides-style clause names: the clause itself, or
/// what follows a leading `=`.
pub open spec fn provided_version(clause: Seq<char>) -> Seq<char> {
    let c = trim(clause);
    if begins_with(c, op_text(Operator::Exact)) {
        trim(c.skip(1))
    } else {
        c
    }
}

/// What one provided name means: `name`, or `name (version)`.
pub open spec fn parse_identity(s: Seq<char>) -> Result<IdentityView, ControlError> {
    let t = trim(s);
    if name_of(t).len() == 0 {
        Err(ControlError::MalformedConstraint)
    } else if clause_of(t).len() == 0 {
        Ok(IdentityView { name: name_of(t), version: Seq::empty() })
    } else {
        let v = provided_version(unwrap_clause(clause_of(t)));
        if valid_version(v) {
            Ok(IdentityView { name: name_of(t), version: v })
        } else {
            Err(ControlError::MalformedConstraint)
        }
    }
}

/// What a provides-style field means: its identities, separated by `,`.
pub open spec fn parse_identities(s: Seq<char>) -> Result<Seq<IdentityView>, ControlError> {
    let items = split(s, ',');
    if forall|i: int| 0 <= i < items.len() ==> (#[trigger] parse_identity(items[i])) is Ok {
        Ok(Seq::new(items.len(), |i: int| parse_identity(items[i])->Ok_0))
    } else {
        Err(ControlError::MalformedConstraint)
    }
}

fn begins_with_one(v: &Vec<char>, lo: usize, hi: usize, x: char) -> (r: bool)
    requires
        lo <= hi <= v.len(),
    ensures
        r == begins_with(v@.subrange(lo as int, hi as int), seq![x]),
{
    let ghost c = v@.subrange(lo as int, hi as int);
    let r = hi - lo >= 1 && v[lo] == x;
    proof {
        if r {
            assert(c.subrange(0, 1) =~= seq![x]);
        } else if begins_with(c, seq![x]) {
            assert(c.subrange(0, 1)[0] == x);
        }
    }
    r
}

fn begins_with_two(v: &Vec<char>, lo: usize, hi: usize, x: char, y: char) -> (r: bool)
    requires
        lo <= hi <= v.len(),
    ensures
        r == begins_with(v@.subrange(lo as int, hi as int), seq![x, y]),
{
    let ghost c = v@.subrange(lo as int, hi as int);
    let r = hi - lo >= 2 && v[lo] == x && v[lo + 1] == y;
    proof {
        if r {
            assert(c.subrange(0, 2) =~= seq![x, y]);
        } else if begins_with(c, seq![x, y]) {
            assert(c.subrange(0, 2)[0] == x);
            assert(c.subrange(0, 2)[1] == y);
        }
    }
    r
}

fn operator_at(v: &Vec<char>, lo: usize, hi: usize) -> (r: Option<(Operator, usize)>)
    requires
        lo <= hi <= v.len(),
    ensures
        match r {
            Some((op, len)) => leading_operator(v@.subrange(lo as int, hi as int)) == Some(
                (op, len as int),
            ) && 1 <= len <= hi - lo,
            None => leading_operator(v@.subrange(lo as int, hi as int)) is None,
        },
{
    if begins_with_two(v, lo, hi, '>', '=') {
        Some((Operator::GreaterOrEqual, 2))
    } else if begins_with_two(v, lo, hi, '<', '=') {
        Some((Operator::LessOrEqual, 2))
    } else if begins_with_two(v, lo, hi, '>', '>') {
        Some((Operator::GreaterThan, 2))
    } else if begins_with_two(v, lo, hi, '<', '<') {
        Some((Operator::LessThan, 2))
    } else if begins_with_one(v, lo, hi, '>') {
        Some((Operator::GreaterThan, 1))
    } else if begins_with_one(v, lo, hi, '<') {
        Some((Operator::LessThan, 1))
    } else if begins_with_one(v, lo, hi, '=') {
        Some((Operator::Exact, 1))
    } else {
        None
    }
}

fn version_ok(v: &Vec<char>, lo: usize, hi: usize) -> (r: bool)
    requires
        lo <= hi <= v.len(),
    ensures
        r == valid_version(v@.subrange(lo as int, hi as int)),
{
    let ghost s = v@.subrange(lo as int, hi as int);
    if lo == hi || v[hi - 1] == ')' {
        return false;
    }
    let mut i: usize = lo;
    while i < hi
        invariant
            lo <= i <= hi <= v.len(),
            s == v@.subrange(lo as int, hi as int),
            forall|k: int| 0 <= k < i - lo ==> !is_space(#[trigger] s[k]),
        decreases hi - i,
    {
        if is_whitespace(v[i]) {
            assert(is_space(s[i - lo]));
            return false;
        }
        i = i + 1;
    }
    true
}

fn is_star(v: &Vec<char>, lo: usize, hi: usize) -> (r: bool)
    requires
        lo <= hi <= v.len(),
    ensures
        r == (v@.subrange(lo as int, hi as int) == seq!['*']),
{
    let ghost s = v@.subrange(lo as int, hi as int);
    let r = hi - lo == 1 && v[lo] == '*';
    proof {
        if r {
            assert(s =~= seq!['*']);
        } else if s == seq!['*'] {
            assert(s.len() == 1);
            assert(s[0] == '*');
        }
    }
    r
}

/// The wildcard that `v[lo..hi]` writes.
fn wildcard_in(v: &Vec<char>, lo: usize, hi: usize) -> (r: Option<VersionConstraint>)
    requires
        lo <= hi <= v.len(),
    ensures
        match r {
            Some(w) => wildcard_of(v@.subrange(lo as int, hi as int)) == Some(w@),
            None => wildcard_of(v@.subrange(lo as int, hi as int)) is None,
        },
{
    let ghost c = v@.subrange(lo as int, hi as int);
    proof {
        lemma_index_of(c, '.');
    }
    let dot = match position(v, '.', lo, hi) {
        Some(dot) => dot,
        None => {
            return None;
        },
    };
    let ghost rest = c.skip(dot - lo + 1);
    proof {
        assert(rest == v@.subrange(dot + 1, hi as int));
        assert(c.take(dot - lo) == v@.subrange(lo as int, dot as int));
        lemma_index_of(rest, '.');
    }
    if is_star(v, dot + 1, hi) {
        return match parse_number(v, lo, dot) {
            Some(major) => Some(VersionConstraint::WildcardMinor(major)),
            None => None,
        };
    }
    let second = match position(v, '.', dot + 1, hi) {
        Some(second) => second,
        None => {
            return None;
        },
    };
    proof {
        assert(rest.skip(second - (dot + 1) + 1) == v@.subrange(second + 1, hi as int));
        assert(rest.take(second - (dot + 1)) == v@.subrange(dot + 1, second as int));
    }
    if !is_star(v, second + 1, hi) {
        return None;
    }
    match (parse_number(v, lo, dot), parse_number(v, dot + 1, second)) {
        (Some(major), Some(minor)) => Some(VersionConstraint::WildcardPatch(major, minor)),
        _ => None,
    }
}

/// Parses the version clause `v[lo..hi]`, parentheses already removed.
fn constraint_in(v: &Vec<char>, lo: usize, hi: usize) -> (r: Result<
    VersionConstraint,
    ControlError,
>)
    requires
        lo <= hi <= v.len(),
    ensures
        match r {
            Ok(c) => parse_constraint(v@.subrange(lo as int, hi as int)) == Ok::<
                ConstraintView,
                ControlError,
            >(c@),
            Err(e) => parse_constraint(v@.subrange(lo as int, hi as int)) == Err::<
                ConstraintView,
                ControlError,
            >(e),
        },
{
    let (a, b) = trim_bounds(v, lo, hi);
    let ghost c = v@.subrange(a as int, b as int);
    match operator_at(v, a, b) {
        None => match wildcard_in(v, a, b) {
            Some(w) => Ok(w),
            None => Err(ControlError::MalformedConstraint),
        },
        Some((op, k)) => {
            assert(c.skip(k as int) == v@.subrange(a + k, b as int));
            let (x, y) = trim_bounds(v, a + k, b);
            if version_ok(v, x, y) {
                let text = slice_of(v, x, y);
                Ok(VersionConstraint::Compare(op, Version { text: string_of(&text) }))
            } else {
                Err(ControlError::MalformedConstraint)
            }
        },
    }
}

/// Bounds of the name and of the clause of the alternative `v[lo..hi]`:
/// the name is `v[r.0..r.1]`, the clause `v[r.2..r.3]`.
fn alternative_bounds(v: &Vec<char>, lo: usize, hi: usize) -> (r: (usize, usize, usize, usize))
    requires
        lo <= hi <= v.len(),
    ensures
        lo <= r.0 <= r.1 <= r.2 <= r.3 <= hi,
        v@.subrange(r.0 as int, r.1 as int) == name_of(trim(v@.subrange(lo as int, hi as int))),
        v@.subrange(r.2 as int, r.3 as int) == clause_of(
            trim(v@.subrange(lo as int, hi as int)),
        ),
{
    let (a, b) = trim_bounds(v, lo, hi);
    let ghost t = v@.subrange(a as int, b as int);
    let n = lead_end(v, a, b, CharClass::Word);
    assert(t.take(n - a) == v@.subrange(a as int, n as int));
    assert(t.skip(n - a) == v@.subrange(n as int, b as int));
    let (c, d) = trim_bounds(v, n, b);
    (a, n, c, d)
}

/// Bounds, inside `v[lo..hi]`, of what `unwrap_clause` leaves of it.
fn unwrap_bounds(v: &Vec<char>, lo: usize, hi: usize) -> (r: (usize, usize))
    requires
        lo <= hi <= v.len(),
    ensures
        lo <= r.0 <= r.1 <= hi,
        v@.subrange(r.0 as int, r.1 as int) == unwrap_clause(v@.subrange(lo as int, hi as int)),
{
    let e = lead_end(v, lo, hi, CharClass::Is('('));
    let f = crate::text::trail_start(v, e, hi, CharClass::Is(')'));
    (e, f)
}

/// Parses one alternative: `name`, or `name (OP version)`.
pub fn alternative_of(v: &Vec<char>) -> (r: Result<Dependency, ControlError>)
    ensures
        match r {
            Ok(d) => parse_alternative(v@) == Ok::<DependencyView, ControlError>(d@),
            Err(e) => parse_alternative(v@) == Err::<DependencyView, ControlError>(e),
        },
{
    assert(v@.subrange(0, v.len() as int) == v@);
    let (a, n, c, d) = alternative_bounds(v, 0, v.len());
    if a == n {
        return Err(ControlError::MalformedConstraint);
    }
    let name = string_of(&slice_of(v, a, n));
    if c == d {
        return Ok(Dependency { name, constraint: VersionConstraint::Any });
    }
    let (e, f) = unwrap_bounds(v, c, d);
    match constraint_in(v, e, f) {
        Ok(constraint) => Ok(Dependency { name, constraint }),
        Err(e) => Err(e),
    }
}

/// Parses the alternatives of `v`, separated by `sep`.
pub fn alternatives_of(v: &Vec<char>, sep: char) -> (r: Result<Vec<Dependency>, ControlError>)
    ensures
        match r {
            Ok(d) => parse_alternatives(v@, sep) == Ok::<Seq<DependencyView>, ControlError>(
                deps_view(d@),
            ),
            Err(e) => parse_alternatives(v@, sep) == Err::<Seq<DependencyView>, ControlError>(e),
        },
{
    let pieces = split_on(v, sep);
    let ghost alts = split(v@, sep);
    let mut out: Vec<Dependency> = Vec::new();
    let mut i: usize = 0;
    while i < pieces.len()
        invariant
            i <= pieces.len(),
            views(pieces@) == alts,
            alts == split(v@, sep),
            out.len() == i,
            forall|k: int|
                0 <= k < i ==> (#[trigger] parse_alternative(alts[k])) == Ok::<
                    DependencyView,
                    ControlError,
                >(out@[k]@),
        decreases pieces.len() - i,
    {
        assert(alts[i as int] == pieces@[i as int]@);
        match alternative_of(&pieces[i]) {
            Ok(d) => {
                out.push(d);
            },
            Err(e) => {
                assert(!(parse_alternative(alts[i as int]) is Ok));
                return Err(ControlError::MalformedConstraint);
            },
        }
        i = i + 1;
    }
    assert(alts.len() == pieces.len());
    assert(deps_view(out@) =~= Seq::new(alts.len(), |k: int| parse_alternative(alts[k])->Ok_0));
    Ok(out)
}

/// Parses a dependency field: AND-groups separated by `,`, each a sequence
/// of OR-alternatives separated by `|`.
pub fn parse_dependency_list(input: &str) -> (r: Result<Vec<Vec<Dependency>>, ControlError>)
    ensures
        match r {
            Ok(g) => parse_list(input@) == Ok::<Seq<Seq<DependencyView>>, ControlError>(
                groups_view(g@),
            ),
            Err(e) => parse_list(input@) == Err::<Seq<Seq<DependencyView>>, ControlError>(e),
        },
{
    let v = chars_of(input);
    let pieces = split_on(&v, ',');
    let ghost groups = split(v@, ',');
    let mut out: Vec<Vec<Dependency>> = Vec::new();
    let mut i: usize = 0;
    while i < pieces.len()
        invariant
            i <= pieces.len(),
            views(pieces@) == groups,
            groups == split(input@, ','),
            out.len() == i,
            forall|k: int|
                0 <= k < i ==> (#[trigger] parse_group(groups[k])) == Ok::<
                    Seq<DependencyView>,
                    ControlError,
                >(deps_view(out@[k]@)),
        decreases pieces.len() - i,
    {
        assert(groups[i as int] == pieces@[i as int]@);
        match alternatives_of(&pieces[i], '|') {
            Ok(d) => {
                out.push(d);
            },
            Err(e) => {
                assert(!(parse_group(groups[i as int]) is Ok));
                return Err(ControlError::MalformedConstraint);
            },
        }
        i = i + 1;
    }
    assert(groups.len() == pieces.len());
    assert(groups_view(out@) =~= Seq::new(groups.len(), |k: int| parse_group(groups[k])->Ok_0));
    Ok(out)
}

/// Parses a conflicts-style field: single alternatives separated by `,`.
pub fn parse_conflict_list(input: &str) -> (r: Result<Vec<Dependency>, ControlError>)
    ensures
        match r {
            Ok(d) => parse_alternatives(input@, ',') == Ok::<Seq<DependencyView>, ControlError>(
                deps_view(d@),
            ),
            Err(e) => parse_alternatives(input@, ',') == Err::<Seq<DependencyView>, ControlError>(
                e,
            ),
        },
{
    let v = chars_of(input);
    alternatives_of(&v, ',')
}

/// Parses one provided name: `name`, or `name (version)`.
pub fn identity_of(v: &Vec<char>) -> (r: Result<PackageIdentity, ControlError>)
    ensures
        match r {
            Ok(d) => parse_identity(v@) == Ok::<IdentityView, ControlError>(d@),
            Err(e) => parse_identity(v@) == Err::<IdentityView, ControlError>(e),
        },
{
    assert(v@.subrange(0, v.len() as int) == v@);
    let (a, n, c, d) = alternative_bounds(v, 0, v.len());
    if a == n {
        return Err(ControlError::MalformedConstraint);
    }
    let name = string_of(&slice_of(v, a, n));
    if c == d {
        return Ok(PackageIdentity { name, version: Version { text: String::new() } });
    }
    let (e, f) = unwrap_bounds(v, c, d);
    let (x, y) = trim_bounds(v, e, f);
    let ghost cl = v@.subrange(x as int, y as int);
    let (p, q) = if begins_with_one(v, x, y, '=') {
        assert(cl.skip(1) == v@.subrange(x + 1, y as int));
        trim_bounds(v, x + 1, y)
    } else {
        (x, y)
    };
    if version_ok(v, p, q) {
        Ok(PackageIdentity { name, version: Version { text: string_of(&slice_of(v, p, q)) } })
    } else {
        Err(ControlError::MalformedConstraint)
    }
}

/// Parses a provides-style field: identities separated by `,`.
pub fn parse_identity_list(input: &str) -> (r: Result<Vec<PackageIdentity>, ControlError>)
    ensures
        match r {
            Ok(d) => parse_identities(input@) == Ok::<Seq<IdentityView>, ControlError>(
                identities_view(d@),
            ),
            Err(e) => parse_identities(input@) == Err::<Seq<IdentityView>, ControlError>(e),
        },
{
    let v = chars_of(input);
    let pieces = split_on(&v, ',');
    let ghost items = split(v@, ',');
    let mut out: Vec<PackageIdentity> = Vec::new();
    let mut i: usize = 0;
    while i < pieces.len()
        invariant
            i <= pieces.len(),
            views(pieces@) == items,
            items == split(input@, ','),
            out.len() == i,
            forall|k: int|
                0 <= k < i ==> (#[trigger] parse_identity(items[k])) == Ok::<
                    IdentityView,
                    ControlError,
                >(out@[k]@),
        decreases pieces.len() - i,
    {
        assert(items[i as int] == pieces@[i as int]@);
        match identity_of(&pieces[i]) {
            Ok(d) => {
                out.push(d);
            },
            Err(e) => {
                assert(!(parse_identity(items[i as int]) is Ok));
                return Err(ControlError::MalformedConstraint);
            },
        }
        i = i + 1;
    }
    assert(items.len() == pieces.len());
    assert(identities_view(out@) =~= Seq::new(
        items.len(),
        |k: int| parse_identity(items[k])->Ok_0,
    ));
    Ok(out)
}

/// A constraint that parsing can give: `Any`, a wildcard, or an operator
/// with a version token.
pub open spec fn valid_constraint(c: ConstraintView) -> bool {
    match c {
        ConstraintView::Compare(_, v) => valid_version(v),
        _ => true,
    }
}

/// Every constraint that parsing gives is a wildcard or an operator with a
/// version token.
pub proof fn lemma_parsed_constraint_is_valid(clause: Seq<char>)
    requires
        parse_constraint(clause) is Ok,
    ensures
        !(parse_constraint(clause)->Ok_0 is Any),
        valid_constraint(parse_constraint(clause)->Ok_0),
{
}

/// The text of an operator with a version token parses back to that
/// operator and that version.
pub proof fn lemma_render_then_parse(op: Operator, version: Seq<char>)
    requires
        valid_version(version),
    ensures
        parse_constraint(render_constraint(ConstraintView::Compare(op, version))) == Ok::<
            ConstraintView,
            ControlError,
        >(ConstraintView::Compare(op, version)),
{
    let r = render_constraint(ConstraintView::Compare(op, version));
    let o = op_text(op);
    assert(r[0] == o[0]);
    assert(r.last() == version.last());
    crate::text::lemma_trim_clean(r);
    assert(r.subrange(0, o.len() as int) =~= o);
    assert(r[o.len() as int] == ' ');
    assert(leading_operator(r) == Some((op, o.len() as int))) by {
        if o.len() == 1 {
            assert(r.subrange(0, 2)[1] == ' ');
        }
        assert(r.subrange(0, 1)[0] == o[0]);
        if r.len() >= 2 {
            assert(r.subrange(0, 2)[0] == o[0]);
            assert(r.subrange(0, 2)[1] == r[1]);
        }
    }
    let rest = r.skip(o.len() as int);
    let e = Seq::<char>::empty();
    assert(rest =~= seq![' '] + version + e);
    crate::text::lemma_trim_padded(seq![' '], version, e);
}

/// Round trip of a version clause: where an alternative parses to a
/// constraint with an operator, the text of that constraint parses to the
/// same operator and the same version.
pub proof fn lemma_constraint_round_trip(token: Seq<char>)
    requires
        parse_alternative(token) is Ok,
        parse_alternative(token)->Ok_0.constraint is Compare,
    ensures
        parse_constraint(render_constraint(parse_alternative(token)->Ok_0.constraint)) == Ok::<
            ConstraintView,
            ControlError,
        >(parse_alternative(token)->Ok_0.constraint),
{
    let c = parse_alternative(token)->Ok_0.constraint;
    let t = trim(token);
    lemma_parsed_constraint_is_valid(unwrap_clause(clause_of(t)));
    match c {
        ConstraintView::Compare(op, v) => {
            lemma_render_then_parse(op, v);
        },
        _ => {},
    }
}

/// A package name as a token: not empty and free of white space.
pub open spec fn valid_name(n: Seq<char>) -> bool {
    &&& n.len() > 0
    &&& forall|i: int| 0 <= i < n.len() ==> !is_space(#[trigger] n[i])
}

/// The canonical text of an alternative with a version clause:
/// `name (OP version)`.
pub open spec fn render_alternative(name: Seq<char>, op: Operator, version: Seq<char>) -> Seq<
    char,
> {
    name + seq![' ', '('] + render_constraint(ConstraintView::Compare(op, version)) + seq![')']
}

/// A version clause in parentheses behind a name parses to that name and
/// to what the clause means: the name being a name token, and the clause
/// beginning neither with white space nor with `(` and ending neither with
/// white space nor with `)`.
pub proof fn lemma_parse_wrapped(name: Seq<char>, body: Seq<char>)
    requires
        valid_name(name),
        body.len() > 0,
        !is_space(body[0]),
        body[0] != '(',
        !is_space(body.last()),
        body.last() != ')',
    ensures
        parse_alternative(name + seq![' ', '('] + body + seq![')']) == (match parse_constraint(
            body,
        ) {
            Ok(c) => Ok::<DependencyView, ControlError>(DependencyView { name, constraint: c }),
            Err(e) => Err::<DependencyView, ControlError>(e),
        }),
{
    let token = name + seq![' ', '('] + body + seq![')'];
    let word = CharClass::Word.pred();
    let open = CharClass::Is('(').pred();
    let close = CharClass::Is(')').pred();
    let e = Seq::<char>::empty();
    assert(token[0] == name[0]);
    assert(token.last() == ')');
    crate::text::lemma_trim_clean(token);
    assert forall|k: int| 0 <= k < name.len() implies word(#[trigger] token[k]) by {
        assert(token[k] == name[k]);
    }
    assert(token[name.len() as int] == ' ');
    lemma_lead_is(token, word, name.len() as int);
    assert(name_of(token) =~= name);
    let wrapped = seq!['('] + body + seq![')'];
    assert(token.skip(name.len() as int) =~= seq![' '] + wrapped + e);
    assert(wrapped[0] == '(');
    assert(wrapped.last() == ')');
    crate::text::lemma_trim_padded(seq![' '], wrapped, e);
    assert(clause_of(token) == wrapped);
    assert(wrapped[1] == body[0]);
    lemma_lead_is(wrapped, open, 1);
    let inner = strip_start(wrapped, open);
    assert(inner =~= body + seq![')']);
    assert(inner[inner.len() - 2] == body.last());
    lemma_trail_is(inner, close, 1);
    assert(strip_end(inner, close) =~= body);
    assert(unwrap_clause(wrapped) == body);
}

/// Every token `name (OP version)` made of a name token, one of the five
/// operators and a version token parses to that name, that operator and
/// that version.
pub proof fn lemma_parse_rendered_alternative(name: Seq<char>, op: Operator, version: Seq<char>)
    requires
        valid_name(name),
        valid_version(version),
    ensures
        parse_alternative(render_alternative(name, op, version)) == Ok::<
            DependencyView,
            ControlError,
        >(DependencyView { name, constraint: ConstraintView::Compare(op, version) }),
{
    let body = render_constraint(ConstraintView::Compare(op, version));
    assert(body[0] == op_text(op)[0]);
    assert(body.last() == version.last());
    lemma_parse_wrapped(name, body);
    lemma_render_then_parse(op, version);
}

/// The text of a wildcard parses back to that wildcard.
pub proof fn lemma_wildcard_round_trip(c: ConstraintView)
    requires
        c is WildcardMinor || c is WildcardPatch,
    ensures
        parse_constraint(render_constraint(c)) == Ok::<ConstraintView, ControlError>(c),
        render_constraint(c).len() > 0,
        crate::number::is_digit(render_constraint(c)[0]),
        render_constraint(c).last() == '*',
{
    let r = render_constraint(c);
    match c {
        ConstraintView::WildcardMinor(major) => {
            let d = decimal(major as nat);
            lemma_decimal(major as nat);
            lemma_number_of_decimal(major);
            assert(r[0] == d[0]);
            assert(r.last() == '*');
            crate::text::lemma_trim_clean(r);
            assert(leading_operator(r) is None) by {
                assert(r.subrange(0, 1)[0] == d[0]);
                if r.len() >= 2 {
                    assert(r.subrange(0, 2)[0] == d[0]);
                }
            }
            assert forall|k: int| 0 <= k < d.len() implies #[trigger] r[k] != '.' by {
                assert(r[k] == d[k]);
            }
            assert(r[d.len() as int] == '.');
            lemma_index_of_is(r, '.', d.len() as int);
            assert(r.skip(d.len() as int + 1) =~= seq!['*']);
            assert(r.take(d.len() as int) =~= d);
        },
        ConstraintView::WildcardPatch(major, minor) => {
            let d = decimal(major as nat);
            let m = decimal(minor as nat);
            lemma_decimal(major as nat);
            lemma_decimal(minor as nat);
            lemma_number_of_decimal(major);
            lemma_number_of_decimal(minor);
            assert(r[0] == d[0]);
            assert(r.last() == '*');
            crate::text::lemma_trim_clean(r);
            assert(leading_operator(r) is None) by {
                assert(r.subrange(0, 1)[0] == d[0]);
                assert(r.subrange(0, 2)[0] == d[0]);
            }
            assert forall|k: int| 0 <= k < d.len() implies #[trigger] r[k] != '.' by {
                assert(r[k] == d[k]);
            }
            assert(r[d.len() as int] == '.');
            lemma_index_of_is(r, '.', d.len() as int);
            let rest = r.skip(d.len() as int + 1);
            assert(rest =~= m + seq!['.', '*']);
            assert(rest[0] == m[0]);
            assert(rest != seq!['*']);
            assert forall|k: int| 0 <= k < m.len() implies #[trigger] rest[k] != '.' by {
                assert(rest[k] == m[k]);
            }
            assert(rest[m.len() as int] == '.');
            lemma_index_of_is(rest, '.', m.len() as int);
            assert(rest.skip(m.len() as int + 1) =~= seq!['*']);
            assert(rest.take(m.len() as int) =~= m);
            assert(r.take(d.len() as int) =~= d);
        },
        _ => {},
    }
}

/// The text of an alternative: its name, followed by its constraint in
/// parentheses unless that is `Any`.
pub open spec fn render_dependency(d: DependencyView) -> Seq<char> {
    match d.constraint {
        ConstraintView::Any => d.name,
        c => d.name + seq![' ', '('] + render_constraint(c) + seq![')'],
    }
}

impl Operator {
    /// The text of the operator.
    pub fn text(&self) -> (r: &'static str)
        ensures
            r@ == op_text(*self),
    {
        proof {
            reveal_strlit("=");
            reveal_strlit(">");
            reveal_strlit(">=");
            reveal_strlit("<");
            reveal_strlit("<=");
        }
        let r = match self {
            Operator::Exact => "=",
            Operator::GreaterThan => ">",
            Operator::GreaterOrEqual => ">=",
            Operator::LessThan => "<",
            Operator::LessOrEqual => "<=",
        };
        assert(r@ =~= op_text(*self));
        r
    }
}

impl VersionConstraint {
    /// The text of the constraint, as a version clause holds it.
    pub fn to_string(&self) -> (r: String)
        ensures
            r@ == render_constraint(self@),
    {
        match self {
            VersionConstraint::Any => String::new(),
            VersionConstraint::Compare(op, v) => {
                let mut out = chars_of(op.text());
                out.push(' ');
                crate::text::extend_str(&mut out, v.text.as_str());
                assert(out@ =~= op_text(*op) + seq![' '] + v@);
                string_of(&out)
            },
            VersionConstraint::WildcardMinor(major) => {
                let mut out: Vec<char> = Vec::new();
                push_decimal(&mut out, *major);
                out.push('.');
                out.push('*');
                assert(out@ =~= decimal(*major as nat) + seq!['.', '*']);
                string_of(&out)
            },
            VersionConstraint::WildcardPatch(major, minor) => {
                let mut out: Vec<char> = Vec::new();
                push_decimal(&mut out, *major);
                out.push('.');
                push_decimal(&mut out, *minor);
                out.push('.');
                out.push('*');
                assert(out@ =~= decimal(*major as nat) + seq!['.'] + decimal(*minor as nat)
                    + seq!['.', '*']);
                string_of(&out)
            },
        }
    }
}

impl Dependency {
    /// The text of the alternative, as a dependency field holds it.
    pub fn to_string(&self) -> (r: String)
        ensures
            r@ == render_dependency(self@),
    {
        let mut out = chars_of(self.name.as_str());
        match &self.constraint {
            VersionConstraint::Any => {},
            c => {
                out.push(' ');
                out.push('(');
                let text = c.to_string();
                crate::text::extend_str(&mut out, text.as_str());
                out.push(')');
                assert(out@ =~= self.name@ + seq![' ', '('] + render_constraint(c@) + seq![')']);
            },
        }
        string_of(&out)
    }
}

/// The text of an alternative parses back to the alternative: its name
/// being a name token and its constraint one that parsing can give.
pub proof fn lemma_dependency_round_trip(d: DependencyView)
    requires
        valid_name(d.name),
        valid_constraint(d.constraint),
    ensures
        parse_alternative(render_dependency(d)) == Ok::<DependencyView, ControlError>(d),
{
    match d.constraint {
        ConstraintView::Compare(op, v) => {
            lemma_parse_rendered_alternative(d.name, op, v);
        },
        ConstraintView::WildcardMinor(_) | ConstraintView::WildcardPatch(_, _) => {
            lemma_wildcard_round_trip(d.constraint);
            lemma_parse_wrapped(d.name, render_constraint(d.constraint));
        },
        ConstraintView::Any => {
            let word = CharClass::Word.pred();
            crate::text::lemma_trim_clean(d.name);
            lemma_lead_is(d.name, word, d.name.len() as int);
            assert(name_of(d.name) =~= d.name);
            assert(d.name.skip(d.name.len() as int) =~= Seq::<char>::empty());
            let e = Seq::<char>::empty();
            assert(e + e + e =~= e);
            crate::text::lemma_trim_padded(e, e, e);
        },
    }
}

/// Whether a text holds no `c`.
pub open spec fn free_of(s: Seq<char>, c: char) -> bool {
    forall|i: int| 0 <= i < s.len() ==> #[trigger] s[i] != c
}

/// A text without the separator is one piece.
pub proof fn lemma_split_whole(s: Seq<char>, sep: char)
    requires
        free_of(s, sep),
    ensures
        split(s, sep) == seq![s],
{
    lemma_index_of_is(s, sep, s.len() as int);
}

/// Round trip of a whole dependency field: the token `name (OP version)`,
/// made of a name token, one of the five operators and a version token,
/// neither name nor version holding one of the separators `,` and `|`,
/// parses to one group of one alternative with that name, that operator and
/// that version; and the text of its constraint parses back to it.
pub proof fn lemma_list_round_trip(name: Seq<char>, op: Operator, version: Seq<char>)
    requires
        valid_name(name),
        valid_version(version),
        free_of(name, ','),
        free_of(name, '|'),
        free_of(version, ','),
        free_of(version, '|'),
    ensures
        parse_list(render_alternative(name, op, version)) == Ok::<
            Seq<Seq<DependencyView>>,
            ControlError,
        >(seq![seq![DependencyView { name, constraint: ConstraintView::Compare(op, version) }]]),
        parse_constraint(render_constraint(ConstraintView::Compare(op, version))) == Ok::<
            ConstraintView,
            ControlError,
        >(ConstraintView::Compare(op, version)),
{
    let token = render_alternative(name, op, version);
    let o = op_text(op);
    let d = DependencyView { name, constraint: ConstraintView::Compare(op, version) };
    assert forall|i: int| 0 <= i < token.len() implies #[trigger] token[i] != ',' && token[i]
        != '|' by {
        let a = name.len() as int;
        let b = a + 2;
        let c = b + o.len();
        if i < a {
            assert(token[i] == name[i]);
        } else if i < b {
            assert(token[i] == seq![' ', '('][i - a]);
        } else if i < c {
            assert(token[i] == o[i - b]);
        } else if i == c {
            assert(token[i] == ' ');
        } else if i < token.len() - 1 {
            assert(token[i] == version[i - c - 1]);
        } else {
            assert(token[i] == ')');
        }
    }
    lemma_split_whole(token, ',');
    lemma_split_whole(token, '|');
    lemma_parse_rendered_alternative(name, op, version);
    lemma_render_then_parse(op, version);
    let alts = split(token, '|');
    assert(alts[0] == token);
    assert(parse_group(token) == Ok::<Seq<DependencyView>, ControlError>(
        Seq::new(alts.len(), |i: int| parse_alternative(alts[i])->Ok_0),
    ));
    assert(Seq::new(alts.len(), |i: int| parse_alternative(alts[i])->Ok_0) =~= seq![d]);
    let groups = split(token, ',');
    assert(groups[0] == token);
    assert(Seq::new(groups.len(), |i: int| parse_group(groups[i])->Ok_0) =~= seq![seq![d]]);
}

} // verus!
