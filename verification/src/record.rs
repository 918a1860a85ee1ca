//! Package records: the normalised description of one package, and how a
//! paragraph of control text becomes one.

use crate::control::{fields_view, lookup, maintainer_of, parse_maintainer, Field, FieldView,
    MaintainerView, Paragraph};
use crate::relation::{deps_view, groups_view, identities_view, parse_alternatives,
    parse_conflict_list, parse_dependency_list, parse_identities, parse_identity_list, parse_list,
    ControlError, Dependency, DependencyView, IdentityView, Mandatory, PackageIdentity, Version};
use crate::text::{chars_of, same_str, split, split_on, str_views, string_of, trim, trimmed, views};
use vstd::prelude::*;

verus! {

/// Name and address of the person who maintains a package.
#[derive(Debug, Clone)]
pub struct Maintainer {
    pub name: String,
    pub email: String,
}

impl View for Maintainer {
    type V = MaintainerView;

    open spec fn view(&self) -> MaintainerView {
        MaintainerView { name: self.name@, email: self.email@ }
    }
}

/// The relations of a package to others. `depends`, `recommends` and
/// `suggests` are conjunctions of groups of alternatives; `conflicts` and
/// `replaces` are lists of single alternatives; `provides` names what the
/// package stands for.
#[derive(Debug, Clone)]
pub struct RelationSet {
    pub depends: Vec<Vec<Dependency>>,
    pub recommends: Vec<Vec<Dependency>>,
    pub suggests: Vec<Vec<Dependency>>,
    pub conflicts: Vec<Dependency>,
    pub replaces: Vec<Dependency>,
    pub provides: Vec<PackageIdentity>,
}

/// The relations of a package, as plain values.
pub struct RelationsView {
    pub depends: Seq<Seq<DependencyView>>,
    pub recommends: Seq<Seq<DependencyView>>,
    pub suggests: Seq<Seq<DependencyView>>,
    pub conflicts: Seq<DependencyView>,
    pub replaces: Seq<DependencyView>,
    pub provides: Seq<IdentityView>,
}

impl View for RelationSet {
    type V = RelationsView;

    open spec fn view(&self) -> RelationsView {
        RelationsView {
            depends: groups_view(self.depends@),
            recommends: groups_view(self.recommends@),
            suggests: groups_view(self.suggests@),
            conflicts: deps_view(self.conflicts@),
            replaces: deps_view(self.replaces@),
            provides: identities_view(self.provides@),
        }
    }
}

/// The normalised description of one package. `extra` holds, verbatim and
/// in the order of the source, every field that has no place of its own.
#[derive(Debug, Clone)]
pub struct PackageRecord {
    pub identity: PackageIdentity,
    pub maintainer: Maintainer,
    pub description: String,
    pub architectures: Vec<String>,
    pub relations: RelationSet,
    pub extra: Vec<Field>,
}

/// The description of one package, as plain values.
pub struct RecordView {
    pub identity: IdentityView,
    pub maintainer: MaintainerView,
    pub description: Seq<char>,
    pub architectures: Seq<Seq<char>>,
    pub relations: RelationsView,
    pub extra: Seq<FieldView>,
}

impl View for PackageRecord {
    type V = RecordView;

    open spec fn view(&self) -> RecordView {
        RecordView {
            identity: self.identity@,
            maintainer: self.maintainer@,
            description: self.description@,
            architectures: str_views(self.architectures@),
            relations: self.relations@,
            extra: fields_view(self.extra@),
        }
    }
}

/// Whether a record gives a field a place of its own.
pub open spec fn is_modeled(key: Seq<char>) -> bool {
    ||| key == "Package"@
    ||| key == "Version"@
    ||| key == "Maintainer"@
    ||| key == "Description"@
    ||| key == "Architecture"@
    ||| key == "Depends"@
    ||| key == "Recommends"@
    ||| key == "Suggests"@
    ||| key == "Conflicts"@
    ||| key == "Replaces"@
    ||| key == "Provides"@
}

/// The fields of a paragraph that a record keeps in `extra`.
pub open spec fn extra_of(fields: Seq<FieldView>) -> Seq<FieldView> {
    fields.filter(|f: FieldView| !is_modeled(f.key))
}

/// The text of an optional field, empty where the field is absent.
pub open spec fn text_or_empty(v: Option<Seq<char>>) -> Seq<char> {
    match v {
        Some(s) => s,
        None => Seq::empty(),
    }
}

/// The texts of `s` in the order of their first occurrence, each once.
pub open spec fn unique(s: Seq<Seq<char>>) -> Seq<Seq<char>>
    decreases s.len(),
{
    if s.len() == 0 {
        Seq::empty()
    } else if unique(s.drop_last()).contains(s.last()) {
        unique(s.drop_last())
    } else {
        unique(s.drop_last()).push(s.last())
    }
}

/// The architectures that an `Architecture` field names: its pieces
/// between commas, trimmed, each once and in the order of their first
/// occurrence; none where the field is absent.
pub open spec fn architectures_of(v: Option<Seq<char>>) -> Seq<Seq<char>> {
    match v {
        Some(s) => unique(split(s, ',').map_values(|a: Seq<char>| trim(a))),
        None => Seq::empty(),
    }
}

/// The architectures of a record are a set: none occurs twice, and each
/// text of the field is among them.
pub proof fn lemma_unique(s: Seq<Seq<char>>)
    ensures
        unique(s).no_duplicates(),
        forall|i: int| 0 <= i < s.len() ==> unique(s).contains(#[trigger] s[i]),
        forall|i: int| 0 <= i < unique(s).len() ==> s.contains(#[trigger] unique(s)[i]),
    decreases s.len(),
{
    if s.len() > 0 {
        let init = s.drop_last();
        lemma_unique(init);
        let u = unique(init);
        let r = unique(s);
        assert forall|i: int| 0 <= i < s.len() implies r.contains(#[trigger] s[i]) by {
            if i < s.len() - 1 {
                assert(s[i] == init[i]);
                let k = choose|k: int| 0 <= k < u.len() && u[k] == init[i];
                assert(r[k] == u[k]);
            } else if u.contains(s.last()) {
            } else {
                assert(r[r.len() - 1] == s.last());
            }
        }
        assert forall|i: int| 0 <= i < r.len() implies s.contains(#[trigger] r[i]) by {
            if i < u.len() {
                assert(r[i] == u[i]);
                let k = choose|k: int| 0 <= k < init.len() && init[k] == u[i];
                assert(s[k] == init[k]);
            } else {
                assert(r[i] == s.last());
                assert(s[s.len() - 1] == s.last());
            }
        }
        if !u.contains(s.last()) {
            assert forall|i: int, j: int| 0 <= i < r.len() && 0 <= j < r.len() && i != j implies r[i]
                != r[j] by {
                if i < u.len() && j < u.len() {
                    assert(r[i] == u[i] && r[j] == u[j]);
                } else if i < u.len() {
                    assert(r[i] == u[i]);
                    assert(u.contains(u[i]));
                } else {
                    assert(r[j] == u[j]);
                    assert(u.contains(u[j]));
                }
            }
        }
    }
}

/// The groups of an optional dependency field; none where it is absent.
pub open spec fn groups_of(v: Option<Seq<char>>) -> Result<
    Seq<Seq<DependencyView>>,
    ControlError,
> {
    match v {
        Some(s) => parse_list(s),
        None => Ok(Seq::empty()),
    }
}

/// The alternatives of an optional conflicts-style field.
pub open spec fn singles_of(v: Option<Seq<char>>) -> Result<Seq<DependencyView>, ControlError> {
    match v {
        Some(s) => parse_alternatives(s, ','),
        None => Ok(Seq::empty()),
    }
}

/// The identities of an optional provides-style field.
pub open spec fn provided_of(v: Option<Seq<char>>) -> Result<Seq<IdentityView>, ControlError> {
    match v {
        Some(s) => parse_identities(s),
        None => Ok(Seq::empty()),
    }
}

/// The relations that the fields of a paragraph state. One field that is
/// refused refuses them all.
pub open spec fn relations_of(fields: Seq<FieldView>) -> Result<RelationsView, ControlError> {
    let depends = groups_of(lookup(fields, "Depends"@));
    let recs = groups_of(lookup(fields, "Recommends"@));
    let suggests = groups_of(lookup(fields, "Suggests"@));
    let conflicts = singles_of(lookup(fields, "Conflicts"@));
    let replaces = singles_of(lookup(fields, "Replaces"@));
    let provides = provided_of(lookup(fields, "Provides"@));
    if depends is Ok && recs is Ok && suggests is Ok && conflicts is Ok && replaces is Ok
        && provides is Ok {
        Ok(
            RelationsView {
                depends: depends->Ok_0,
                recommends: recs->Ok_0,
                suggests: suggests->Ok_0,
                conflicts: conflicts->Ok_0,
                replaces: replaces->Ok_0,
                provides: provides->Ok_0,
            },
        )
    } else {
        Err(ControlError::MalformedConstraint)
    }
}

/// The mandatory field that a paragraph lacks, in the order `Package`,
/// `Version`, `Maintainer`.
pub open spec fn missing_field(fields: Seq<FieldView>) -> Option<Mandatory> {
    if lookup(fields, "Package"@) is None {
        Some(Mandatory::Package)
    } else if lookup(fields, "Version"@) is None {
        Some(Mandatory::Version)
    } else if lookup(fields, "Maintainer"@) is None {
        Some(Mandatory::Maintainer)
    } else {
        None
    }
}

/// The record that a paragraph describes. A mandatory field that is absent
/// is reported before a relation that is refused.
pub open spec fn record_of(fields: Seq<FieldView>) -> Result<RecordView, ControlError> {
    match missing_field(fields) {
        Some(m) => Err(ControlError::MissingField(m)),
        None => match relations_of(fields) {
            Err(e) => Err(e),
            Ok(relations) => Ok(
                RecordView {
                    identity: IdentityView {
                        name: lookup(fields, "Package"@)->Some_0,
                        version: lookup(fields, "Version"@)->Some_0,
                    },
                    maintainer: maintainer_of(lookup(fields, "Maintainer"@)->Some_0),
                    description: text_or_empty(lookup(fields, "Description"@)),
                    architectures: architectures_of(lookup(fields, "Architecture"@)),
                    relations,
                    extra: extra_of(fields),
                },
            ),
        },
    }
}

fn copy_of(s: &String) -> (r: String)
    ensures
        r@ == s@,
{
    s.clone()
}

fn modeled(key: &str) -> (r: bool)
    ensures
        r == is_modeled(key@),
{
    same_str(key, "Package") || same_str(key, "Version") || same_str(key, "Maintainer")
        || same_str(key, "Description") || same_str(key, "Architecture") || same_str(
        key,
        "Depends",
    ) || same_str(key, "Recommends") || same_str(key, "Suggests") || same_str(key, "Conflicts")
        || same_str(key, "Replaces") || same_str(key, "Provides")
}

fn groups_in(v: Option<&String>) -> (r: Result<Vec<Vec<Dependency>>, ControlError>)
    ensures
        match r {
            Ok(g) => groups_of(opt_view(v)) == Ok::<Seq<Seq<DependencyView>>, ControlError>(
                groups_view(g@),
            ),
            Err(e) => groups_of(opt_view(v)) is Err && e == ControlError::MalformedConstraint,
        },
{
    match v {
        Some(s) => match parse_dependency_list(s.as_str()) {
            Ok(g) => Ok(g),
            Err(_) => Err(ControlError::MalformedConstraint),
        },
        None => {
            let g: Vec<Vec<Dependency>> = Vec::new();
            assert(groups_view(g@) =~= Seq::<Seq<DependencyView>>::empty());
            Ok(g)
        },
    }
}

fn singles_in(v: Option<&String>) -> (r: Result<Vec<Dependency>, ControlError>)
    ensures
        match r {
            Ok(g) => singles_of(opt_view(v)) == Ok::<Seq<DependencyView>, ControlError>(
                deps_view(g@),
            ),
            Err(e) => singles_of(opt_view(v)) is Err && e == ControlError::MalformedConstraint,
        },
{
    match v {
        Some(s) => match parse_conflict_list(s.as_str()) {
            Ok(g) => Ok(g),
            Err(_) => Err(ControlError::MalformedConstraint),
        },
        None => {
            let g: Vec<Dependency> = Vec::new();
            assert(deps_view(g@) =~= Seq::<DependencyView>::empty());
            Ok(g)
        },
    }
}

fn provided_in(v: Option<&String>) -> (r: Result<Vec<PackageIdentity>, ControlError>)
    ensures
        match r {
            Ok(g) => provided_of(opt_view(v)) == Ok::<Seq<IdentityView>, ControlError>(
                identities_view(g@),
            ),
            Err(e) => provided_of(opt_view(v)) is Err && e == ControlError::MalformedConstraint,
        },
{
    match v {
        Some(s) => match parse_identity_list(s.as_str()) {
            Ok(g) => Ok(g),
            Err(_) => Err(ControlError::MalformedConstraint),
        },
        None => {
            let g: Vec<PackageIdentity> = Vec::new();
            assert(identities_view(g@) =~= Seq::<IdentityView>::empty());
            Ok(g)
        },
    }
}

/// The view of an optional text.
pub open spec fn opt_view(v: Option<&String>) -> Option<Seq<char>> {
    match v {
        Some(s) => Some(s@),
        None => None,
    }
}

/// The relations that the fields of `p` state.
pub fn relations_in(p: &Paragraph) -> (r: Result<RelationSet, ControlError>)
    ensures
        match r {
            Ok(rel) => relations_of(p@) == Ok::<RelationsView, ControlError>(rel@),
            Err(e) => relations_of(p@) == Err::<RelationsView, ControlError>(e),
        },
{
    let depends = groups_in(p.get("Depends"));
    let recs = groups_in(p.get("Recommends"));
    let suggests = groups_in(p.get("Suggests"));
    let conflicts = singles_in(p.get("Conflicts"));
    let replaces = singles_in(p.get("Replaces"));
    let provides = provided_in(p.get("Provides"));
    match (depends, recs, suggests, conflicts, replaces, provides) {
        (Ok(depends), Ok(recs), Ok(suggests), Ok(conflicts), Ok(replaces), Ok(provides)) => Ok(
            RelationSet { depends, recommends: recs, suggests, conflicts, replaces, provides },
        ),
        _ => Err(ControlError::MalformedConstraint),
    }
}

fn holds(out: &Vec<String>, t: &Vec<char>) -> (r: bool)
    ensures
        r == str_views(out@).contains(t@),
{
    let mut i: usize = 0;
    while i < out.len()
        invariant
            i <= out.len(),
            forall|k: int| 0 <= k < i ==> str_views(out@)[k] != t@,
        decreases out.len() - i,
    {
        let have = chars_of(out[i].as_str());
        if crate::text::same(&have, t) {
            assert(str_views(out@)[i as int] == t@);
            return true;
        }
        i = i + 1;
    }
    false
}

fn architectures_in(v: Option<&String>) -> (out: Vec<String>)
    ensures
        str_views(out@) == architectures_of(opt_view(v)),
{
    let mut out: Vec<String> = Vec::new();
    match v {
        None => {
            assert(str_views(out@) =~= Seq::<Seq<char>>::empty());
        },
        Some(s) => {
            let chars = chars_of(s.as_str());
            let pieces = split_on(&chars, ',');
            let ghost tr = |a: Seq<char>| trim(a);
            let ghost all = views(pieces@).map_values(tr);
            let mut i: usize = 0;
            assert(str_views(out@) =~= unique(all.take(0)));
            while i < pieces.len()
                invariant
                    i <= pieces.len(),
                    tr == |a: Seq<char>| trim(a),
                    all == views(pieces@).map_values(tr),
                    str_views(out@) == unique(all.take(i as int)),
                decreases pieces.len() - i,
            {
                let t = trimmed(&pieces[i]);
                proof {
                    let pre = all.take(i + 1);
                    assert(pre.drop_last() == all.take(i as int));
                    assert(pre.last() == t@);
                }
                if !holds(&out, &t) {
                    let text = string_of(&t);
                    assert(str_views(out@.push(text)) =~= str_views(out@).push(text@));
                    out.push(text);
                }
                i = i + 1;
            }
            assert(all.take(pieces.len() as int) == all);
        },
    }
    out
}

fn extra_in(p: &Paragraph) -> (out: Vec<Field>)
    ensures
        fields_view(out@) == extra_of(p@),
{
    let ghost keep = |f: FieldView| !is_modeled(f.key);
    let mut out: Vec<Field> = Vec::new();
    let mut i: usize = 0;
    proof {
        reveal(Seq::filter);
        assert(fields_view(out@) =~= p@.take(0).filter(keep));
    }
    while i < p.fields.len()
        invariant
            i <= p.fields.len(),
            keep == |f: FieldView| !is_modeled(f.key),
            fields_view(out@) == p@.take(i as int).filter(keep),
        decreases p.fields.len() - i,
    {
        let f = &p.fields[i];
        proof {
            reveal(Seq::filter);
            let pre = p@.take(i + 1);
            assert(pre.drop_last() == p@.take(i as int));
            assert(pre.last() == f@);
        }
        if !modeled(f.key.as_str()) {
            let copy = Field { key: copy_of(&f.key), value: copy_of(&f.value) };
            assert(fields_view(out@.push(copy)) =~= fields_view(out@).push(copy@));
            out.push(copy);
        }
        i = i + 1;
    }
    assert(p@.take(p.fields.len() as int) == p@);
    out
}

/// Builds the record that a paragraph describes. It fails with
/// `MissingField` where `Package`, `Version` or `Maintainer` is absent, and
/// with `MalformedConstraint` where a relation field is refused.
pub fn to_package_data(data: &Paragraph) -> (r: Result<PackageRecord, ControlError>)
    ensures
        match r {
            Ok(rec) => record_of(data@) == Ok::<RecordView, ControlError>(rec@),
            Err(e) => record_of(data@) == Err::<RecordView, ControlError>(e),
        },
{
    let name = match data.get("Package") {
        Some(v) => copy_of(v),
        None => {
            return Err(ControlError::MissingField(Mandatory::Package));
        },
    };
    let version = match data.get("Version") {
        Some(v) => copy_of(v),
        None => {
            return Err(ControlError::MissingField(Mandatory::Version));
        },
    };
    let maintainer = match data.get("Maintainer") {
        Some(v) => {
            let (name, email) = parse_maintainer(v.as_str());
            Maintainer { name, email }
        },
        None => {
            return Err(ControlError::MissingField(Mandatory::Maintainer));
        },
    };
    let relations = match relations_in(data) {
        Ok(r) => r,
        Err(e) => {
            return Err(e);
        },
    };
    let description = match data.get("Description") {
        Some(v) => copy_of(v),
        None => String::new(),
    };
    let architectures = architectures_in(data.get("Architecture"));
    let extra = extra_in(data);
    Ok(
        PackageRecord {
            identity: PackageIdentity { name, version: Version { text: version } },
            maintainer,
            description,
            architectures,
            relations,
            extra,
        },
    )
}

/// Nothing is dropped: every field of a paragraph that a record has no
/// place of its own for is found, verbatim, among the extra fields of the
/// record.
pub proof fn lemma_unmodeled_fields_are_kept(fields: Seq<FieldView>, i: int)
    requires
        0 <= i < fields.len(),
        record_of(fields) is Ok,
        !is_modeled(fields[i].key),
    ensures
        record_of(fields)->Ok_0.extra.contains(fields[i]),
{
    let keep = |f: FieldView| !is_modeled(f.key);
    fields.lemma_filter_contains(keep, i);
}

/// The extra fields of a record are fields of the paragraph, and none of
/// them has a place of its own.
pub proof fn lemma_extra_fields_come_from_the_paragraph(fields: Seq<FieldView>, i: int)
    requires
        record_of(fields) is Ok,
        0 <= i < record_of(fields)->Ok_0.extra.len(),
    ensures
        fields.contains(record_of(fields)->Ok_0.extra[i]),
        !is_modeled(record_of(fields)->Ok_0.extra[i].key),
{
    let keep = |f: FieldView| !is_modeled(f.key);
    fields.lemma_filter_pred(keep, i);
    fields.lemma_filter_contains_rev(keep, fields.filter(keep)[i]);
}

} // verus!
