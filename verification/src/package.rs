//! One entry of an archive index as its paragraph states it, and the
//! record that it becomes.

use crate::control::{fields_view, lookup, maintainer_of, parse_maintainer, Field, FieldView,
    Paragraph};
use crate::record::{opt_view, relations_in, relations_of, text_or_empty, Maintainer,
    PackageRecord, RecordView, RelationSet, RelationsView};
use crate::relation::{deps_view, groups_view, identities_view, ControlError, Dependency,
    IdentityView, Mandatory, PackageIdentity, Version};
use crate::text::{same_str, str_views};
use vstd::prelude::*;
use vstd::std_specs::convert::FromSpecImpl;

verus! {

/// A package entry of an archive index. The mandatory fields and the
/// relations have places of their own; so have the optional fields that
/// the index format names. Every other field is kept in `other_fields`.
#[derive(Debug, Clone)]
pub struct Package {
    pub package: String,
    pub version: String,
    pub maintainer: String,
    pub description: Option<String>,
    pub suite: String,
    pub component: String,
    pub architecture: Option<String>,
    pub section: Option<String>,
    pub priority: Option<String>,
    pub homepage: Option<String>,
    pub depends: Vec<Vec<Dependency>>,
    pub recommends: Vec<Vec<Dependency>>,
    pub suggests: Vec<Vec<Dependency>>,
    pub conflicts: Vec<Dependency>,
    pub replaces: Vec<Dependency>,
    pub provides: Vec<PackageIdentity>,
    pub built_using: Option<String>,
    pub original_maintainer: Option<String>,
    pub other_fields: Vec<Field>,
}

/// A package entry of an archive index, as plain values.
pub struct PackageView {
    pub package: Seq<char>,
    pub version: Seq<char>,
    pub maintainer: Seq<char>,
    pub description: Option<Seq<char>>,
    pub suite: Seq<char>,
    pub component: Seq<char>,
    pub architecture: Option<Seq<char>>,
    pub section: Option<Seq<char>>,
    pub priority: Option<Seq<char>>,
    pub homepage: Option<Seq<char>>,
    pub relations: RelationsView,
    pub built_using: Option<Seq<char>>,
    pub original_maintainer: Option<Seq<char>>,
    pub other_fields: Seq<FieldView>,
}

/// The view of an optional text.
pub open spec fn text_view(v: Option<String>) -> Option<Seq<char>> {
    match v {
        Some(s) => Some(s@),
        None => None,
    }
}

impl View for Package {
    type V = PackageView;

    open spec fn view(&self) -> PackageView {
        PackageView {
            package: self.package@,
            version: self.version@,
            maintainer: self.maintainer@,
            description: text_view(self.description),
            suite: self.suite@,
            component: self.component@,
            architecture: text_view(self.architecture),
            section: text_view(self.section),
            priority: text_view(self.priority),
            homepage: text_view(self.homepage),
            relations: RelationsView {
                depends: groups_view(self.depends@),
                recommends: groups_view(self.recommends@),
                suggests: groups_view(self.suggests@),
                conflicts: deps_view(self.conflicts@),
                replaces: deps_view(self.replaces@),
                provides: identities_view(self.provides@),
            },
            built_using: text_view(self.built_using),
            original_maintainer: text_view(self.original_maintainer),
            other_fields: fields_view(self.other_fields@),
        }
    }
}

/// The views of a sequence of packages.
pub open spec fn packages_view(v: Seq<Package>) -> Seq<PackageView> {
    v.map_values(|p: Package| p@)
}

/// Whether a package entry gives a field a place of its own.
pub open spec fn is_taken(key: Seq<char>) -> bool {
    ||| key == "Package"@
    ||| key == "Version"@
    ||| key == "Maintainer"@
    ||| key == "Description"@
    ||| key == "Section"@
    ||| key == "Priority"@
    ||| key == "Homepage"@
    ||| key == "Built-Using"@
    ||| key == "Original-Maintainer"@
    ||| key == "Depends"@
    ||| key == "Recommends"@
    ||| key == "Suggests"@
    ||| key == "Conflicts"@
    ||| key == "Replaces"@
    ||| key == "Provides"@
}

/// The fields of a paragraph that a package entry keeps in `other_fields`.
pub open spec fn others_of(fields: Seq<FieldView>) -> Seq<FieldView> {
    fields.filter(|f: FieldView| !is_taken(f.key))
}

/// The mandatory field that a paragraph lacks, in the order `Package`,
/// `Version`, `Maintainer`.
pub open spec fn missing_of(fields: Seq<FieldView>) -> Option<Mandatory> {
    crate::record::missing_field(fields)
}

/// The package entry that a paragraph of the index of `suite`, `component`
/// and `architecture` describes. A mandatory field that is absent is
/// reported before a relation that is refused.
pub open spec fn package_of(
    fields: Seq<FieldView>,
    suite: Seq<char>,
    component: Seq<char>,
    architecture: Option<Seq<char>>,
) -> Result<PackageView, ControlError> {
    match missing_of(fields) {
        Some(m) => Err(ControlError::MissingField(m)),
        None => match relations_of(fields) {
            Err(e) => Err(e),
            Ok(relations) => Ok(
                PackageView {
                    package: lookup(fields, "Package"@)->Some_0,
                    version: lookup(fields, "Version"@)->Some_0,
                    maintainer: lookup(fields, "Maintainer"@)->Some_0,
                    description: lookup(fields, "Description"@),
                    suite,
                    component,
                    architecture,
                    section: lookup(fields, "Section"@),
                    priority: lookup(fields, "Priority"@),
                    homepage: lookup(fields, "Homepage"@),
                    relations,
                    built_using: lookup(fields, "Built-Using"@),
                    original_maintainer: lookup(fields, "Original-Maintainer"@),
                    other_fields: others_of(fields),
                },
            ),
        },
    }
}

/// The field that an optional text of a package entry came from, if the
/// text is there.
pub open spec fn field_back(key: Seq<char>, v: Option<Seq<char>>) -> Seq<FieldView> {
    match v {
        Some(value) => seq![FieldView { key, value }],
        None => Seq::empty(),
    }
}

/// The architectures of a record made of a package entry: the one of the
/// index that it came from, if that index has one.
pub open spec fn single(v: Option<Seq<char>>) -> Seq<Seq<char>> {
    match v {
        Some(a) => seq![a],
        None => Seq::empty(),
    }
}

/// The record that a package entry becomes. Nothing is dropped: the
/// optional fields that a record has no place for go to `extra`, before the
/// entry's other fields.
pub open spec fn record_of_package(p: PackageView) -> RecordView {
    RecordView {
        identity: IdentityView { name: p.package, version: p.version },
        maintainer: maintainer_of(p.maintainer),
        description: text_or_empty(p.description),
        architectures: single(p.architecture),
        relations: p.relations,
        extra: field_back("Section"@, p.section) + field_back("Priority"@, p.priority)
            + field_back("Homepage"@, p.homepage) + field_back("Built-Using"@, p.built_using)
            + field_back("Original-Maintainer"@, p.original_maintainer) + p.other_fields,
    }
}

fn taken(key: &str) -> (r: bool)
    ensures
        r == is_taken(key@),
{
    same_str(key, "Package") || same_str(key, "Version") || same_str(key, "Maintainer")
        || same_str(key, "Description") || same_str(key, "Section") || same_str(key, "Priority")
        || same_str(key, "Homepage") || same_str(key, "Built-Using") || same_str(
        key,
        "Original-Maintainer",
    ) || same_str(key, "Depends") || same_str(key, "Recommends") || same_str(key, "Suggests")
        || same_str(key, "Conflicts") || same_str(key, "Replaces") || same_str(key, "Provides")
}

fn owned(v: Option<&String>) -> (r: Option<String>)
    ensures
        text_view(r) == opt_view(v),
{
    match v {
        Some(s) => Some(s.clone()),
        None => None,
    }
}

fn others_in(p: &Paragraph) -> (out: Vec<Field>)
    ensures
        fields_view(out@) == others_of(p@),
{
    let ghost keep = |f: FieldView| !is_taken(f.key);
    let mut out: Vec<Field> = Vec::new();
    let mut i: usize = 0;
    proof {
        reveal(Seq::filter);
        assert(fields_view(out@) =~= p@.take(0).filter(keep));
    }
    while i < p.fields.len()
        invariant
            i <= p.fields.len(),
            keep == |f: FieldView| !is_taken(f.key),
            fields_view(out@) == p@.take(i as int).filter(keep),
        decreases p.fields.len() - i,
    {
        let f = &p.fields[i];
        proof {
            reveal(Seq::filter);
            let pre = p@.take(i + 1);
            assert(pre.drop_last() == p@.take(i as int));
            assert(pre.last() == f@);
        }
        if !taken(f.key.as_str()) {
            let copy = Field { key: f.key.clone(), value: f.value.clone() };
            assert(fields_view(out@.push(copy)) =~= fields_view(out@).push(copy@));
            out.push(copy);
        }
        i = i + 1;
    }
    assert(p@.take(p.fields.len() as int) == p@);
    out
}

fn push_back(out: &mut Vec<Field>, key: &str, v: Option<String>)
    ensures
        fields_view(final(out)@) == fields_view(old(out)@) + field_back(key@, text_view(v)),
{
    match v {
        Some(value) => {
            let f = Field { key: crate::text::string_of(&crate::text::chars_of(key)), value };
            assert(fields_view(out@.push(f)) =~= fields_view(out@) + seq![f@]);
            out.push(f);
        },
        None => {
            assert(fields_view(out@) =~= fields_view(out@) + Seq::<FieldView>::empty());
        },
    }
}

impl Package {
    /// Builds a package entry from a paragraph of the index of `suite`,
    /// `component` and `architecture`. It fails with `MissingField` where
    /// `Package`, `Version` or `Maintainer` is absent, and with
    /// `MalformedConstraint` where a relation field is refused.
    pub fn try_from_deb822_paragraph(
        fields: &Paragraph,
        suite: String,
        component: String,
        architecture: Option<String>,
    ) -> (r: Result<Package, ControlError>)
        ensures
            match r {
                Ok(p) => package_of(fields@, suite@, component@, text_view(architecture)) == Ok::<
                    PackageView,
                    ControlError,
                >(p@),
                Err(e) => package_of(fields@, suite@, component@, text_view(architecture)) == Err::<
                    PackageView,
                    ControlError,
                >(e),
            },
    {
        let package = match fields.get("Package") {
            Some(v) => v.clone(),
            None => {
                return Err(ControlError::MissingField(Mandatory::Package));
            },
        };
        let version = match fields.get("Version") {
            Some(v) => v.clone(),
            None => {
                return Err(ControlError::MissingField(Mandatory::Version));
            },
        };
        let maintainer = match fields.get("Maintainer") {
            Some(v) => v.clone(),
            None => {
                return Err(ControlError::MissingField(Mandatory::Maintainer));
            },
        };
        let relations = match relations_in(fields) {
            Ok(r) => r,
            Err(e) => {
                return Err(e);
            },
        };
        Ok(
            Package {
                package,
                version,
                maintainer,
                description: owned(fields.get("Description")),
                suite,
                component,
                architecture,
                section: owned(fields.get("Section")),
                priority: owned(fields.get("Priority")),
                homepage: owned(fields.get("Homepage")),
                depends: relations.depends,
                recommends: relations.recommends,
                suggests: relations.suggests,
                conflicts: relations.conflicts,
                replaces: relations.replaces,
                provides: relations.provides,
                built_using: owned(fields.get("Built-Using")),
                original_maintainer: owned(fields.get("Original-Maintainer")),
                other_fields: others_in(fields),
            },
        )
    }

    /// The record that this entry becomes.
    pub fn into_record(self) -> (r: PackageRecord)
        ensures
            r@ == record_of_package(self@),
    {
        let (name, email) = parse_maintainer(self.maintainer.as_str());
        let description = match self.description {
            Some(d) => d,
            None => String::new(),
        };
        let mut architectures: Vec<String> = Vec::new();
        match self.architecture {
            Some(a) => {
                architectures.push(a);
                assert(str_views(architectures@) =~= seq![a@]);
            },
            None => {
                assert(str_views(architectures@) =~= Seq::<Seq<char>>::empty());
            },
        }
        let mut extra: Vec<Field> = Vec::new();
        assert(fields_view(extra@) =~= Seq::<FieldView>::empty());
        push_back(&mut extra, "Section", self.section);
        push_back(&mut extra, "Priority", self.priority);
        push_back(&mut extra, "Homepage", self.homepage);
        push_back(&mut extra, "Built-Using", self.built_using);
        push_back(&mut extra, "Original-Maintainer", self.original_maintainer);
        let ghost head = fields_view(extra@);
        let mut others = self.other_fields;
        let ghost tail = fields_view(others@);
        extra.append(&mut others);
        assert(fields_view(extra@) =~= head + tail);
        PackageRecord {
            identity: PackageIdentity { name: self.package, version: Version { text: self.version } },
            maintainer: Maintainer { name, email },
            description,
            architectures,
            relations: RelationSet {
                depends: self.depends,
                recommends: self.recommends,
                suggests: self.suggests,
                conflicts: self.conflicts,
                replaces: self.replaces,
                provides: self.provides,
            },
            extra,
        }
    }
}

impl From<Package> for PackageRecord {
    fn from(pkg: Package) -> (r: PackageRecord)
        ensures
            r@ == record_of_package(pkg@),
    {
        pkg.into_record()
    }
}

/// The conversion is specified by its view alone: two records with the
/// same view need not be the same value.
impl FromSpecImpl<Package> for PackageRecord {
    open spec fn obeys_from_spec() -> bool {
        false
    }

    open spec fn from_spec(pkg: Package) -> PackageRecord {
        arbitrary()
    }
}

} // verus!
