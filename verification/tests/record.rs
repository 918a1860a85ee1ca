use ipm::control::{parse_control_file, Field, Paragraph};
use ipm::package::Package;
use ipm::record::{to_package_data, PackageRecord};
use ipm::relation::{
    ControlError, Dependency, Mandatory, Operator, Version, VersionConstraint,
};

fn paragraph(pairs: &[(&str, &str)]) -> Paragraph {
    Paragraph {
        fields: pairs
            .iter()
            .map(|(k, v)| Field { key: k.to_string(), value: v.to_string() })
            .collect(),
    }
}

fn full() -> Paragraph {
    paragraph(&[
        ("Package", "example-package"),
        ("Version", "1.2.3-1ubuntu1"),
        ("Maintainer", "John Doe <john.doe@example.com>"),
        ("Description", "A sample package for testing conversion."),
        ("Architecture", "amd64, arm64"),
        ("Section", "misc"),
        ("Priority", "optional"),
        ("Homepage", "http://example.com"),
        ("Depends", "dep-a (>= 1.0) | dep-b (= 2.0), dep-c"),
        ("Recommends", "rec-x"),
        ("Suggests", "sugg-y (>> 3.0)"),
        ("Conflicts", "conflict-old (<< 1.0)"),
        ("Replaces", "old-replaced-pkg"),
        ("Provides", "virtual-pkg (= 4.0), another-virtual"),
        ("Filename", "pool/main/e/example.deb"),
    ])
}

#[test]
fn record_from_full_paragraph() {
    let rec = to_package_data(&full()).unwrap();
    assert_eq!(rec.identity.name, "example-package");
    assert_eq!(rec.identity.version.text, "1.2.3-1ubuntu1");
    assert_eq!(rec.maintainer.name, "John Doe");
    assert_eq!(rec.maintainer.email, "john.doe@example.com");
    assert_eq!(rec.description, "A sample package for testing conversion.");
    assert_eq!(rec.architectures, vec!["amd64".to_string(), "arm64".to_string()]);
    assert_eq!(rec.relations.depends.len(), 2);
    assert_eq!(rec.relations.depends[0].len(), 2);
    assert_eq!(rec.relations.depends[0][0].name, "dep-a");
    assert_eq!(rec.relations.depends[0][0].constraint.to_string(), ">= 1.0");
    assert_eq!(rec.relations.depends[0][1].name, "dep-b");
    assert_eq!(rec.relations.depends[0][1].constraint.to_string(), "= 2.0");
    assert_eq!(rec.relations.depends[1][0].name, "dep-c");
    assert_eq!(rec.relations.depends[1][0].constraint.to_string(), "");
    assert_eq!(rec.relations.recommends[0][0].name, "rec-x");
    assert_eq!(rec.relations.suggests[0][0].constraint.to_string(), "> 3.0");
    assert_eq!(rec.relations.conflicts.len(), 1);
    assert_eq!(rec.relations.conflicts[0].name, "conflict-old");
    assert_eq!(rec.relations.conflicts[0].constraint.to_string(), "< 1.0");
    assert_eq!(rec.relations.replaces.len(), 1);
    assert_eq!(rec.relations.replaces[0].name, "old-replaced-pkg");
    assert_eq!(rec.relations.provides.len(), 2);
    assert_eq!(rec.relations.provides[0].name, "virtual-pkg");
    assert_eq!(rec.relations.provides[0].version.text, "4.0");
    assert_eq!(rec.relations.provides[1].name, "another-virtual");
    let extra: Vec<(&str, &str)> =
        rec.extra.iter().map(|f| (f.key.as_str(), f.value.as_str())).collect();
    assert_eq!(
        extra,
        vec![
            ("Section", "misc"),
            ("Priority", "optional"),
            ("Homepage", "http://example.com"),
            ("Filename", "pool/main/e/example.deb"),
        ]
    );
}

#[test]
fn record_needs_package_version_and_maintainer() {
    let none = paragraph(&[("Description", "x")]);
    assert_eq!(
        to_package_data(&none).err(),
        Some(ControlError::MissingField(Mandatory::Package))
    );
    let no_version = paragraph(&[("Package", "a"), ("Maintainer", "m")]);
    assert_eq!(
        to_package_data(&no_version).err(),
        Some(ControlError::MissingField(Mandatory::Version))
    );
    let no_maintainer = paragraph(&[("Package", "a"), ("Version", "1")]);
    assert_eq!(
        to_package_data(&no_maintainer).err(),
        Some(ControlError::MissingField(Mandatory::Maintainer))
    );
    let twice = paragraph(&[
        ("Package", "a"),
        ("Version", "1"),
        ("Maintainer", "m"),
        ("Architecture", "amd64, arm64 ,amd64,i386, arm64"),
    ]);
    assert_eq!(
        to_package_data(&twice).unwrap().architectures,
        vec!["amd64".to_string(), "arm64".to_string(), "i386".to_string()]
    );
    let minimal = paragraph(&[("Package", "a"), ("Version", "1"), ("Maintainer", "m")]);
    let rec = to_package_data(&minimal).unwrap();
    assert_eq!(rec.description, "");
    assert!(rec.architectures.is_empty());
    assert!(rec.relations.depends.is_empty());
    assert!(rec.relations.provides.is_empty());
    assert!(rec.extra.is_empty());
    assert_eq!(rec.maintainer.name, "m");
    assert_eq!(rec.maintainer.email, "");
}

#[test]
fn missing_field_is_reported_before_malformed_relation() {
    let p = paragraph(&[("Package", "a"), ("Depends", "( broken"), ("Maintainer", "m")]);
    assert_eq!(to_package_data(&p).err(), Some(ControlError::MissingField(Mandatory::Version)));
    let q = paragraph(&[
        ("Package", "a"),
        ("Version", "1"),
        ("Maintainer", "m"),
        ("Conflicts", "x (1.0)"),
    ]);
    assert_eq!(to_package_data(&q).err(), Some(ControlError::MalformedConstraint));
}

#[test]
fn record_from_control_text() {
    let text = "Package: demo\nVersion: 2.0\nMaintainer: Jane <jane@example.org>\nDescription: first\n second\nX-Custom: kept\n";
    let p = parse_control_file(text).unwrap();
    let rec = to_package_data(&p).unwrap();
    assert_eq!(rec.identity.name, "demo");
    assert_eq!(rec.description, "first\nsecond");
    assert_eq!(rec.extra.len(), 1);
    assert_eq!(rec.extra[0].key, "X-Custom");
    assert_eq!(rec.extra[0].value, "kept");
}

#[test]
fn package_entry_keeps_optional_and_other_fields() {
    let pkg = Package::try_from_deb822_paragraph(
        &full(),
        "noble".to_string(),
        "main".to_string(),
        Some("amd64".to_string()),
    )
    .unwrap();
    assert_eq!(pkg.package, "example-package");
    assert_eq!(pkg.version, "1.2.3-1ubuntu1");
    assert_eq!(pkg.maintainer, "John Doe <john.doe@example.com>");
    assert_eq!(pkg.description.as_deref(), Some("A sample package for testing conversion."));
    assert_eq!(pkg.suite, "noble");
    assert_eq!(pkg.component, "main");
    assert_eq!(pkg.architecture.as_deref(), Some("amd64"));
    assert_eq!(pkg.section.as_deref(), Some("misc"));
    assert_eq!(pkg.priority.as_deref(), Some("optional"));
    assert_eq!(pkg.homepage.as_deref(), Some("http://example.com"));
    assert_eq!(pkg.built_using, None);
    assert_eq!(pkg.original_maintainer, None);
    assert_eq!(pkg.depends.len(), 2);
    assert_eq!(pkg.provides.len(), 2);
    let others: Vec<(&str, &str)> =
        pkg.other_fields.iter().map(|f| (f.key.as_str(), f.value.as_str())).collect();
    assert_eq!(others, vec![("Architecture", "amd64, arm64"), ("Filename", "pool/main/e/example.deb")]);
}

#[test]
fn package_entry_errors() {
    let p = paragraph(&[("Version", "1"), ("Maintainer", "m")]);
    assert_eq!(
        Package::try_from_deb822_paragraph(&p, String::new(), String::new(), None).err(),
        Some(ControlError::MissingField(Mandatory::Package))
    );
    let q = paragraph(&[
        ("Package", "a"),
        ("Version", "1"),
        ("Maintainer", "m"),
        ("Depends", "x, "),
    ]);
    assert_eq!(
        Package::try_from_deb822_paragraph(&q, String::new(), String::new(), None).err(),
        Some(ControlError::MalformedConstraint)
    );
}

#[test]
fn package_becomes_record() {
    let pkg = Package {
        package: "example-package".to_string(),
        version: "1.2.3-1ubuntu1".to_string(),
        maintainer: "John Doe <john.doe@example.com>".to_string(),
        description: Some("A sample package for testing conversion.".to_string()),
        suite: "noble".to_string(),
        component: "main".to_string(),
        architecture: Some("amd64".to_string()),
        section: Some("misc".to_string()),
        priority: None,
        homepage: Some("http://example.com".to_string()),
        depends: vec![vec![Dependency {
            name: "dep-a".to_string(),
            constraint: VersionConstraint::Compare(
                Operator::GreaterOrEqual,
                Version { text: "1.0".to_string() },
            ),
        }]],
        recommends: vec![],
        suggests: vec![],
        conflicts: vec![Dependency {
            name: "conflict-old".to_string(),
            constraint: VersionConstraint::Any,
        }],
        replaces: vec![Dependency {
            name: "old-replaced-pkg".to_string(),
            constraint: VersionConstraint::Any,
        }],
        provides: vec![],
        built_using: None,
        original_maintainer: Some("Upstream <up@example.com>".to_string()),
        other_fields: vec![Field { key: "Filename".to_string(), value: "pool/x.deb".to_string() }],
    };
    let rec: PackageRecord = pkg.into();
    assert_eq!(rec.identity.name, "example-package");
    assert_eq!(rec.identity.version.text, "1.2.3-1ubuntu1");
    assert_eq!(rec.maintainer.name, "John Doe");
    assert_eq!(rec.maintainer.email, "john.doe@example.com");
    assert_eq!(rec.description, "A sample package for testing conversion.");
    assert_eq!(rec.architectures, vec!["amd64".to_string()]);
    assert_eq!(rec.relations.depends[0][0].name, "dep-a");
    assert_eq!(rec.relations.depends[0][0].constraint.to_string(), ">= 1.0");
    assert_eq!(rec.relations.conflicts[0].name, "conflict-old");
    assert_eq!(rec.relations.replaces[0].name, "old-replaced-pkg");
    let extra: Vec<(&str, &str)> =
        rec.extra.iter().map(|f| (f.key.as_str(), f.value.as_str())).collect();
    assert_eq!(
        extra,
        vec![
            ("Section", "misc"),
            ("Homepage", "http://example.com"),
            ("Original-Maintainer", "Upstream <up@example.com>"),
            ("Filename", "pool/x.deb"),
        ]
    );
}

#[test]
fn constraint_text_round_trip() {
    let cases = [
        ("p (= 1.0)", "= 1.0", "p (= 1.0)"),
        ("p (>=2:1.0~rc1)", ">= 2:1.0~rc1", "p (>= 2:1.0~rc1)"),
        ("  p   ( <   0.9 ) ", "< 0.9", "p (< 0.9)"),
        ("p", "", "p"),
    ];
    for (token, constraint, canonical) in cases {
        let d = ipm::relation::parse_conflict_list(token).unwrap().remove(0);
        assert_eq!(d.constraint.to_string(), constraint);
        assert_eq!(d.to_string(), canonical);
        let again = ipm::relation::parse_conflict_list(&d.to_string()).unwrap().remove(0);
        assert_eq!(again.name, d.name);
        assert_eq!(again.constraint.to_string(), d.constraint.to_string());
    }
    assert_eq!(Operator::LessOrEqual.text(), "<=");
    assert_eq!(Operator::GreaterThan.text(), ">");
}
