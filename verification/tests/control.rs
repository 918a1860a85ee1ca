use ipm::control::{get_filename, parse_control_file, parse_maintainer, parse_paragraphs};
use ipm::relation::{
    parse_conflict_list, parse_dependency_list, parse_identity_list, ControlError, Operator,
    VersionConstraint,
};

fn shape(c: &VersionConstraint) -> (Option<Operator>, String) {
    match c {
        VersionConstraint::Any => (None, String::new()),
        VersionConstraint::Compare(op, v) => (Some(*op), v.text.clone()),
        other => (None, other.to_string()),
    }
}

#[test]
fn dependency_list_groups_and_alternatives() {
    let groups = parse_dependency_list("a, b | c").unwrap();
    assert_eq!(groups.len(), 2);
    assert_eq!(groups[0].len(), 1);
    assert_eq!(groups[0][0].name, "a");
    assert_eq!(shape(&groups[0][0].constraint), (None, String::new()));
    assert_eq!(groups[1].len(), 2);
    assert_eq!(groups[1][0].name, "b");
    assert_eq!(shape(&groups[1][0].constraint), (None, String::new()));
    assert_eq!(groups[1][1].name, "c");
    assert_eq!(shape(&groups[1][1].constraint), (None, String::new()));
}

#[test]
fn dependency_list_with_version_clauses() {
    let groups = parse_dependency_list("dep-a (>= 1.0) | dep-b (= 2.0), dep-c").unwrap();
    assert_eq!(groups.len(), 2);
    assert_eq!(groups[0][0].name, "dep-a");
    assert_eq!(
        shape(&groups[0][0].constraint),
        (Some(Operator::GreaterOrEqual), "1.0".to_string())
    );
    assert_eq!(groups[0][1].name, "dep-b");
    assert_eq!(shape(&groups[0][1].constraint), (Some(Operator::Exact), "2.0".to_string()));
    assert_eq!(groups[1][0].name, "dep-c");
    assert_eq!(shape(&groups[1][0].constraint), (None, String::new()));
}

#[test]
fn every_operator_is_recognised() {
    let cases = [
        ("p (= 1)", Operator::Exact),
        ("p (> 1)", Operator::GreaterThan),
        ("p (>= 1)", Operator::GreaterOrEqual),
        ("p (< 1)", Operator::LessThan),
        ("p (<= 1)", Operator::LessOrEqual),
        ("p (>=1)", Operator::GreaterOrEqual),
        ("p (>> 1)", Operator::GreaterThan),
        ("p (<< 1)", Operator::LessThan),
        ("p (<<1)", Operator::LessThan),
        ("  p   ( <=   1 )  ", Operator::LessOrEqual),
    ];
    for (text, op) in cases {
        let list = parse_conflict_list(text).unwrap();
        assert_eq!(list.len(), 1);
        assert_eq!(list[0].name, "p");
        assert_eq!(shape(&list[0].constraint), (Some(op), "1".to_string()));
    }
}

#[test]
fn malformed_alternatives_are_refused() {
    assert_eq!(parse_dependency_list("").err(), Some(ControlError::MalformedConstraint));
    assert_eq!(parse_dependency_list("a, ").err(), Some(ControlError::MalformedConstraint));
    assert_eq!(parse_dependency_list("a | | b").err(), Some(ControlError::MalformedConstraint));
    assert_eq!(parse_dependency_list("a (1.0)").err(), Some(ControlError::MalformedConstraint));
    assert_eq!(parse_dependency_list("a (>= )").err(), Some(ControlError::MalformedConstraint));
    assert_eq!(parse_dependency_list("a (>= 1 0)").err(), Some(ControlError::MalformedConstraint));
    assert_eq!(parse_dependency_list("a (=> 3.0)").err(), Some(ControlError::MalformedConstraint));
    assert_eq!(parse_dependency_list("a (>>> 3.0)").err(), Some(ControlError::MalformedConstraint));
    assert_eq!(parse_dependency_list("a (! 3.0)").err(), Some(ControlError::MalformedConstraint));
    assert_eq!(parse_conflict_list("a | b").err(), Some(ControlError::MalformedConstraint));
}

#[test]
fn identity_list_with_and_without_versions() {
    let ids = parse_identity_list("virtual-pkg (= 4.0), another-virtual, third (2.1)").unwrap();
    assert_eq!(ids.len(), 3);
    assert_eq!(ids[0].name, "virtual-pkg");
    assert_eq!(ids[0].version.text, "4.0");
    assert_eq!(ids[1].name, "another-virtual");
    assert_eq!(ids[1].version.text, "");
    assert_eq!(ids[2].name, "third");
    assert_eq!(ids[2].version.text, "2.1");
    assert_eq!(parse_identity_list("a, ").err(), Some(ControlError::MalformedConstraint));
    assert_eq!(parse_identity_list("a ()").err(), Some(ControlError::MalformedConstraint));
}

#[test]
fn maintainer_with_and_without_address() {
    assert_eq!(
        parse_maintainer("John Doe <john.doe@example.com>"),
        ("John Doe".to_string(), "john.doe@example.com".to_string())
    );
    assert_eq!(parse_maintainer("John Doe"), ("John Doe".to_string(), String::new()));
    assert_eq!(parse_maintainer("John <doe"), ("John <doe".to_string(), String::new()));
    assert_eq!(parse_maintainer("a > b <c>"), ("a > b".to_string(), "c".to_string()));
    assert_eq!(parse_maintainer("a <b> <c>"), ("a".to_string(), "b".to_string()));
    assert_eq!(parse_maintainer(""), (String::new(), String::new()));
}

#[test]
fn control_file_fields_and_continuations() {
    let text = "Package: demo\nVersion: 1.0\nDescription: short\n long line one\n\tlong line two\nDepends: a, b\n";
    let p = parse_control_file(text).unwrap();
    assert_eq!(p.fields.len(), 4);
    assert_eq!(p.get("Package").unwrap(), "demo");
    assert_eq!(p.get("Version").unwrap(), "1.0");
    assert_eq!(p.get("Description").unwrap(), "short\nlong line one\nlong line two");
    assert_eq!(p.get("Depends").unwrap(), "a, b");
    assert!(p.get("Missing").is_none());
    assert!(!p.has("package"));
}

#[test]
fn control_file_edge_cases() {
    let p = parse_control_file("").unwrap();
    assert_eq!(p.fields.len(), 0);
    let p = parse_control_file(" orphan continuation\nno colon here\n: empty key\nKey:\n more\r\nKey2 : v : w").unwrap();
    assert_eq!(p.fields.len(), 2);
    assert_eq!(p.fields[0].key, "Key");
    assert_eq!(p.fields[0].value, "\nmore");
    assert_eq!(p.fields[1].key, "Key2");
    assert_eq!(p.fields[1].value, "v : w");
    let p = parse_control_file("A: 1\nA: 2\n").unwrap();
    assert_eq!(p.fields.len(), 2);
    assert_eq!(p.get("A").unwrap(), "2");
}

#[test]
fn paragraphs_are_separated_by_blank_lines() {
    let text = "\n\nPackage: a\nVersion: 1\n\n   \nPackage: b\nVersion: 2\n desc\n\n";
    let ps = parse_paragraphs(text);
    assert_eq!(ps.len(), 2);
    assert_eq!(ps[0].get("Package").unwrap(), "a");
    assert_eq!(ps[0].get("Version").unwrap(), "1");
    assert_eq!(ps[1].get("Package").unwrap(), "b");
    assert_eq!(ps[1].get("Version").unwrap(), "2\ndesc");
    assert_eq!(parse_paragraphs("").len(), 0);
    let last = parse_paragraphs("Package: z");
    assert_eq!(last.len(), 1);
    assert_eq!(last[0].get("Package").unwrap(), "z");
}

#[test]
fn filename_line() {
    assert_eq!(get_filename("Package: a\nFilename:  pool/main/a/a_1.deb \nFilename: other\n"), "pool/main/a/a_1.deb");
    assert_eq!(get_filename("Package: a\n"), "");
    assert_eq!(get_filename(" Filename: x\n"), "");
}

#[test]
fn wildcard_constraints() {
    let list = parse_conflict_list("a (1.*), b (12.34.*), c ( 007.0.* )").unwrap();
    assert!(matches!(list[0].constraint, VersionConstraint::WildcardMinor(1)));
    assert!(matches!(list[1].constraint, VersionConstraint::WildcardPatch(12, 34)));
    assert!(matches!(list[2].constraint, VersionConstraint::WildcardPatch(7, 0)));
    assert_eq!(list[0].to_string(), "a (1.*)");
    assert_eq!(list[1].to_string(), "b (12.34.*)");
    assert_eq!(list[2].to_string(), "c (7.0.*)");
    assert_eq!(VersionConstraint::WildcardMinor(0).to_string(), "0.*");
    assert_eq!(
        VersionConstraint::WildcardPatch(18446744073709551615, 10).to_string(),
        "18446744073709551615.10.*"
    );
    let big = parse_conflict_list("a (18446744073709551615.*)").unwrap();
    assert!(matches!(big[0].constraint, VersionConstraint::WildcardMinor(u64::MAX)));
    for bad in [
        "a (18446744073709551616.*)",
        "a (1.2.3.*)",
        "a (1.*.*)",
        "a (.*)",
        "a (1.)",
        "a (1)",
        "a (*)",
        "a (1.x.*)",
        "a (1 .*)",
        "a (1.**)",
        "a (-1.*)",
    ] {
        assert_eq!(parse_conflict_list(bad).err(), Some(ControlError::MalformedConstraint), "{}", bad);
    }
}

#[test]
fn trimming_removes_unicode_white_space() {
    assert_eq!(
        parse_maintainer("\u{3000}Jane\u{a0}<\u{2003}j@example.org\u{85}>"),
        ("Jane".to_string(), "j@example.org".to_string())
    );
    let p = parse_control_file("Key\u{2028}:\u{1680}value\u{205f}\n").unwrap();
    assert_eq!(p.fields[0].key, "Key");
    assert_eq!(p.fields[0].value, "value");
    let p = parse_control_file("Key: a\u{200b}b").unwrap();
    assert_eq!(p.fields[0].value, "a\u{200b}b");
    let p = parse_control_file("Key: a\n\u{a0}b\n\u{200b}c: d\n").unwrap();
    assert_eq!(p.fields.len(), 2);
    assert_eq!(p.fields[0].value, "a\nb");
    assert_eq!(p.fields[1].key, "\u{200b}c");
}
