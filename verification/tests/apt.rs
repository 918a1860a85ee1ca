use flate2::write::GzEncoder;
use flate2::Compression;
use ipm::apt::{
    assemble, candidate, catalog_of, decode_body, entries_of, fetch, harvest_paragraphs,
    packages_url, targets, AptInfo, AptSession, AptType, AptWarning, FlatSession, Target,
};
use ipm::repo::archive_url;
use ipm::control::parse_paragraphs;
use ipm::error::ErrorKind;
use ipm::repo::Timestamp;
use ipm::relation::{ControlError, Mandatory};
use ipm::www::URL;
use std::io::Write;

fn gz(text: &str) -> Vec<u8> {
    let mut enc = GzEncoder::new(Vec::new(), Compression::default());
    enc.write_all(text.as_bytes()).unwrap();
    enc.finish().unwrap()
}

fn info(kind: AptType, suites: &[&str], components: &[&str], archs: &[&str]) -> AptInfo {
    AptInfo {
        types: kind,
        uris: "http://mirror.test/debian".to_string(),
        suites: suites.iter().map(|s| s.to_string()).collect(),
        components: components.iter().map(|s| s.to_string()).collect(),
        architectures: archs.iter().map(|s| s.to_string()).collect(),
    }
}

const INDEX: &str = "Package: foo\nVersion: 1.0\nMaintainer: A <a@example.org>\nFilename: pool/main/f/foo/foo_1.0.deb\n\nPackage: broken\nVersion: 2.0\n\nPackage: bar\nVersion: 2.0\nMaintainer: B\nDepends: foo (>= 1.0)\n";

#[test]
fn targets_in_fetch_order() {
    let i = info(AptType::Deb, &["stable", "testing"], &["main", "contrib"], &["amd64", "arm64"]);
    let ts: Vec<(String, String, Option<String>)> =
        targets(&i).into_iter().map(|t| (t.suite, t.component, t.architecture)).collect();
    let expect: Vec<(String, String, Option<String>)> = [
        ("stable", "main", "amd64"),
        ("stable", "main", "arm64"),
        ("stable", "contrib", "amd64"),
        ("stable", "contrib", "arm64"),
        ("testing", "main", "amd64"),
        ("testing", "main", "arm64"),
        ("testing", "contrib", "amd64"),
        ("testing", "contrib", "arm64"),
    ]
    .iter()
    .map(|(s, c, a)| (s.to_string(), c.to_string(), Some(a.to_string())))
    .collect();
    assert_eq!(ts, expect);
    let src = info(AptType::DebSrc, &["stable"], &["main", "contrib"], &["amd64"]);
    let ts: Vec<(String, String, Option<String>)> =
        targets(&src).into_iter().map(|t| (t.suite, t.component, t.architecture)).collect();
    assert_eq!(
        ts,
        vec![
            ("stable".to_string(), "main".to_string(), None),
            ("stable".to_string(), "contrib".to_string(), None),
        ]
    );
    assert!(targets(&info(AptType::Deb, &["stable"], &["main"], &[])).is_empty());
    assert!(targets(&info(AptType::Deb, &[], &["main"], &["amd64"])).is_empty());
}

#[test]
fn candidate_locations() {
    let t = Target {
        suite: "noble".to_string(),
        component: "main".to_string(),
        architecture: Some("amd64".to_string()),
    };
    assert_eq!(
        candidate("http://m.test/ubuntu", &t, true),
        "http://m.test/ubuntu/dists/noble/main/binary-amd64/Packages.gz"
    );
    assert_eq!(
        candidate("http://m.test/ubuntu", &t, false),
        "http://m.test/ubuntu/dists/noble/main/binary-amd64/Packages"
    );
    let s = Target { suite: "noble".to_string(), component: "main".to_string(), architecture: None };
    assert_eq!(candidate("http://m.test", &s, true), "http://m.test/dists/noble/main/source/Sources.gz");
    assert_eq!(candidate("http://m.test", &s, false), "http://m.test/dists/noble/main/source/Sources");
    assert_eq!(AptType::default(), AptType::Deb);
    assert_eq!(AptType::Deb.name(), "deb");
    assert_eq!(AptType::DebSrc.name(), "deb-src");
}

#[test]
fn body_is_decompressed_by_suffix() {
    let body = gz("hello\n");
    assert_ne!(body, b"hello\n".to_vec());
    assert_eq!(decode_body("http://m/Packages.gz", &body), Ok("hello\n".to_string()));
    assert_eq!(decode_body("http://m/Packages", &b"hello\n".to_vec()), Ok("hello\n".to_string()));
    assert_eq!(
        decode_body("http://m/Packages.gz", &b"hello\n".to_vec()),
        Err("not a gzip stream".to_string())
    );
    assert_eq!(decode_body("http://m/Packages", &vec![0xff, 0xfe]), Err("not UTF-8 text".to_string()));
    assert_eq!(decode_body("http://m/Packages.gz", &gz_bytes(&[0xff, 0xfe])), Err("not UTF-8 text".to_string()));
    assert_eq!(decode_body(".gz", &body), Ok("hello\n".to_string()));
    assert_eq!(decode_body("gz", &b"x".to_vec()), Ok("x".to_string()));
}

fn gz_bytes(raw: &[u8]) -> Vec<u8> {
    let mut enc = GzEncoder::new(Vec::new(), Compression::default());
    enc.write_all(raw).unwrap();
    enc.finish().unwrap()
}

#[test]
fn session_falls_back_to_uncompressed_index() {
    let i = info(AptType::Deb, &["stable"], &["main"], &["amd64"]);
    let mut s = i.get_packages();
    assert_eq!(
        s.pending().as_deref(),
        Some("http://mirror.test/debian/dists/stable/main/binary-amd64/Packages.gz")
    );
    s = s.advance(Err("404".to_string()));
    assert_eq!(
        s.pending().as_deref(),
        Some("http://mirror.test/debian/dists/stable/main/binary-amd64/Packages")
    );
    s = s.advance(Ok(INDEX.as_bytes().to_vec()));
    assert_eq!(s.pending(), None);
    let (result, warnings) = s.finish();
    let packages = result.unwrap();
    assert_eq!(packages.len(), 2);
    assert_eq!(packages[0].package, "foo");
    assert_eq!(packages[0].suite, "stable");
    assert_eq!(packages[0].component, "main");
    assert_eq!(packages[0].architecture.as_deref(), Some("amd64"));
    assert_eq!(packages[1].package, "bar");
    assert_eq!(packages[1].depends[0][0].name, "foo");
    assert_eq!(warnings.len(), 1);
    match &warnings[0] {
        AptWarning::ParagraphSkipped { target, reason } => {
            assert_eq!(*target, 0);
            assert_eq!(*reason, ControlError::MissingField(Mandatory::Maintainer));
        }
        other => panic!("unexpected warning {:?}", other),
    }
}

#[test]
fn session_uses_compressed_index_first() {
    let i = info(AptType::Deb, &["stable"], &["main"], &["amd64", "arm64"]);
    let mut s = AptSession::start(&i);
    s = s.advance(Ok(gz(INDEX)));
    assert_eq!(
        s.pending().as_deref(),
        Some("http://mirror.test/debian/dists/stable/main/binary-arm64/Packages.gz")
    );
    s = s.advance(Ok(b"not gzip".to_vec()));
    assert_eq!(
        s.pending().as_deref(),
        Some("http://mirror.test/debian/dists/stable/main/binary-arm64/Packages")
    );
    s = s.advance(Err("timeout".to_string()));
    assert_eq!(s.pending(), None);
    s = s.advance(Ok(gz(INDEX)));
    let (result, warnings) = s.finish();
    let packages = result.unwrap();
    assert_eq!(packages.len(), 2);
    assert_eq!(warnings.len(), 2);
    match &warnings[1] {
        AptWarning::TargetSkipped { target, causes } => {
            assert_eq!(*target, 1);
            assert_eq!(causes, &vec!["not a gzip stream".to_string(), "timeout".to_string()]);
        }
        other => panic!("unexpected warning {:?}", other),
    }
}

#[test]
fn session_fails_only_if_every_index_failed() {
    let i = info(AptType::Deb, &["stable"], &["main"], &["amd64", "arm64"]);
    let mut s = AptSession::start(&i);
    for _ in 0..4 {
        assert!(s.pending().is_some());
        s = s.advance(Err("down".to_string()));
    }
    assert_eq!(s.pending(), None);
    let (result, warnings) = s.finish();
    let e = result.err().unwrap();
    assert_eq!(e.kind, ErrorKind::SourceUnavailable);
    assert_eq!(e.message, "no index of the mirror could be fetched");
    assert_eq!(warnings.len(), 2);

    let empty = AptSession::start(&info(AptType::Deb, &[], &[], &[]));
    assert_eq!(empty.pending(), None);
    let (result, warnings) = empty.finish();
    assert!(result.unwrap().is_empty());
    assert!(warnings.is_empty());
}

#[test]
fn flat_index_is_assembled() {
    let base = URL::parse("http://mirror.test/debian").unwrap();
    assert_eq!(packages_url(&base), "http://mirror.test/debian/Packages.gz");
    let now = Timestamp { seconds: 1_700_000_000, nanos: 5 };
    let (repo, skipped) = assemble(&base, true, &gz(INDEX), now).unwrap();
    assert_eq!(repo.author.name, "Debian Repository");
    assert_eq!(repo.author.email, "debian@debian.org");
    assert_eq!(repo.last_modified, now);
    assert_eq!(repo.packages.len(), 2);
    assert_eq!(repo.packages[0].info.identity.name, "foo");
    assert_eq!(repo.packages[0].url, "http://mirror.test/debian/pool/main/f/foo/foo_1.0.deb");
    assert_eq!(repo.packages[0].last_modified, now);
    assert_eq!(repo.packages[1].info.identity.name, "bar");
    assert_eq!(repo.packages[1].url, "http://mirror.test/debian/pool/b/bar");
    assert_eq!(skipped, vec![ControlError::MissingField(Mandatory::Maintainer)]);
    let e = assemble(&base, true, &b"plain".to_vec(), now).err().unwrap();
    assert_eq!(e.kind, ErrorKind::MalformedInput);
    assert_eq!(e.message, "not a gzip stream");
    let (plain, _) = assemble(&base, false, &INDEX.as_bytes().to_vec(), now).unwrap();
    assert_eq!(plain.packages.len(), 2);
    let e = assemble(&base, false, &vec![0xff], now).err().unwrap();
    assert_eq!(e.message, "not UTF-8 text");
}

#[test]
fn flat_fetch_uses_compressed_index_first() {
    let base = URL::parse("http://mirror.test/debian").unwrap();
    let now = Timestamp { seconds: 1_700_000_123, nanos: 456 };
    let mut s = fetch(base, now);
    assert_eq!(s.pending().as_deref(), Some("http://mirror.test/debian/Packages.gz"));
    s = s.advance(Ok(gz(INDEX)));
    assert_eq!(s.pending(), None);
    s = s.advance(Err("late".to_string()));
    let (result, skipped) = s.finish();
    let repo = result.unwrap();
    assert_eq!(repo.packages.len(), 2);
    assert_eq!(repo.packages[0].last_modified, repo.last_modified);
    assert_eq!(repo.packages[1].last_modified, repo.last_modified);
    assert_eq!(repo.last_modified, now);
    assert_eq!(skipped, vec![ControlError::MissingField(Mandatory::Maintainer)]);
}

#[test]
fn flat_fetch_falls_back_to_uncompressed_index() {
    let now = Timestamp { seconds: 9, nanos: 0 };
    let base = URL::parse("http://mirror.test/debian").unwrap();
    let mut s = FlatSession::start(base.clone(), now);
    s = s.advance(Err("404 for Packages.gz".to_string()));
    assert_eq!(s.pending().as_deref(), Some("http://mirror.test/debian/Packages"));
    let body = "Package: a\nVersion: 1\nMaintainer: m\n\nPackage: b\nVersion: 2\nMaintainer: m\n\nPackage: c\nVersion: 3\nMaintainer: m\n\n";
    s = s.advance(Ok(body.as_bytes().to_vec()));
    assert_eq!(s.pending(), None);
    let (result, skipped) = s.finish();
    let repo = result.unwrap();
    let names: Vec<&str> = repo.packages.iter().map(|m| m.info.identity.name.as_str()).collect();
    assert_eq!(names, vec!["a", "b", "c"]);
    assert_eq!(repo.last_modified, now);
    assert!(skipped.is_empty());

    // A compressed answer that cannot be read leads to the fallback too.
    let mut s = FlatSession::start(base, now);
    s = s.advance(Ok(b"<html>not found</html>".to_vec()));
    assert_eq!(s.pending().as_deref(), Some("http://mirror.test/debian/Packages"));
    s = s.advance(Ok(INDEX.as_bytes().to_vec()));
    assert_eq!(s.finish().0.unwrap().packages.len(), 2);
}

#[test]
fn flat_fetch_fails_only_after_both_failed() {
    let now = Timestamp { seconds: 9, nanos: 0 };
    let base = URL::parse("http://mirror.test/debian").unwrap();
    let mut s = FlatSession::start(base.clone(), now);
    s = s.advance(Err("connection refused".to_string()));
    s = s.advance(Ok(vec![0xff, 0xfe]));
    assert_eq!(s.pending(), None);
    let (result, skipped) = s.finish();
    let e = result.err().unwrap();
    assert_eq!(e.kind, ErrorKind::SourceUnavailable);
    assert_eq!(e.message, "the index of the archive could not be fetched");
    assert_eq!(e.causes, vec!["connection refused".to_string(), "not UTF-8 text".to_string()]);
    assert!(skipped.is_empty());

    let early = FlatSession::start(base.clone(), now).finish().0.err().unwrap();
    assert_eq!(early.kind, ErrorKind::SourceUnavailable);
    assert!(early.causes.is_empty());
    let half = FlatSession::start(base, now).advance(Err("x".to_string())).finish().0;
    assert_eq!(half.err().unwrap().causes, vec!["x".to_string()]);
}

#[test]
fn flat_entries_lie_below_the_first_segment() {
    let now = Timestamp { seconds: 9, nanos: 0 };
    let base =
        URL::parse("http://deb.example.org/debian/dists/stable/main/binary-amd64").unwrap();
    let text = "Package: foo\nVersion: 1.0\nMaintainer: m\nFilename: pool/main/f/foo/foo_1.0_amd64.deb\nFilename: second\n\nPackage: bar\nVersion: 1\nMaintainer: m\n";
    let (entries, skipped) = entries_of(&base, text, now);
    assert!(skipped.is_empty());
    assert_eq!(
        entries[0].url,
        "http://deb.example.org/debian/pool/main/f/foo/foo_1.0_amd64.deb"
    );
    assert_eq!(entries[1].url, "http://deb.example.org/debian/pool/b/bar");
    let mut s = FlatSession::start(base, now);
    assert_eq!(
        s.pending().as_deref(),
        Some("http://deb.example.org/debian/dists/stable/main/binary-amd64/Packages.gz")
    );
    s = s.advance(Ok(gz(text)));
    let repo = s.finish().0.unwrap();
    assert_eq!(
        repo.packages[0].url,
        "http://deb.example.org/debian/pool/main/f/foo/foo_1.0_amd64.deb"
    );
    let root = URL::parse("http://deb.example.org").unwrap();
    let (at_root, _) = entries_of(&root, text, now);
    assert_eq!(at_root[0].url, "http://deb.example.org//pool/main/f/foo/foo_1.0_amd64.deb");
    let slashes = URL::parse("http://deb.example.org///a//b").unwrap();
    assert_eq!(archive_url(&slashes, None, "zed"), "http://deb.example.org/a/pool/z/zed");
    let f = "/abs".to_string();
    assert_eq!(archive_url(&slashes, Some(&f), "zed"), "http://deb.example.org/a//abs");
}

#[test]
fn session_packages_become_catalog_entries() {
    let i = info(AptType::Deb, &["stable"], &["main"], &["amd64"]);
    let mut s = AptSession::start(&i);
    s = s.advance(Ok(gz(INDEX)));
    let (result, _) = s.finish();
    let base = URL::parse("http://mirror.test/debian").unwrap();
    let now = Timestamp { seconds: 77, nanos: 1 };
    let repo = catalog_of(result.unwrap(), &base, now);
    assert_eq!(repo.author.name, "Debian Repository");
    assert_eq!(repo.last_modified, now);
    assert_eq!(repo.packages.len(), 2);
    assert_eq!(repo.packages[0].info.identity.name, "foo");
    assert_eq!(repo.packages[0].info.architectures, vec!["amd64".to_string()]);
    assert_eq!(repo.packages[0].url, "http://mirror.test/debian/pool/main/f/foo/foo_1.0.deb");
    assert_eq!(repo.packages[0].info.extra.len(), 1);
    assert_eq!(repo.packages[0].info.extra[0].key, "Filename");
    assert_eq!(repo.packages[1].url, "http://mirror.test/debian/pool/b/bar");
    assert_eq!(repo.packages[1].last_modified, now);
    assert!(catalog_of(vec![], &base, now).packages.is_empty());
}

#[test]
fn paragraphs_join_the_harvest() {
    let ps = parse_paragraphs(INDEX);
    assert_eq!(ps.len(), 3);
    let t = Target {
        suite: "stable".to_string(),
        component: "main".to_string(),
        architecture: None,
    };
    let (packages, warnings) = harvest_paragraphs(vec![], vec![], &ps, &t, 4);
    assert_eq!(packages.len(), 2);
    assert_eq!(packages[0].package, "foo");
    assert_eq!(packages[0].architecture, None);
    assert_eq!(packages[1].package, "bar");
    assert_eq!(warnings.len(), 1);
    assert!(matches!(
        &warnings[0],
        AptWarning::ParagraphSkipped { target: 4, reason: ControlError::MissingField(Mandatory::Maintainer) }
    ));
    let (more, warnings) = harvest_paragraphs(packages, warnings, &ps, &t, 5);
    assert_eq!(more.len(), 4);
    assert_eq!(warnings.len(), 2);
    assert_eq!(more[2].package, "foo");
    let (same, none) = harvest_paragraphs(more, vec![], &vec![], &t, 6);
    assert_eq!(same.len(), 4);
    assert!(none.is_empty());
}

#[test]
fn text_of_a_flat_index_gives_entries() {
    let base = URL::parse("http://mirror.test/debian/").unwrap();
    let now = Timestamp { seconds: 5, nanos: 0 };
    let (entries, skipped) = entries_of(&base, INDEX, now);
    assert_eq!(entries.len(), 2);
    assert_eq!(entries[0].url, "http://mirror.test/debian/pool/main/f/foo/foo_1.0.deb");
    assert_eq!(entries[1].url, "http://mirror.test/debian/pool/b/bar");
    assert_eq!(entries[1].info.relations.depends[0][0].name, "foo");
    assert_eq!(skipped, vec![ControlError::MissingField(Mandatory::Maintainer)]);
    let (none, nothing) = entries_of(&base, "", now);
    assert!(none.is_empty() && nothing.is_empty());
}
