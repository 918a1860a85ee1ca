use ipm::error::{Error, ErrorKind};
use ipm::ipm::{fetch, manifest_url};
use ipm::list::{get_indexes, packages, parse_repo, Defect, FetchPlan, RepoSource, RepoType};
use ipm::repo::Timestamp;
use ipm::pkg::{fetch_pkg, fetch_report, file_name, search_pkgs};
use ipm::record::{Maintainer, PackageRecord, RelationSet};
use ipm::relation::{PackageIdentity, Version};
use ipm::repo::{download_url, resolve, PackageMetaData, RepoData};
use ipm::www::URL;

fn record(name: &str, version: &str) -> PackageRecord {
    PackageRecord {
        identity: PackageIdentity {
            name: name.to_string(),
            version: Version { text: version.to_string() },
        },
        maintainer: Maintainer { name: "M".to_string(), email: "m@example.org".to_string() },
        description: String::new(),
        architectures: vec![],
        relations: RelationSet {
            depends: vec![],
            recommends: vec![],
            suggests: vec![],
            conflicts: vec![],
            replaces: vec![],
            provides: vec![],
        },
        extra: vec![],
    }
}

fn entry(name: &str, version: &str, url: &str) -> PackageMetaData {
    PackageMetaData {
        last_modified: Timestamp { seconds: 10, nanos: 0 },
        info: record(name, version),
        url: url.to_string(),
    }
}

fn repo(entries: Vec<PackageMetaData>) -> RepoData {
    RepoData {
        author: Maintainer { name: "Author".to_string(), email: "a@example.org".to_string() },
        last_modified: Timestamp { seconds: 20, nanos: 0 },
        packages: entries,
    }
}

#[test]
fn source_list_skips_malformed_lines() {
    let list = parse_repo("not-a-valid-entry\nipm:https://example.test/repo/\n");
    assert_eq!(list.sources.len(), 1);
    assert_eq!(list.sources[0].kind(), RepoType::Ipm);
    assert_eq!(list.sources[0].location(), "https://example.test/repo/");
    assert!(matches!(&list.sources[0], RepoSource::Native { base_url } if base_url == "https://example.test/repo/"));
    assert_eq!(list.warnings.len(), 1);
    assert_eq!(list.warnings[0].line, "not-a-valid-entry");
    assert_eq!(list.warnings[0].defect, Defect::NoSeparator);
}

#[test]
fn source_list_grammar() {
    let list = parse_repo("\n  apt : http://deb.test/debian \r\n\nrpm:http://x\nipm:\n   \nIPM:http://y");
    let got: Vec<(RepoType, &str)> =
        list.sources.iter().map(|s| (s.kind(), s.location())).collect();
    assert_eq!(got, vec![(RepoType::Apt, "http://deb.test/debian"), (RepoType::Ipm, "")]);
    let warned: Vec<(&str, Defect)> =
        list.warnings.iter().map(|w| (w.line.as_str(), w.defect)).collect();
    assert_eq!(
        warned,
        vec![("rpm:http://x", Defect::UnknownType), ("IPM:http://y", Defect::UnknownType)]
    );
    assert!(parse_repo("").sources.is_empty());
    assert!(parse_repo("").warnings.is_empty());
    assert_eq!(RepoType::from_str("apt"), Some(RepoType::Apt));
    assert_eq!(RepoType::from_str("ipm"), Some(RepoType::Ipm));
    assert_eq!(RepoType::from_str("deb"), None);
    assert_eq!(RepoType::Apt.name(), "apt");
    assert_eq!(RepoType::Ipm.name(), "ipm");
    let s = RepoSource::new(RepoType::Ipm, "http://y".to_string());
    assert_eq!(s.to_string(), "ipm: http://y");
    let flat = RepoSource::new(RepoType::Apt, "http://deb.test".to_string());
    match &flat {
        RepoSource::Apt { base_uri, suites, components, architectures } => {
            assert_eq!(base_uri, "http://deb.test");
            assert!(suites.is_empty() && components.is_empty() && architectures.is_empty());
        }
        other => panic!("unexpected source {:?}", other),
    }
    let mirror = RepoSource::Apt {
        base_uri: "http://deb.test/debian".to_string(),
        suites: vec!["stable".to_string()],
        components: vec!["main".to_string()],
        architectures: vec!["amd64".to_string()],
    };
    assert_eq!(mirror.kind(), RepoType::Apt);
    assert_eq!(mirror.location(), "http://deb.test/debian");
    assert_eq!(mirror.to_string(), "apt: http://deb.test/debian");
    assert!(matches!(s.plan(), FetchPlan::Manifest));
    assert!(matches!(flat.plan(), FetchPlan::FlatIndex));
    match mirror.plan() {
        FetchPlan::Indices(info) => {
            assert_eq!(info.types, ipm::apt::AptType::Deb);
            assert_eq!(info.uris, "http://deb.test/debian");
            assert_eq!(info.suites, vec!["stable".to_string()]);
            assert_eq!(info.components, vec!["main".to_string()]);
            assert_eq!(info.architectures, vec!["amd64".to_string()]);
        }
        other => panic!("unexpected plan {:?}", other),
    }
}

#[test]
fn user_sources_come_before_system_sources() {
    let list = get_indexes("ipm:http://user\nbad", "apt:http://system\nworse:x");
    let got: Vec<&str> = list.sources.iter().map(|s| s.location()).collect();
    assert_eq!(got, vec!["http://user", "http://system"]);
    let warned: Vec<&str> = list.warnings.iter().map(|w| w.line.as_str()).collect();
    assert_eq!(warned, vec!["bad", "worse:x"]);
    let only_system = get_indexes("", "ipm:http://system");
    assert_eq!(only_system.sources.len(), 1);
}

#[test]
fn failed_source_does_not_suppress_the_other() {
    let a: Result<RepoData, Error> =
        Err(Error::new(ErrorKind::SourceUnavailable, "A is down".to_string(), vec![]));
    let b: Result<RepoData, Error> =
        Ok(repo(vec![entry("foo", "1.0", "http://b.test/foo.ipak"), entry("bar", "1", "http://b.test/bar")]));
    let (all, errors) = packages(vec![a, b]);
    assert_eq!(all.len(), 2);
    assert_eq!(errors.len(), 1);
    assert_eq!(errors[0].message, "A is down");
    let found = search_pkgs(all, &vec!["foo".to_string()]);
    assert_eq!(found.len(), 1);
    assert_eq!(found[0].info.identity.name, "foo");
    assert_eq!(found[0].url, "http://b.test/foo.ipak");
}

#[test]
fn search_is_exact_and_keeps_duplicates_in_order() {
    let first = repo(vec![entry("foo", "1.0", "http://a/foo"), entry("Foo", "1.0", "http://a/Foo")]);
    let second = repo(vec![entry("bar", "2", "http://b/bar"), entry("foo", "2.0", "http://b/foo")]);
    let (all, errors) = packages(vec![Ok(first), Ok(second)]);
    assert!(errors.is_empty());
    assert_eq!(all.len(), 4);
    let found = search_pkgs(all, &vec!["foo".to_string(), "bar".to_string()]);
    let urls: Vec<&str> = found.iter().map(|m| m.url.as_str()).collect();
    assert_eq!(urls, vec!["http://a/foo", "http://b/bar", "http://b/foo"]);
    let (all, _) = packages(vec![Ok(repo(vec![entry("foo", "1", "u")]))]);
    assert!(search_pkgs(all, &vec![]).is_empty());
    let (none, _) = packages(vec![]);
    assert!(none.is_empty());
}

#[test]
fn local_file_names() {
    assert_eq!(file_name(&entry("foo", "1.0", "http://h/packages/foo-1.0.ipak")), "foo-1.0.ipak");
    assert_eq!(file_name(&entry("foo", "1.0", "http://h/packages/")), "packages");
    assert_eq!(file_name(&entry("foo", "1.0", "http://h/a/./")), "a");
    assert_eq!(file_name(&entry("foo", "1.0", "http://h/")), "foo-1.0.package");
    assert_eq!(file_name(&entry("foo", "1.0", "http://h")), "foo-1.0.package");
    assert_eq!(file_name(&entry("foo", "1.0", "http://h/a/..")), "foo-1.0.package");
    assert_eq!(file_name(&entry("foo", "1.0", "no scheme")), "foo-1.0.package");
    let plan = fetch_pkg(&vec![
        entry("foo", "1.0", "http://h/p/foo.ipak"),
        entry("bar", "2", "http://h/"),
    ]);
    assert_eq!(plan.len(), 2);
    assert_eq!(plan[0].url, "http://h/p/foo.ipak");
    assert_eq!(plan[0].file_name, "foo.ipak");
    assert_eq!(plan[1].url, "http://h/");
    assert_eq!(plan[1].file_name, "bar-2.package");
}

#[test]
fn download_failures_are_collected() {
    assert!(fetch_report(&vec![]).is_ok());
    assert!(fetch_report(&vec![Ok(()), Ok(())]).is_ok());
    let e = fetch_report(&vec![Err("one".to_string()), Ok(()), Err("two".to_string())])
        .err()
        .unwrap();
    assert_eq!(e.kind, ErrorKind::PartialFailure);
    assert_eq!(e.message, "some downloads failed");
    assert_eq!(e.causes, vec!["one".to_string(), "two".to_string()]);
}

#[test]
fn native_manifest_locations_are_resolved() {
    let base = URL::parse("https://example.test/repo").unwrap();
    assert_eq!(manifest_url(&base).to_string(), "https://example.test/repo/repo.yaml");
    let doc = repo(vec![
        entry("foo", "1.0", "/packages/foo-1.0.ipak"),
        entry("bar", "2", "files/bar.ipak"),
    ]);
    let got = fetch(base.clone(), Ok(doc)).unwrap();
    assert_eq!(got.author.name, "Author");
    assert_eq!(got.last_modified, Timestamp { seconds: 20, nanos: 0 });
    assert_eq!(got.packages.len(), 2);
    assert_eq!(got.packages[0].url, "https://example.test/packages/foo-1.0.ipak");
    assert_eq!(got.packages[0].info.identity.name, "foo");
    assert_eq!(got.packages[1].url, "https://example.test/repo/repo.yaml/files/bar.ipak");
    let e = fetch(base, Err("yaml: bad indentation".to_string())).err().unwrap();
    assert_eq!(e.kind, ErrorKind::SourceUnavailable);
    assert_eq!(e.message, "yaml: bad indentation");
}

#[test]
fn first_mirror_that_serves_wins() {
    let e = |m: &str| Error::new(ErrorKind::SourceUnavailable, m.to_string(), vec![]);
    let got = RepoData::ipm(vec![
        Err(e("one")),
        Ok(repo(vec![entry("foo", "1", "u")])),
        Ok(repo(vec![])),
    ])
    .unwrap();
    assert_eq!(got.packages.len(), 1);
    let err = RepoData::ipm(vec![Err(e("one")), Err(e("two"))]).err().unwrap();
    assert_eq!(err.kind, ErrorKind::SourceUnavailable);
    assert_eq!(err.message, "no mirror served the manifest");
    assert_eq!(err.causes, vec!["one".to_string(), "two".to_string()]);
    let none = RepoData::ipm(vec![]).err().unwrap();
    assert!(none.causes.is_empty());
    let d = RepoData::empty_at(Timestamp { seconds: 3, nanos: 4 });
    assert!(d.packages.is_empty());
    assert_eq!(d.author.name, "");
    assert_eq!(d.author.email, "");
    assert_eq!(d.last_modified, Timestamp { seconds: 3, nanos: 4 });
}

#[test]
fn no_mirror_is_asked_after_the_first_that_served() {
    let e = |m: &str| -> Result<RepoData, Error> {
        Err(Error::new(ErrorKind::SourceUnavailable, m.to_string(), vec![]))
    };
    assert_eq!(RepoData::ask_next(3, &vec![]), Some(0));
    assert_eq!(RepoData::ask_next(3, &vec![e("one")]), Some(1));
    assert_eq!(RepoData::ask_next(3, &vec![e("one"), e("two")]), Some(2));
    assert_eq!(RepoData::ask_next(3, &vec![e("one"), e("two"), e("three")]), None);
    assert_eq!(RepoData::ask_next(3, &vec![e("one"), Ok(repo(vec![]))]), None);
    assert_eq!(RepoData::ask_next(3, &vec![Ok(repo(vec![]))]), None);
    assert_eq!(RepoData::ask_next(3, &vec![Ok(repo(vec![])), e("late")]), None);
    assert_eq!(RepoData::ask_next(0, &vec![]), None);
    assert_eq!(RepoData::ask_next(1, &vec![e("one"), e("two")]), None);

    // Three mirrors of which the second serves: the third is never asked.
    let answers = [0, 1, 2];
    let mut asked: Vec<usize> = Vec::new();
    let mut attempts: Vec<Result<RepoData, Error>> = Vec::new();
    while let Some(i) = RepoData::ask_next(answers.len(), &attempts) {
        asked.push(i);
        attempts.push(if i == 1 { Ok(repo(vec![entry("foo", "1", "u")])) } else { e("down") });
    }
    assert_eq!(asked, vec![0, 1]);
    assert_eq!(RepoData::ipm(attempts).unwrap().packages.len(), 1);
}

#[test]
fn download_locations() {
    let base = URL::parse("http://mirror.test/debian").unwrap();
    assert_eq!(resolve(&base, "a/b"), "http://mirror.test/debian/a/b");
    assert_eq!(resolve(&base, "/a/b"), "http://mirror.test/a/b");
    let f = "pool/main/h/hello.deb".to_string();
    assert_eq!(download_url(&base, Some(&f), "hello"), "http://mirror.test/debian/pool/main/h/hello.deb");
    assert_eq!(download_url(&base, None, "hello"), "http://mirror.test/debian/pool/h/hello");
    assert_eq!(download_url(&base, None, ""), "http://mirror.test/debian/pool//");
}
