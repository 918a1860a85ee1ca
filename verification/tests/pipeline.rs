use ipm::error::ErrorKind;
use ipm::ingest::{
    begin, convert, get_pkgtype, load_debinfo, Action, DirEntry, FileOp, PkgType, Report, Stage,
};
use ipm::repo::Timestamp;
use ipm::record::{Maintainer, PackageRecord};
use ipm::server::{build_words, metadata, package_words, IndexBuilder, News, Phase, Work};

fn dir(entries: &[(&str, bool)]) -> Vec<DirEntry> {
    entries.iter().map(|(n, f)| DirEntry { name: n.to_string(), is_file: *f }).collect()
}

fn debian_dir() -> Vec<DirEntry> {
    dir(&[
        ("control.tar.xz", true),
        ("debian-binary", true),
        ("notes.txt", true),
        ("data.tar.zst", true),
    ])
}

const CONTROL: &str = "Package: hello\nVersion: 2.10-3\nMaintainer: Santiago <san@debian.org>\nArchitecture: amd64\nDepends: libc6 (>= 2.34)\nDescription: example package\n long text\n";

#[test]
fn directory_classification() {
    assert_eq!(get_pkgtype(&debian_dir()), PkgType::Debian);
    assert_eq!(get_pkgtype(&dir(&[("control.tar.xz", true), ("data.tar.zst", true)])), PkgType::Unknown);
    assert_eq!(
        get_pkgtype(&dir(&[("debian-binary", false), ("control.tar.xz", true), ("data.tar.zst", true)])),
        PkgType::Unknown
    );
    assert_eq!(
        get_pkgtype(&dir(&[("debian-binary", true), ("control.tar", true), ("data.tar.gz", true)])),
        PkgType::Unknown
    );
    assert_eq!(
        get_pkgtype(&dir(&[("debian-binary", true), ("control.tar.gz", true)])),
        PkgType::Unknown
    );
    assert_eq!(get_pkgtype(&vec![]), PkgType::Unknown);
    assert_eq!(PkgType::Debian.name(), "DebainPackage");
    assert_eq!(PkgType::Unknown.name(), "Unknown");
}

#[test]
fn missing_marker_fails_with_not_found() {
    let (stage, action) = begin();
    assert_eq!(stage, Stage::Detect);
    assert!(matches!(action, Action::List));
    let listing = dir(&[("control.tar.xz", true), ("data.tar.zst", true)]);
    let (stage, action) = convert(stage, Report::Listing(listing));
    assert_eq!(stage, Stage::Failed(ErrorKind::NotFound));
    match action {
        Action::Stop(Err(e)) => {
            assert_eq!(e.kind, ErrorKind::NotFound);
            assert_eq!(e.message, "not a Debian binary package");
        }
        other => panic!("unexpected action {:?}", other),
    }
    let (stage, action) = convert(stage, Report::Extracted(Ok(())));
    assert_eq!(stage, Stage::Failed(ErrorKind::NotFound));
    assert!(matches!(action, Action::Stop(Err(_))));
}

#[test]
fn conversion_runs_through_its_stages() {
    let (stage, _) = begin();
    let (stage, action) = convert(stage, Report::Listing(debian_dir()));
    assert_eq!(stage, Stage::ExtractOuter);
    let ops = match action {
        Action::Extract(ops) => ops,
        other => panic!("unexpected action {:?}", other),
    };
    let shown: Vec<String> = ops
        .iter()
        .map(|op| match op {
            FileOp::CreateDir(d) => format!("mkdir {}", d),
            FileOp::Extract { archive, into } => format!("extract {} {}", archive, into),
            FileOp::Remove(f) => format!("rm {}", f),
        })
        .collect();
    assert_eq!(
        shown,
        vec![
            "mkdir data",
            "mkdir control",
            "extract control.tar.xz control",
            "rm control.tar.xz",
            "extract data.tar.zst data",
            "rm data.tar.zst",
        ]
    );
    let (stage, action) = convert(stage, Report::Extracted(Ok(())));
    assert_eq!(stage, Stage::ParseControl);
    match action {
        Action::ReadControl(path) => assert_eq!(path, "control/control"),
        other => panic!("unexpected action {:?}", other),
    }
    let (stage, action) = convert(stage, Report::Control(Ok(CONTROL.to_string())));
    assert_eq!(stage, Stage::EmitNative);
    match action {
        Action::Emit { descriptor, record, files } => {
            assert_eq!(descriptor, "ipak/project.yaml");
            assert_eq!(record.identity.name, "hello");
            assert_eq!(record.identity.version.text, "2.10-3");
            assert_eq!(record.description, "example package\nlong text");
            assert_eq!(record.relations.depends[0][0].name, "libc6");
            let paths: Vec<&str> = files.iter().map(|f| f.path.as_str()).collect();
            assert_eq!(
                paths,
                vec!["ipak/scripts/install.sh", "ipak/scripts/remove.sh", "ipak/scripts/purge.sh"]
            );
            assert!(files.iter().all(|f| f.content.starts_with("#!/bin/sh\n")));
        }
        other => panic!("unexpected action {:?}", other),
    }
    let (stage, action) = convert(stage, Report::Emitted(Ok(())));
    assert_eq!(stage, Stage::Done);
    assert!(matches!(action, Action::Stop(Ok(()))));
    let (stage, action) = convert(stage, Report::Emitted(Ok(())));
    assert_eq!(stage, Stage::Done);
    assert!(matches!(action, Action::Stop(Ok(()))));
}

#[test]
fn conversion_failures() {
    let (stage, action) = convert(Stage::ExtractOuter, Report::Extracted(Err("disk full".to_string())));
    assert_eq!(stage, Stage::Failed(ErrorKind::Fatal));
    match action {
        Action::Stop(Err(e)) => assert_eq!(e.message, "disk full"),
        other => panic!("unexpected action {:?}", other),
    }
    let (stage, _) = convert(Stage::ParseControl, Report::Control(Err("no such file".to_string())));
    assert_eq!(stage, Stage::Failed(ErrorKind::Fatal));
    let (stage, action) =
        convert(Stage::ParseControl, Report::Control(Ok("Package: x\nVersion: 1\n".to_string())));
    assert_eq!(stage, Stage::Failed(ErrorKind::MalformedInput));
    match action {
        Action::Stop(Err(e)) => {
            assert_eq!(e.kind, ErrorKind::MalformedInput);
            assert_eq!(e.message, "Missing mandatory 'Maintainer' field");
        }
        other => panic!("unexpected action {:?}", other),
    }
    let (stage, _) = convert(Stage::EmitNative, Report::Emitted(Err("read-only".to_string())));
    assert_eq!(stage, Stage::Failed(ErrorKind::Fatal));
    let (stage, action) = convert(Stage::Detect, Report::Emitted(Ok(())));
    assert_eq!(stage, Stage::Failed(ErrorKind::Fatal));
    match action {
        Action::Stop(Err(e)) => assert_eq!(e.message, "the report does not answer the stage"),
        other => panic!("unexpected action {:?}", other),
    }
}

#[test]
fn templates_of_each_kind() {
    let items = ipm::ingest::set(PkgType::Debian).unwrap();
    assert_eq!(items.len(), 3);
    assert_eq!(items[0].path, "ipak/scripts/install.sh");
    assert_eq!(items[0].content, ipm::ingest::INSTALL_SCRIPT);
    assert_eq!(items[1].content, ipm::ingest::REMOVE_SCRIPT);
    assert_eq!(items[2].content, ipm::ingest::PURGE_SCRIPT);
    let e = ipm::ingest::set(PkgType::Unknown).err().unwrap();
    assert_eq!(e.kind, ErrorKind::MalformedInput);
    assert_eq!(e.message, "Unknown package type");
    let rec = load_debinfo(CONTROL).unwrap();
    assert_eq!(rec.architectures, vec!["amd64".to_string()]);
    let e = load_debinfo("Version: 1\n").err().unwrap();
    assert_eq!(e.message, "Missing mandatory 'Package' field");
    let e = load_debinfo("Package: a\nVersion: 1\nMaintainer: m\nDepends: a (\n").err().unwrap();
    assert_eq!(e.message, "Malformed package relation");
}

fn author() -> Maintainer {
    Maintainer { name: "Repo Author".to_string(), email: "repo@example.org".to_string() }
}

fn described(name: &str, version: &str) -> PackageRecord {
    load_debinfo(&format!("Package: {}\nVersion: {}\nMaintainer: m\n", name, version)).unwrap()
}

fn built() -> News {
    News::Built { build: Ok(()), package: Ok(()) }
}

#[test]
fn manifest_entries_of_described_projects() {
    let now = Timestamp { seconds: 42, nanos: 7 };
    let (repo, causes) = metadata(
        author(),
        now,
        vec![Ok(described("alpha", "1.0")), Err("no project.yaml".to_string()), Ok(described("gamma", "0.3"))],
    );
    assert_eq!(repo.author.name, "Repo Author");
    assert_eq!(repo.last_modified, now);
    let urls: Vec<&str> = repo.packages.iter().map(|m| m.url.as_str()).collect();
    assert_eq!(urls, vec!["/packages/alpha-1.0.ipak", "/packages/gamma-0.3.ipak"]);
    assert!(repo.packages.iter().all(|m| m.last_modified == now));
    assert_eq!(causes, vec!["no project.yaml".to_string()]);
}

#[test]
fn build_failure_writes_no_manifest() {
    let now = Timestamp { seconds: 1, nanos: 0 };
    let mut b = IndexBuilder::start(vec!["a".to_string(), "b".to_string()], author(), now);
    assert!(matches!(b.work(), Work::Build("a")));
    b = b.advance(built());
    match b.work() {
        Work::Copy { from, into } => {
            assert_eq!(from, "a/ipak/package");
            assert_eq!(into, "out/packages");
        }
        other => panic!("unexpected work {:?}", other),
    }
    b = b.advance(News::Copied(Ok(())));
    assert!(matches!(b.work(), Work::Build("b")));
    b = b.advance(News::Built { build: Ok(()), package: Err("package failed".to_string()) });
    match b.work() {
        Work::Stop(Err(e)) => {
            assert_eq!(e.kind, ErrorKind::Fatal);
            assert_eq!(e.message, "package failed");
        }
        other => panic!("unexpected work {:?}", other),
    }
    for news in [
        News::Copied(Ok(())),
        News::Described(Ok(described("a", "1"))),
        News::Written(Ok(())),
        built(),
    ] {
        b = b.advance(news);
        assert!(matches!(b.work(), Work::Stop(Err(_))));
    }

    let mut c = IndexBuilder::start(vec!["a".to_string()], author(), now);
    c = c.advance(News::Built { build: Err("build failed".to_string()), package: Ok(()) });
    match c.work() {
        Work::Stop(Err(e)) => assert_eq!(e.message, "build failed"),
        other => panic!("unexpected work {:?}", other),
    }
    let mut d = IndexBuilder::start(vec!["a".to_string()], author(), now);
    d = d.advance(built());
    d = d.advance(News::Copied(Err("copy failed".to_string())));
    assert!(matches!(d.work(), Work::Stop(Err(_))));
}

#[test]
fn metadata_failure_omits_only_that_project() {
    let now = Timestamp { seconds: 99, nanos: 0 };
    let projects = vec!["a".to_string(), "b".to_string(), "c".to_string()];
    let mut b = IndexBuilder::start(projects, author(), now);
    for name in ["a", "b", "c"] {
        match b.work() {
            Work::Build(p) => assert_eq!(p, name),
            other => panic!("unexpected work {:?}", other),
        }
        b = b.advance(built());
        b = b.advance(News::Copied(Ok(())));
    }
    assert!(matches!(b.work(), Work::Describe("a")));
    b = b.advance(News::Described(Ok(described("a", "1.0"))));
    assert!(matches!(b.work(), Work::Describe("b")));
    b = b.advance(News::Described(Err("b has no metadata".to_string())));
    assert!(matches!(b.work(), Work::Describe("c")));
    b = b.advance(News::Described(Ok(described("c", "3.0"))));
    match b.work() {
        Work::Write { path, manifest } => {
            assert_eq!(path, "out/repo.yaml");
            assert_eq!(manifest.author.name, "Repo Author");
            assert_eq!(manifest.last_modified, now);
            let urls: Vec<&str> = manifest.packages.iter().map(|m| m.url.as_str()).collect();
            assert_eq!(urls, vec!["/packages/a-1.0.ipak", "/packages/c-3.0.ipak"]);
        }
        other => panic!("unexpected work {:?}", other),
    }
    assert_eq!(b.omitted(), &vec!["b has no metadata".to_string()]);
    b = b.advance(News::Written(Ok(())));
    assert!(matches!(b.work(), Work::Stop(Ok(()))));
}

#[test]
fn builder_edge_cases() {
    let now = Timestamp { seconds: 0, nanos: 0 };
    let mut empty = IndexBuilder::start(vec![], author(), now);
    match empty.work() {
        Work::Write { manifest, .. } => assert!(manifest.packages.is_empty()),
        other => panic!("unexpected work {:?}", other),
    }
    empty = empty.advance(News::Written(Err("read-only".to_string())));
    match empty.work() {
        Work::Stop(Err(e)) => assert_eq!(e.message, "read-only"),
        other => panic!("unexpected work {:?}", other),
    }
    let mut wrong = IndexBuilder::start(vec!["a".to_string()], author(), now);
    wrong = wrong.advance(News::Written(Ok(())));
    match wrong.work() {
        Work::Stop(Err(e)) => {
            assert_eq!(e.kind, ErrorKind::Fatal);
            assert_eq!(e.message, "the news do not answer the work");
        }
        other => panic!("unexpected work {:?}", other),
    }
    assert_eq!(Phase::Building, Phase::Building);
    assert_eq!(build_words(), vec!["build".to_string(), "--release".to_string()]);
    assert_eq!(package_words(), vec!["package".to_string()]);
    assert_eq!(ipm::server::PACKAGES_DIR, "out/packages");
    assert_eq!(ipm::server::MANIFEST_FILE, "out/repo.yaml");
}
