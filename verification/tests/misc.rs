use ipm::archive::{convert, is_ipak, target_path};
use ipm::error::{Error, ErrorKind};
use ipm::index::{RepoIndex, RepoYaml};
use ipm::init::{init, server_initation, ServerRepoInitOptions};
use ipm::metadata::{get_dir, get_path, search_path};
use ipm::repo::Timestamp;
use ipm::record::Maintainer;
use ipm::relation::{ControlError, Mandatory};
use ipm::route::{
    pkg, project, project_add, project_remove, repo, repo_pkg, server, server_project, utils,
    Args, CliOption, Commands, Handling, OptionType, PkgCommands, ProjectCommands, RepoCommands,
    ServerCommands,
};
use ipm::system::path::{global, local};

fn words(ws: &[&str]) -> Vec<String> {
    ws.iter().map(|w| w.to_string()).collect()
}

fn opt(name: &str, values: &[&str], kind: OptionType) -> CliOption {
    CliOption { opt_str: name.to_string(), opt_values: words(values), opt_type: kind }
}

#[test]
fn fixed_and_user_paths() {
    assert_eq!(global::repo_list_path(), "/usr/ipm/repos.repo");
    assert_eq!(global::cache_dir(), "/var/cache/ipm");
    assert_eq!(local::home_dir(Some("/home/jane"), "jane"), "/home/jane");
    assert_eq!(local::home_dir(None, "jane"), "/home/jane");
    assert_eq!(local::home_dir(Some("/root"), "jane"), "/root");
    assert_eq!(local::ipm_dir("/home/jane"), "/home/jane/.ipm");
    assert_eq!(local::ipm_dir("/home/jane/"), "/home/jane/.ipm");
    assert_eq!(local::repo_list_path("/home/jane"), "/home/jane/.ipm/repos.repo");
    assert_eq!(local::cache_dir("/home/jane"), "/home/jane/.ipm/cache");
    assert_eq!(local::repo_list_path(""), ".ipm/repos.repo");
}

#[test]
fn command_words() {
    assert_eq!(Args::parse(&words(&["repo", "list"])), Ok(Args { command: Commands::Repo }));
    assert_eq!(Args::parse(&words(&["pkg"])), Ok(Args { command: Commands::Pkg }));
    assert_eq!(Args::parse(&words(&["project"])), Ok(Args { command: Commands::Project }));
    assert_eq!(Args::parse(&words(&["system"])), Ok(Args { command: Commands::System }));
    assert_eq!(Args::parse(&words(&["utils"])), Ok(Args { command: Commands::Utils }));
    assert_eq!(Args::parse(&words(&["Repo"])), Err(ErrorKind::InvalidInput));
    assert_eq!(Args::parse(&words(&[])), Err(ErrorKind::InvalidInput));
    assert_eq!(repo(&words(&["serve"])), Ok(RepoCommands::Server));
    assert_eq!(repo(&words(&["server", "init"])), Ok(RepoCommands::Server));
    assert_eq!(repo(&words(&["pkg"])), Ok(RepoCommands::Pkg));
    assert_eq!(repo(&words(&["package"])), Ok(RepoCommands::Pkg));
    assert_eq!(repo(&words(&["list"])), Ok(RepoCommands::List));
    assert_eq!(repo(&words(&["lists"])), Err(ErrorKind::InvalidInput));
    assert_eq!(repo(&words(&[])), Err(ErrorKind::InvalidInput));
    assert_eq!(server(&words(&["init"])), Ok(ServerCommands::Init));
    assert_eq!(server(&words(&["build"])), Ok(ServerCommands::Build));
    assert_eq!(server(&words(&["metadata"])), Ok(ServerCommands::Metadata));
    assert_eq!(server(&words(&["project", "add"])), Ok(ServerCommands::Project));
    assert_eq!(server(&words(&["start"])), Err(ErrorKind::InvalidInput));
    assert_eq!(server(&words(&[])), Err(ErrorKind::InvalidInput));
    assert_eq!(repo_pkg(&words(&["search", "foo"])), Ok(PkgCommands::Search));
    assert_eq!(repo_pkg(&words(&["fetch", "foo"])), Ok(PkgCommands::Fetch));
    assert_eq!(repo_pkg(&words(&["install"])), Err(ErrorKind::NotFound));
    assert_eq!(repo_pkg(&words(&[])), Err(ErrorKind::NotFound));
    assert_eq!(server_project(&words(&["add", "x"])), Ok(ProjectCommands::Add));
    assert_eq!(server_project(&words(&["remove", "x"])), Ok(ProjectCommands::Remove));
    assert_eq!(server_project(&words(&["rm"])), Err(ErrorKind::InvalidInput));
    assert_eq!(pkg(&words(&["convert"])), Ok(Handling::Convert));
    assert_eq!(pkg(&words(&["install"])), Ok(Handling::Delegate));
    assert_eq!(pkg(&words(&[])), Err(ErrorKind::NotFound));
    assert_eq!(project(&words(&["convert"])), Ok(Handling::Convert));
    assert_eq!(project(&words(&["build"])), Ok(Handling::Delegate));
    assert_eq!(project(&words(&[])), Err(ErrorKind::NotFound));
    assert_eq!(utils(&words(&["anything"])), Ok(Handling::Delegate));
    assert_eq!(utils(&words(&[])), Err(ErrorKind::InvalidInput));
}

#[test]
fn project_words() {
    assert_eq!(project_add(words(&["demo", "--lib"])), words(&["new", "demo", "--lib"]));
    assert_eq!(project_add(vec![]), words(&["new"]));
    let args = vec![
        opt("alpha", &[], OptionType::Simple),
        opt("--force", &[], OptionType::LongOpt),
        opt("beta", &[], OptionType::Simple),
        opt("-v", &[], OptionType::ShortOpt),
    ];
    assert_eq!(project_remove(&args), words(&["projects/alpha", "projects/beta"]));
    assert!(project_remove(&vec![]).is_empty());
}

#[test]
fn init_options_and_scaffold() {
    let defaults = ServerRepoInitOptions {
        author_name: "user".to_string(),
        author_email: "user@host".to_string(),
    };
    let args = vec![
        opt("--name", &["Jane"], OptionType::LongOpt),
        opt("--email", &["a", "b"], OptionType::LongOpt),
        opt("--name", &[], OptionType::LongOpt),
        opt("--other", &["x"], OptionType::LongOpt),
    ];
    let got = init(&args, defaults.clone());
    assert_eq!(got.author_name, "Jane");
    assert_eq!(got.author_email, "user@host");
    let both = init(
        &vec![
            opt("--email", &["j@example.org"], OptionType::LongOpt),
            opt("--name", &["First"], OptionType::LongOpt),
            opt("--name", &["Second"], OptionType::LongOpt),
        ],
        defaults.clone(),
    );
    assert_eq!(both.author_name, "Second");
    assert_eq!(both.author_email, "j@example.org");
    let same = init(&vec![], defaults);
    assert_eq!(same.author_name, "user");

    let plan = server_initation(0, "name: Jane\nemail: j@example.org\n".to_string()).unwrap();
    let shown: Vec<(&str, &str, bool)> =
        plan.iter().map(|d| (d.to.as_str(), d.from.as_str(), d.is_dir())).collect();
    assert_eq!(
        shown,
        vec![
            ("ipm/repo.yaml", "name: Jane\nemail: j@example.org\n", false),
            ("projects", "", true),
            ("out", "", true),
        ]
    );
    let e = server_initation(3, String::new()).err().unwrap();
    assert_eq!(e.kind, ErrorKind::Other);
    assert_eq!(e.message, "Current directory is not empty");
}

#[test]
fn repository_directory_search() {
    assert_eq!(search_path("/srv/repo/projects"), words(&["/srv/repo/projects", "/srv/repo", "/srv", "/"]));
    assert_eq!(search_path("/"), words(&["/"]));
    assert_eq!(search_path(""), words(&[""]));
    assert_eq!(search_path("relative"), words(&["relative"]));
    assert_eq!(search_path("a/b"), words(&["a/b", "a"]));
    assert_eq!(get_dir("/srv/repo/projects", &vec![false, true, true, false]).unwrap(), "/srv/repo");
    assert_eq!(get_dir("/srv/repo", &vec![true]).unwrap(), "/srv/repo");
    assert_eq!(get_dir("/srv/repo", &vec![false, false, true]).unwrap(), "/");
    let e = get_dir("/srv/repo", &vec![false, false, false]).err().unwrap();
    assert_eq!(e.kind, ErrorKind::NotFound);
    assert_eq!(e.message, "repo.yaml not found in current or parent directories");
    assert!(get_dir("/srv/repo", &vec![]).is_err());
    assert!(get_dir("/srv", &vec![false, false, true, true]).is_err());
    assert_eq!(get_path("/srv/repo"), "/srv/repo/ipm/repo.yaml");
    assert_eq!(get_path("/"), "/ipm/repo.yaml");
}

#[test]
fn conversion_plan() {
    let args = vec![
        opt("--from", &["downloads/hello_2.10.deb"], OptionType::LongOpt),
        opt("--verbose", &[], OptionType::LongOpt),
        opt("--to", &["out", "ignored"], OptionType::LongOpt),
        opt("--from", &[], OptionType::LongOpt),
    ];
    let plan = convert(&args, "/var/cache/ipm");
    assert_eq!(plan.from, "downloads/hello_2.10.deb");
    assert_eq!(plan.to, "out");
    assert_eq!(plan.dest_path, "/var/cache/ipm/hello_2.10.deb");
    assert_eq!(plan.extracted_path, "/var/cache/ipm/hello_2.10.deb.d");
    let none = convert(&vec![], "/var/cache/ipm");
    assert_eq!(none.from, "");
    assert_eq!(none.dest_path, "/var/cache/ipm/");
    assert_eq!(none.extracted_path, "/var/cache/ipm/.d");
    assert!(is_ipak("hello-2.10.ipak"));
    assert!(is_ipak("a.b.ipak"));
    assert!(!is_ipak(".ipak"));
    assert!(!is_ipak("ipak"));
    assert!(!is_ipak("hello.ipak.sig"));
    assert!(!is_ipak("hello.IPAK"));
    assert!(!is_ipak(""));
    assert_eq!(target_path("/work", "out", "hello.ipak"), "/work/out/hello.ipak");
    assert_eq!(target_path("/work", "/abs", "hello.ipak"), "/abs/hello.ipak");
    assert_eq!(target_path("/work", "", "hello.ipak"), "/work/hello.ipak");
}

#[test]
fn client_index_refresh() {
    let mut index = RepoIndex::new("http://test-server".to_string());
    assert!(index.needs_update());
    assert_eq!(index.manifest_location(), "http://test-server/repo.yaml");
    assert!(index.get().is_empty());
    let failed = index.update(Err("HTTP 500".to_string()), Timestamp { seconds: 1, nanos: 0 });
    let e = failed.err().unwrap();
    assert_eq!(e.kind, ErrorKind::SourceUnavailable);
    assert_eq!(e.message, "HTTP 500");
    assert!(index.needs_update());
    assert_eq!(index.manifest_location(), "http://test-server/repo.yaml");
    let doc = RepoYaml {
        url: "http://moved".to_string(),
        author: Maintainer { name: "Test Author".to_string(), email: "test@example.com".to_string() },
        last_updated: None,
        packages: vec![],
    };
    assert!(index.update(Ok(doc), Timestamp { seconds: 2, nanos: 0 }).is_ok());
    assert_eq!(index.author.name, "Test Author");
    assert_eq!(index.author.email, "test@example.com");
    assert_eq!(index.manifest_location(), "http://moved/repo.yaml");
}

#[test]
fn error_texts() {
    assert_eq!(Error::of_kind(ErrorKind::NotFound).to_string(), "  NotFound");
    assert_eq!(
        Error::other("first\nsecond".to_string()).to_string(),
        "  Kind: Other\n  Message:\n    first\n    second"
    );
    let e = Error::new(
        ErrorKind::PartialFailure,
        "some downloads failed".to_string(),
        vec!["one".to_string(), "two".to_string()],
    );
    assert_eq!(
        e.to_string(),
        "  Kind: PartialFailure\n  Message:\n    some downloads failed\n  Causes:\n    one\n    two"
    );
    let only_causes = Error::new(ErrorKind::Fatal, String::new(), vec!["x".to_string()]);
    assert_eq!(only_causes.to_string(), "  Kind: Fatal\n  Causes:\n    x");
    let m = Error::malformed(ControlError::MissingField(Mandatory::Version));
    assert_eq!(m.kind, ErrorKind::MalformedInput);
    assert_eq!(m.message, "Missing mandatory 'Version' field");
    assert_eq!(ErrorKind::SourceUnavailable.name(), "SourceUnavailable");
    assert_eq!(ErrorKind::InvalidInput.name(), "InvalidInput");
}
