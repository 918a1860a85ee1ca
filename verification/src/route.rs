//! The words of a command line and what they ask for. The functions of
//! this module decide; running what was decided is the caller's part.

use crate::error::ErrorKind;
use crate::text::{same_str, str_views};
use vstd::prelude::*;

verus! {

/// The arguments of the program: the command that its first word names.
#[derive(Debug, Clone, Copy, PartialEq, Eq)]
pub struct Args {
    pub command: Commands,
}

/// The commands of the program.
#[derive(Debug, Clone, Copy, PartialEq, Eq)]
pub enum Commands {
    /// Manage projects.
    Project,
    /// Configure system settings.
    System,
    /// Utility commands.
    Utils,
    /// Manage packages.
    Pkg,
    /// Manage repositories.
    Repo,
}

/// The commands on repositories.
#[derive(Debug, Clone, Copy, PartialEq, Eq)]
pub enum RepoCommands {
    /// Serve a repository: `serve` or `server`.
    Server,
    /// Search or fetch packages: `pkg` or `package`.
    Pkg,
    /// List the configured sources: `list`.
    List,
}

/// The commands on a served repository.
#[derive(Debug, Clone, Copy, PartialEq, Eq)]
pub enum ServerCommands {
    /// Set up an empty directory as a repository: `init`.
    Init,
    /// Build the projects and write the index: `build`.
    Build,
    /// Show the manifest that the projects describe: `metadata`.
    Metadata,
    /// Add or remove a project: `project`.
    Project,
}

/// The commands on the packages of the configured sources.
#[derive(Debug, Clone, Copy, PartialEq, Eq)]
pub enum PkgCommands {
    /// Show the entries with the given names: `search`.
    Search,
    /// Download the entries with the given names: `fetch`.
    Fetch,
}

/// The commands on the projects of a served repository.
#[derive(Debug, Clone, Copy, PartialEq, Eq)]
pub enum ProjectCommands {
    /// Create a project below `projects`: `add`.
    Add,
    /// Remove the named projects: `remove`.
    Remove,
}

/// Whether a command is this program's own or is handed on.
#[derive(Debug, Clone, Copy, PartialEq, Eq)]
pub enum Handling {
    /// `convert`: the conversion of a foreign package.
    Convert,
    /// Anything else goes to the native tool unchanged.
    Delegate,
}

/// The first word of a command line, if it has one.
pub open spec fn first_word(words: Seq<Seq<char>>) -> Option<Seq<char>> {
    if words.len() > 0 {
        Some(words[0])
    } else {
        None
    }
}

/// The command that the first word names.
pub open spec fn command_of(words: Seq<Seq<char>>) -> Result<Commands, ErrorKind> {
    match first_word(words) {
        None => Err(ErrorKind::InvalidInput),
        Some(w) => if w == "project"@ {
            Ok(Commands::Project)
        } else if w == "system"@ {
            Ok(Commands::System)
        } else if w == "utils"@ {
            Ok(Commands::Utils)
        } else if w == "pkg"@ {
            Ok(Commands::Pkg)
        } else if w == "repo"@ {
            Ok(Commands::Repo)
        } else {
            Err(ErrorKind::InvalidInput)
        },
    }
}

/// The repository command that the first word names. Anything else,
/// nothing included, is `InvalidInput`.
pub open spec fn repo_command(words: Seq<Seq<char>>) -> Result<RepoCommands, ErrorKind> {
    match first_word(words) {
        None => Err(ErrorKind::InvalidInput),
        Some(w) => if w == "serve"@ || w == "server"@ {
            Ok(RepoCommands::Server)
        } else if w == "pkg"@ || w == "package"@ {
            Ok(RepoCommands::Pkg)
        } else if w == "list"@ {
            Ok(RepoCommands::List)
        } else {
            Err(ErrorKind::InvalidInput)
        },
    }
}

/// The server command that the first word names.
pub open spec fn server_command(words: Seq<Seq<char>>) -> Result<ServerCommands, ErrorKind> {
    match first_word(words) {
        None => Err(ErrorKind::InvalidInput),
        Some(w) => if w == "init"@ {
            Ok(ServerCommands::Init)
        } else if w == "build"@ {
            Ok(ServerCommands::Build)
        } else if w == "metadata"@ {
            Ok(ServerCommands::Metadata)
        } else if w == "project"@ {
            Ok(ServerCommands::Project)
        } else {
            Err(ErrorKind::InvalidInput)
        },
    }
}

/// The package command that the first word names. Anything else, nothing
/// included, is `NotFound`.
pub open spec fn pkg_command(words: Seq<Seq<char>>) -> Result<PkgCommands, ErrorKind> {
    match first_word(words) {
        None => Err(ErrorKind::NotFound),
        Some(w) => if w == "search"@ {
            Ok(PkgCommands::Search)
        } else if w == "fetch"@ {
            Ok(PkgCommands::Fetch)
        } else {
            Err(ErrorKind::NotFound)
        },
    }
}

/// The project command that the first word names.
pub open spec fn project_command(words: Seq<Seq<char>>) -> Result<ProjectCommands, ErrorKind> {
    match first_word(words) {
        None => Err(ErrorKind::InvalidInput),
        Some(w) => if w == "add"@ {
            Ok(ProjectCommands::Add)
        } else if w == "remove"@ {
            Ok(ProjectCommands::Remove)
        } else {
            Err(ErrorKind::InvalidInput)
        },
    }
}

/// How a command line of the native tool is handled: `convert` is this
/// program's own, anything else is handed on; an empty line is an error of
/// the given kind.
pub open spec fn handling_of(words: Seq<Seq<char>>, empty: ErrorKind) -> Result<
    Handling,
    ErrorKind,
> {
    match first_word(words) {
        None => Err(empty),
        Some(w) => if w == "convert"@ {
            Ok(Handling::Convert)
        } else {
            Ok(Handling::Delegate)
        },
    }
}

impl Args {
    /// The arguments that a command line holds.
    pub fn parse(words: &Vec<String>) -> (r: Result<Args, ErrorKind>)
        ensures
            match r {
                Ok(a) => command_of(str_views(words@)) == Ok::<Commands, ErrorKind>(a.command),
                Err(e) => command_of(str_views(words@)) == Err::<Commands, ErrorKind>(e),
            },
    {
        if words.len() == 0 {
            return Err(ErrorKind::InvalidInput);
        }
        let w = words[0].as_str();
        assert(str_views(words@)[0] == w@);
        if same_str(w, "project") {
            Ok(Args { command: Commands::Project })
        } else if same_str(w, "system") {
            Ok(Args { command: Commands::System })
        } else if same_str(w, "utils") {
            Ok(Args { command: Commands::Utils })
        } else if same_str(w, "pkg") {
            Ok(Args { command: Commands::Pkg })
        } else if same_str(w, "repo") {
            Ok(Args { command: Commands::Repo })
        } else {
            Err(ErrorKind::InvalidInput)
        }
    }
}

/// The repository command that `args` ask for.
pub fn repo(args: &Vec<String>) -> (r: Result<RepoCommands, ErrorKind>)
    ensures
        r == repo_command(str_views(args@)),
{
    if args.len() == 0 {
        return Err(ErrorKind::InvalidInput);
    }
    let w = args[0].as_str();
    assert(str_views(args@)[0] == w@);
    if same_str(w, "serve") || same_str(w, "server") {
        Ok(RepoCommands::Server)
    } else if same_str(w, "pkg") || same_str(w, "package") {
        Ok(RepoCommands::Pkg)
    } else if same_str(w, "list") {
        Ok(RepoCommands::List)
    } else {
        Err(ErrorKind::InvalidInput)
    }
}

/// The server command that `args` ask for.
pub fn server(args: &Vec<String>) -> (r: Result<ServerCommands, ErrorKind>)
    ensures
        r == server_command(str_views(args@)),
{
    if args.len() == 0 {
        return Err(ErrorKind::InvalidInput);
    }
    let w = args[0].as_str();
    assert(str_views(args@)[0] == w@);
    if same_str(w, "init") {
        Ok(ServerCommands::Init)
    } else if same_str(w, "build") {
        Ok(ServerCommands::Build)
    } else if same_str(w, "metadata") {
        Ok(ServerCommands::Metadata)
    } else if same_str(w, "project") {
        Ok(ServerCommands::Project)
    } else {
        Err(ErrorKind::InvalidInput)
    }
}

/// The package command that `args` ask for; the words behind the first are
/// the names to search or fetch.
pub fn repo_pkg(args: &Vec<String>) -> (r: Result<PkgCommands, ErrorKind>)
    ensures
        r == pkg_command(str_views(args@)),
{
    if args.len() == 0 {
        return Err(ErrorKind::NotFound);
    }
    let w = args[0].as_str();
    assert(str_views(args@)[0] == w@);
    if same_str(w, "search") {
        Ok(PkgCommands::Search)
    } else if same_str(w, "fetch") {
        Ok(PkgCommands::Fetch)
    } else {
        Err(ErrorKind::NotFound)
    }
}

/// The project command that `args` ask for.
pub fn server_project(args: &Vec<String>) -> (r: Result<ProjectCommands, ErrorKind>)
    ensures
        r == project_command(str_views(args@)),
{
    if args.len() == 0 {
        return Err(ErrorKind::InvalidInput);
    }
    let w = args[0].as_str();
    assert(str_views(args@)[0] == w@);
    if same_str(w, "add") {
        Ok(ProjectCommands::Add)
    } else if same_str(w, "remove") {
        Ok(ProjectCommands::Remove)
    } else {
        Err(ErrorKind::InvalidInput)
    }
}

fn handling(args: &Vec<String>, empty: ErrorKind) -> (r: Result<Handling, ErrorKind>)
    ensures
        r == handling_of(str_views(args@), empty),
{
    if args.len() == 0 {
        return Err(empty);
    }
    let w = args[0].as_str();
    assert(str_views(args@)[0] == w@);
    if same_str(w, "convert") {
        Ok(Handling::Convert)
    } else {
        Ok(Handling::Delegate)
    }
}

/// How a `pkg` command line is handled.
pub fn pkg(args: &Vec<String>) -> (r: Result<Handling, ErrorKind>)
    ensures
        r == handling_of(str_views(args@), ErrorKind::NotFound),
{
    handling(args, ErrorKind::NotFound)
}

/// How a `project` command line is handled.
pub fn project(args: &Vec<String>) -> (r: Result<Handling, ErrorKind>)
    ensures
        r == handling_of(str_views(args@), ErrorKind::NotFound),
{
    handling(args, ErrorKind::NotFound)
}

/// How a `utils` command line is handled: it is handed on unless it is
/// empty, which is `InvalidInput`.
pub fn utils(args: &Vec<String>) -> (r: Result<Handling, ErrorKind>)
    ensures
        match r {
            Ok(h) => args.len() > 0 && h == Handling::Delegate,
            Err(e) => args.len() == 0 && e == ErrorKind::InvalidInput,
        },
{
    if args.len() == 0 {
        Err(ErrorKind::InvalidInput)
    } else {
        Ok(Handling::Delegate)
    }
}

/// How a word of the command line was written.
#[derive(Debug, Clone, Copy, PartialEq, Eq)]
pub enum OptionType {
    /// A plain word.
    Simple,
    /// A word behind one dash.
    ShortOpt,
    /// A word behind two dashes.
    LongOpt,
}

/// One word of the command line with the values that were given to it.
#[derive(Debug, Clone)]
pub struct CliOption {
    pub opt_str: String,
    pub opt_values: Vec<String>,
    pub opt_type: OptionType,
}

/// One word of the command line, as plain values.
pub struct OptionView {
    pub opt_str: Seq<char>,
    pub opt_values: Seq<Seq<char>>,
    pub opt_type: OptionType,
}

impl View for CliOption {
    type V = OptionView;

    open spec fn view(&self) -> OptionView {
        OptionView {
            opt_str: self.opt_str@,
            opt_values: str_views(self.opt_values@),
            opt_type: self.opt_type,
        }
    }
}

/// The views of a sequence of words.
pub open spec fn options_view(v: Seq<CliOption>) -> Seq<OptionView> {
    v.map_values(|o: CliOption| o@)
}

/// The directories of the projects that `remove` names: `projects/` and
/// the word, for each plain word in order.
pub open spec fn removals(args: Seq<OptionView>) -> Seq<Seq<char>>
    decreases args.len(),
{
    if args.len() == 0 {
        Seq::empty()
    } else if args.last().opt_type == OptionType::Simple {
        removals(args.drop_last()).push("projects/"@ + args.last().opt_str)
    } else {
        removals(args.drop_last())
    }
}

/// The directories to remove for `remove` with the given words.
pub fn project_remove(args: &Vec<CliOption>) -> (out: Vec<String>)
    ensures
        str_views(out@) == removals(options_view(args@)),
{
    let ghost all = options_view(args@);
    let mut out: Vec<String> = Vec::new();
    let mut i: usize = 0;
    assert(str_views(out@) =~= removals(all.take(0)));
    while i < args.len()
        invariant
            i <= args.len(),
            all == options_view(args@),
            str_views(out@) == removals(all.take(i as int)),
        decreases args.len() - i,
    {
        let a = &args[i];
        proof {
            let pre = all.take(i + 1);
            assert(pre.drop_last() == all.take(i as int));
            assert(pre.last() == a@);
        }
        match a.opt_type {
            OptionType::Simple => {
                let mut p = crate::text::chars_of("projects/");
                crate::text::extend_str(&mut p, a.opt_str.as_str());
                let s = crate::text::string_of(&p);
                assert(str_views(out@.push(s)) =~= str_views(out@).push(s@));
                out.push(s);
            },
            _ => {},
        }
        i = i + 1;
    }
    assert(all.take(args.len() as int) == all);
    out
}

/// The words that create a project: `new`, then the words of `add`.
pub fn project_add(args: Vec<String>) -> (out: Vec<String>)
    ensures
        str_views(out@) == seq!["new"@] + str_views(args@),
{
    let mut out: Vec<String> = Vec::new();
    out.push(crate::text::string_of(&crate::text::chars_of("new")));
    let ghost head = str_views(out@);
    let mut rest = args;
    let ghost tail = str_views(rest@);
    out.append(&mut rest);
    assert(str_views(out@) =~= head + tail);
    assert(head =~= seq!["new"@]);
    out
}

} // verus!
