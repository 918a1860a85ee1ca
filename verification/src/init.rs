//! The setting up of an empty directory as a served repository.

use crate::error::{Error, ErrorKind, ErrorView};
use crate::route::{options_view, CliOption, OptionView};
use crate::text::{chars_of, same_str, string_of};
use vstd::prelude::*;

verus! {

/// Who publishes the repository.
#[derive(Debug, Clone)]
pub struct ServerRepoInitOptions {
    pub author_name: String,
    pub author_email: String,
}

/// Who publishes the repository, as plain values.
pub struct InitView {
    pub author_name: Seq<char>,
    pub author_email: Seq<char>,
}

impl View for ServerRepoInitOptions {
    type V = InitView;

    open spec fn view(&self) -> InitView {
        InitView { author_name: self.author_name@, author_email: self.author_email@ }
    }
}

/// What one word changes: `--name` and `--email` set the name and the
/// address where exactly one value is given to them; any other word
/// changes nothing.
pub open spec fn applied(opts: InitView, arg: OptionView) -> InitView {
    if arg.opt_str == "--name"@ && arg.opt_values.len() == 1 {
        InitView { author_name: arg.opt_values[0], ..opts }
    } else if arg.opt_str == "--email"@ && arg.opt_values.len() == 1 {
        InitView { author_email: arg.opt_values[0], ..opts }
    } else {
        opts
    }
}

/// The options after every word has been applied in order.
pub open spec fn init_options(defaults: InitView, args: Seq<OptionView>) -> InitView {
    args.fold_left(defaults, |o: InitView, a: OptionView| applied(o, a))
}

/// The options of `init`: the defaults, which the caller takes from the
/// user's account, changed by the words of the command line.
pub fn init(args: &Vec<CliOption>, defaults: ServerRepoInitOptions) -> (r: ServerRepoInitOptions)
    ensures
        r@ == init_options(defaults@, options_view(args@)),
{
    let ghost step = |o: InitView, a: OptionView| applied(o, a);
    let ghost all = options_view(args@);
    let ghost start = defaults@;
    let mut opts = defaults;
    let mut i: usize = 0;
    assert(all.take(0) =~= Seq::<OptionView>::empty());
    while i < args.len()
        invariant
            i <= args.len(),
            all == options_view(args@),
            step == |o: InitView, a: OptionView| applied(o, a),
            all.take(i as int).fold_left(start, step) == opts@,
        decreases args.len() - i,
    {
        let a = &args[i];
        proof {
            let pre = all.take(i + 1);
            assert(pre.drop_last() == all.take(i as int));
            assert(pre.last() == a@);
            assert(a@.opt_values.len() == a.opt_values.len());
        }
        if same_str(a.opt_str.as_str(), "--name") {
            if a.opt_values.len() == 1 {
                opts.author_name = a.opt_values[0].clone();
            }
        } else if same_str(a.opt_str.as_str(), "--email") {
            if a.opt_values.len() == 1 {
                opts.author_email = a.opt_values[0].clone();
            }
        }
        i = i + 1;
    }
    assert(all.take(args.len() as int) == all);
    opts
}

/// One thing to create: a file with the content `from` at `to`, or, where
/// `from` is empty, the directory `to`.
#[derive(Debug, Clone)]
pub struct SetUpData {
    pub from: String,
    pub to: String,
}

/// One thing to create, as plain values.
pub struct SetUpView {
    pub from: Seq<char>,
    pub to: Seq<char>,
}

impl View for SetUpData {
    type V = SetUpView;

    open spec fn view(&self) -> SetUpView {
        SetUpView { from: self.from@, to: self.to@ }
    }
}

impl SetUpData {
    /// Whether this is a directory to create rather than a file.
    pub fn is_dir(&self) -> (r: bool)
        ensures
            r == (self@.from.len() == 0),
    {
        self.from.as_str().unicode_len() == 0
    }
}

/// What a repository consists of at first: the file of its author, and the
/// directories of its projects and of its output.
pub open spec fn scaffold(author: Seq<char>) -> Seq<SetUpView> {
    seq![
        SetUpView { from: author, to: "ipm/repo.yaml"@ },
        SetUpView { from: Seq::empty(), to: "projects"@ },
        SetUpView { from: Seq::empty(), to: "out"@ },
    ]
}

/// The error for a directory that holds something already.
pub open spec fn not_empty() -> ErrorView {
    ErrorView {
        kind: ErrorKind::Other,
        message: "Current directory is not empty"@,
        causes: Seq::empty(),
    }
}

/// What to create for a new repository. `entries` is the number of entries
/// of the working directory, which must be empty; `author` is the author
/// of the repository as the file `ipm/repo.yaml` is to hold it.
pub fn server_initation(entries: usize, author: String) -> (r: Result<Vec<SetUpData>, Error>)
    ensures
        match r {
            Ok(list) => entries == 0 && list@.map_values(|d: SetUpData| d@) == scaffold(author@),
            Err(e) => entries > 0 && e@ == not_empty(),
        },
{
    if entries > 0 {
        let e = Error::other(string_of(&chars_of("Current directory is not empty")));
        return Err(e);
    }
    let mut list: Vec<SetUpData> = Vec::new();
    list.push(SetUpData { from: author, to: string_of(&chars_of("ipm/repo.yaml")) });
    list.push(SetUpData { from: String::new(), to: string_of(&chars_of("projects")) });
    list.push(SetUpData { from: String::new(), to: string_of(&chars_of("out")) });
    assert(list@.map_values(|d: SetUpData| d@) =~= scaffold(author@));
    Ok(list)
}

} // verus!
