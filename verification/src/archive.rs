//! The conversion of a package file: where it is unpacked, and where the
//! native package that comes of it is put.

use crate::pkg::{file_name_of, last_named};
use crate::route::{options_view, CliOption, OptionView};
use crate::text::{chars_of, extend, extend_str, same_str, split, split_on, string_of, trail,
    trail_start, views, CharClass};
use crate::www::path_join;
use vstd::prelude::*;

verus! {

/// The package file to convert and the directory for the result.
#[derive(Debug, Clone)]
pub struct ConvertOptions {
    pub from: String,
    pub to: String,
}

/// The options of a conversion, as plain values.
pub struct ConvertView {
    pub from: Seq<char>,
    pub to: Seq<char>,
}

impl View for ConvertOptions {
    type V = ConvertView;

    open spec fn view(&self) -> ConvertView {
        ConvertView { from: self.from@, to: self.to@ }
    }
}

/// What one word changes: `--from` and `--to` take the first of their
/// values, where they have one; any other word changes nothing.
pub open spec fn chosen(opts: ConvertView, arg: OptionView) -> ConvertView {
    if arg.opt_str == "--from"@ && arg.opt_values.len() > 0 {
        ConvertView { from: arg.opt_values[0], ..opts }
    } else if arg.opt_str == "--to"@ && arg.opt_values.len() > 0 {
        ConvertView { to: arg.opt_values[0], ..opts }
    } else {
        opts
    }
}

/// The options after every word has been applied in order, both paths
/// being empty at first.
pub open spec fn convert_options(args: Seq<OptionView>) -> ConvertView {
    args.fold_left(
        ConvertView { from: Seq::empty(), to: Seq::empty() },
        |o: ConvertView, a: OptionView| chosen(o, a),
    )
}

/// Where a conversion works.
#[derive(Debug, Clone)]
pub struct ConvertPlan {
    /// The package file to convert.
    pub from: String,
    /// The directory for the result, relative to the working directory.
    pub to: String,
    /// The copy of the package file in the cache.
    pub dest_path: String,
    /// The directory in the cache into which the copy is unpacked.
    pub extracted_path: String,
}

/// The plan of a conversion, as plain values.
pub struct PlanView {
    pub from: Seq<char>,
    pub to: Seq<char>,
    pub dest_path: Seq<char>,
    pub extracted_path: Seq<char>,
}

impl View for ConvertPlan {
    type V = PlanView;

    open spec fn view(&self) -> PlanView {
        PlanView {
            from: self.from@,
            to: self.to@,
            dest_path: self.dest_path@,
            extracted_path: self.extracted_path@,
        }
    }
}

/// The file name of a path, empty where it has none.
pub open spec fn base_name(path: Seq<char>) -> Seq<char> {
    match file_name_of(path) {
        Some(n) => n,
        None => Seq::empty(),
    }
}

/// The plan of a conversion: the package file is copied into the cache
/// under its own name and unpacked beside the copy, into the directory of
/// that name with `.d` behind it.
pub open spec fn plan_of(opts: ConvertView, cache: Seq<char>) -> PlanView {
    PlanView {
        from: opts.from,
        to: opts.to,
        dest_path: path_join(cache, base_name(opts.from)),
        extracted_path: path_join(cache, base_name(opts.from) + ".d"@),
    }
}

fn join(dir: &Vec<char>, name: &Vec<char>) -> (r: String)
    ensures
        r@ == path_join(dir@, name@),
{
    if name.len() > 0 && name[0] == '/' {
        return string_of(name);
    }
    let mut out: Vec<char> = Vec::new();
    extend(&mut out, dir);
    if !(dir.len() == 0 || dir[dir.len() - 1] == '/') {
        out.push('/');
        extend(&mut out, name);
        assert(out@ =~= dir@ + seq!['/'] + name@);
    } else {
        extend(&mut out, name);
        assert(out@ =~= dir@ + name@);
    }
    string_of(&out)
}

fn base_name_in(path: &str) -> (r: Vec<char>)
    ensures
        r@ == base_name(path@),
{
    let chars = chars_of(path);
    let pieces = split_on(&chars, '/');
    let ghost all = views(pieces@);
    let mut i: usize = pieces.len();
    assert(all.take(i as int) == all);
    while i > 0
        invariant
            i <= pieces.len(),
            all == views(pieces@),
            all == split(path@, '/'),
            last_named(all) == last_named(all.take(i as int)),
        decreases i,
    {
        let piece = &pieces[i - 1];
        proof {
            let cur = all.take(i as int);
            assert(cur.last() == piece@);
            assert(cur.drop_last() == all.take(i - 1));
        }
        let dot = piece.len() == 1 && piece[0] == '.';
        proof {
            if dot {
                assert(piece@ =~= seq!['.']);
            }
        }
        if piece.len() > 0 && !dot {
            let up = piece.len() == 2 && piece[0] == '.' && piece[1] == '.';
            proof {
                if up {
                    assert(piece@ =~= seq!['.', '.']);
                }
            }
            if up {
                return Vec::new();
            }
            let mut out: Vec<char> = Vec::new();
            extend(&mut out, piece);
            assert(out@ =~= piece@);
            return out;
        }
        i = i - 1;
    }
    Vec::new()
}

/// The plan of the conversion that the words of the command line ask for,
/// with `cache` as the directory to work in.
pub fn convert(args: &Vec<CliOption>, cache: &str) -> (r: ConvertPlan)
    ensures
        r@ == plan_of(convert_options(options_view(args@)), cache@),
{
    let ghost step = |o: ConvertView, a: OptionView| chosen(o, a);
    let ghost all = options_view(args@);
    let ghost start = ConvertView { from: Seq::empty(), to: Seq::empty() };
    let mut opts = ConvertOptions { from: String::new(), to: String::new() };
    let mut i: usize = 0;
    assert(all.take(0) =~= Seq::<OptionView>::empty());
    while i < args.len()
        invariant
            i <= args.len(),
            all == options_view(args@),
            step == |o: ConvertView, a: OptionView| chosen(o, a),
            start == (ConvertView { from: Seq::empty(), to: Seq::empty() }),
            all.take(i as int).fold_left(start, step) == opts@,
        decreases args.len() - i,
    {
        let a = &args[i];
        proof {
            let pre = all.take(i + 1);
            assert(pre.drop_last() == all.take(i as int));
            assert(pre.last() == a@);
            assert(a@.opt_values.len() == a.opt_values.len());
        }
        if same_str(a.opt_str.as_str(), "--from") {
            if a.opt_values.len() > 0 {
                opts.from = a.opt_values[0].clone();
            }
        } else if same_str(a.opt_str.as_str(), "--to") {
            if a.opt_values.len() > 0 {
                opts.to = a.opt_values[0].clone();
            }
        }
        i = i + 1;
    }
    assert(all.take(args.len() as int) == all);
    let dir = chars_of(cache);
    let name = base_name_in(opts.from.as_str());
    let dest_path = join(&dir, &name);
    let mut unpacked = base_name_in(opts.from.as_str());
    extend_str(&mut unpacked, ".d");
    let extracted_path = join(&dir, &unpacked);
    ConvertPlan { from: opts.from, to: opts.to, dest_path, extracted_path }
}

/// The extension of a file name: what follows its last `.`, unless the
/// name has none or begins with it.
pub open spec fn extension_of(name: Seq<char>) -> Option<Seq<char>> {
    let n = trail(name, CharClass::Not('.').pred());
    if n == name.len() || name.len() - n - 1 == 0 {
        None
    } else {
        Some(name.skip(name.len() - n))
    }
}

/// Whether a file name has the extension of native packages.
pub open spec fn is_native(name: Seq<char>) -> bool {
    extension_of(name) == Some("ipak"@)
}

/// Whether the file `name` is a native package, to be moved to the
/// directory of the result.
pub fn is_ipak(name: &str) -> (r: bool)
    ensures
        r == is_native(name@),
{
    let chars = chars_of(name);
    assert(chars@.subrange(0, chars.len() as int) == chars@);
    let cut = trail_start(&chars, 0, chars.len(), CharClass::Not('.'));
    if cut == 0 || cut - 1 == 0 {
        return false;
    }
    let ext = crate::text::slice_of(&chars, cut, chars.len());
    assert(ext@ == chars@.skip(cut as int));
    let want = chars_of("ipak");
    crate::text::same(&ext, &want)
}

/// Where a native package named `file_name` is put: below the directory of
/// the result, which is taken relative to the directory in which the
/// conversion was started.
pub fn target_path(started_in: &str, to: &str, file_name: &str) -> (r: String)
    ensures
        r@ == path_join(path_join(started_in@, to@), file_name@),
{
    let base = join(&chars_of(started_in), &chars_of(to));
    join(&chars_of(base.as_str()), &chars_of(file_name))
}

} // verus!
