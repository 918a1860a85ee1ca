//! The control-text grammar: paragraphs separated by blank lines, each a
//! run of `Key: value` fields whose values may continue on lines that begin
//! with white space.

use crate::relation::ControlError;
use crate::text::{begins_with, blank, chars_of, extend, index_of, is_blank, is_space,
    is_whitespace, lemma_index_of, lines, lines_of, position, same, slice_of, starts_with,
    string_of, trim, trim_bounds, trimmed, views};
use vstd::prelude::*;

verus! {

/// One field of a paragraph.
#[derive(Debug, Clone)]
pub struct Field {
    pub key: String,
    pub value: String,
}

/// One field of a paragraph, as plain values.
pub struct FieldView {
    pub key: Seq<char>,
    pub value: Seq<char>,
}

impl View for Field {
    type V = FieldView;

    open spec fn view(&self) -> FieldView {
        FieldView { key: self.key@, value: self.value@ }
    }
}

/// The views of a sequence of fields.
pub open spec fn fields_view(v: Seq<Field>) -> Seq<FieldView> {
    v.map_values(|f: Field| f@)
}

/// The value that a sequence of fields gives to `key`: that of the last
/// field with that key.
pub open spec fn lookup(fields: Seq<FieldView>, key: Seq<char>) -> Option<Seq<char>>
    decreases fields.len(),
{
    if fields.len() == 0 {
        None
    } else if fields.last().key == key {
        Some(fields.last().value)
    } else {
        lookup(fields.drop_last(), key)
    }
}

/// The value that `fields` give to `key`: that of the last field with that
/// key.
pub fn field_value<'a>(fields: &'a Vec<Field>, key: &str) -> (r: Option<&'a String>)
    ensures
        match r {
            Some(v) => lookup(fields_view(fields@), key@) == Some(v@),
            None => lookup(fields_view(fields@), key@) is None,
        },
{
    let ghost all = fields_view(fields@);
    let k = chars_of(key);
    let mut i: usize = fields.len();
    assert(all.take(i as int) == all);
    while i > 0
        invariant
            i <= fields.len(),
            k@ == key@,
            all == fields_view(fields@),
            lookup(all, key@) == lookup(all.take(i as int), key@),
        decreases i,
    {
        let f = &fields[i - 1];
        let fk = chars_of(f.key.as_str());
        proof {
            let cur = all.take(i as int);
            assert(cur.last() == f@);
            assert(cur.drop_last() == all.take(i - 1));
        }
        if same(&fk, &k) {
            return Some(&f.value);
        }
        i = i - 1;
    }
    None
}

/// The value of the first field with the given key, if there is one.
pub open spec fn first_lookup(fields: Seq<FieldView>, key: Seq<char>) -> Option<Seq<char>>
    decreases fields.len(),
{
    if fields.len() == 0 {
        None
    } else if fields[0].key == key {
        Some(fields[0].value)
    } else {
        first_lookup(fields.drop_first(), key)
    }
}

/// The value of the first of `fields` with the key `key`.
pub fn first_value<'a>(fields: &'a Vec<Field>, key: &str) -> (r: Option<&'a String>)
    ensures
        match r {
            Some(v) => first_lookup(fields_view(fields@), key@) == Some(v@),
            None => first_lookup(fields_view(fields@), key@) is None,
        },
{
    let ghost all = fields_view(fields@);
    let k = chars_of(key);
    let mut i: usize = 0;
    assert(all.skip(0) == all);
    while i < fields.len()
        invariant
            i <= fields.len(),
            k@ == key@,
            all == fields_view(fields@),
            first_lookup(all, key@) == first_lookup(all.skip(i as int), key@),
        decreases fields.len() - i,
    {
        let f = &fields[i];
        let fk = chars_of(f.key.as_str());
        proof {
            let rest = all.skip(i as int);
            assert(rest[0] == f@);
            assert(rest.drop_first() == all.skip(i + 1));
        }
        if same(&fk, &k) {
            return Some(&f.value);
        }
        i = i + 1;
    }
    None
}

/// A paragraph: its fields in the order of the source text. A key that
/// occurs twice has the value of its last occurrence.
#[derive(Debug, Clone)]
pub struct Paragraph {
    pub fields: Vec<Field>,
}

impl View for Paragraph {
    type V = Seq<FieldView>;

    open spec fn view(&self) -> Seq<FieldView> {
        fields_view(self.fields@)
    }
}

/// The views of a sequence of paragraphs.
pub open spec fn paragraphs_view(v: Seq<Paragraph>) -> Seq<Seq<FieldView>> {
    v.map_values(|p: Paragraph| p@)
}

impl Paragraph {
    /// A paragraph without fields.
    pub fn new() -> (p: Paragraph)
        ensures
            p@ == Seq::<FieldView>::empty(),
    {
        let p = Paragraph { fields: Vec::new() };
        assert(p@ =~= Seq::<FieldView>::empty());
        p
    }

    /// The value of `key`, if the paragraph has that field.
    pub fn get(&self, key: &str) -> (r: Option<&String>)
        ensures
            match r {
                Some(v) => lookup(self@, key@) == Some(v@),
                None => lookup(self@, key@) is None,
            },
    {
        field_value(&self.fields, key)
    }

    /// Whether the paragraph has the field `key`.
    pub fn has(&self, key: &str) -> (r: bool)
        ensures
            r == lookup(self@, key@) is Some,
    {
        self.get(key).is_some()
    }
}

/// What the scan of a paragraph holds between two lines: the fields that
/// are complete, and the one that later lines may still continue.
pub struct Scan {
    pub done: Seq<FieldView>,
    pub open: Option<FieldView>,
}

/// Whether a line continues the value of the field before it: it does
/// where it begins with white space.
pub open spec fn is_continuation(line: Seq<char>) -> bool {
    line.len() > 0 && is_space(line[0])
}

/// The fields that are complete once the open one is closed.
pub open spec fn close(st: Scan) -> Seq<FieldView> {
    match st.open {
        Some(f) => st.done.push(f),
        None => st.done,
    }
}

/// The field that a line opens: key and value around its first `:`, both
/// trimmed. A line without `:`, or with nothing before it, opens none.
pub open spec fn field_of(line: Seq<char>) -> Option<FieldView> {
    let colon = index_of(line, ':');
    if colon < line.len() && trim(line.take(colon)).len() > 0 {
        Some(FieldView { key: trim(line.take(colon)), value: trim(line.skip(colon + 1)) })
    } else {
        None
    }
}

/// One step of the scan. A continuation line adds a line feed and its own
/// trimmed text to the open field; any other line closes the open field and
/// opens the one it holds.
pub open spec fn scan_line(st: Scan, line: Seq<char>) -> Scan {
    if is_continuation(line) {
        match st.open {
            Some(f) => Scan {
                done: st.done,
                open: Some(FieldView { key: f.key, value: f.value + seq!['\n'] + trim(line) }),
            },
            None => st,
        }
    } else {
        Scan { done: close(st), open: field_of(line) }
    }
}

/// The fields of a paragraph given by its lines.
pub open spec fn parse_fields(ls: Seq<Seq<char>>) -> Seq<FieldView> {
    close(
        ls.fold_left(
            Scan { done: Seq::empty(), open: None },
            |st: Scan, line: Seq<char>| scan_line(st, line),
        ),
    )
}

/// The fields of a control file taken as one paragraph.
pub open spec fn parse_control(text: Seq<char>) -> Seq<FieldView> {
    parse_fields(lines(text))
}

/// What the grouping of lines holds between two lines: the groups that are
/// complete, and the lines of the one that is still open.
pub struct Grouping {
    pub done: Seq<Seq<Seq<char>>>,
    pub open: Seq<Seq<char>>,
}

/// One step of the grouping: a blank line closes the open group if it has
/// lines; any other line joins it.
pub open spec fn group_line(st: Grouping, line: Seq<char>) -> Grouping {
    if is_blank(line) {
        if st.open.len() > 0 {
            Grouping { done: st.done.push(st.open), open: Seq::empty() }
        } else {
            st
        }
    } else {
        Grouping { done: st.done, open: st.open.push(line) }
    }
}

/// The groups of lines between blank lines; no group is empty.
pub open spec fn group_lines(ls: Seq<Seq<char>>) -> Seq<Seq<Seq<char>>> {
    let st = ls.fold_left(
        Grouping { done: Seq::empty(), open: Seq::empty() },
        |st: Grouping, line: Seq<char>| group_line(st, line),
    );
    if st.open.len() > 0 {
        st.done.push(st.open)
    } else {
        st.done
    }
}

/// The paragraphs of a text: one for each group of lines between blank
/// lines.
pub open spec fn parse_text(text: Seq<char>) -> Seq<Seq<FieldView>> {
    group_lines(lines(text)).map_values(|g: Seq<Seq<char>>| parse_fields(g))
}

fn field_in(line: &Vec<char>) -> (r: Option<Field>)
    ensures
        match r {
            Some(f) => field_of(line@) == Some(f@),
            None => field_of(line@) is None,
        },
{
    assert(line@.subrange(0, line.len() as int) == line@);
    proof {
        lemma_index_of(line@, ':');
    }
    match position(line, ':', 0, line.len()) {
        Some(colon) => {
            assert(line@.take(colon as int) == line@.subrange(0, colon as int));
            assert(line@.skip(colon + 1) == line@.subrange(colon + 1, line.len() as int));
            let (a, b) = trim_bounds(line, 0, colon);
            if a == b {
                return None;
            }
            let (c, d) = trim_bounds(line, colon + 1, line.len());
            Some(
                Field {
                    key: string_of(&slice_of(line, a, b)),
                    value: string_of(&slice_of(line, c, d)),
                },
            )
        },
        None => None,
    }
}

/// The fields of the paragraph that `ls` holds.
pub fn fields_of(ls: &Vec<Vec<char>>) -> (p: Paragraph)
    ensures
        p@ == parse_fields(views(ls@)),
{
    let ghost step = |st: Scan, line: Seq<char>| scan_line(st, line);
    let ghost init = Scan { done: Seq::empty(), open: None };
    let mut done: Vec<Field> = Vec::new();
    let mut open: Option<Field> = None;
    let mut i: usize = 0;
    assert(fields_view(done@) =~= Seq::<FieldView>::empty());
    assert(views(ls@).take(0) =~= Seq::<Seq<char>>::empty());
    while i < ls.len()
        invariant
            i <= ls.len(),
            step == |st: Scan, line: Seq<char>| scan_line(st, line),
            init == (Scan { done: Seq::empty(), open: None }),
            views(ls@).take(i as int).fold_left(init, step) == (Scan {
                done: fields_view(done@),
                open: match open {
                    Some(f) => Some(f@),
                    None => None,
                },
            }),
        decreases ls.len() - i,
    {
        let line = &ls[i];
        let ghost before = views(ls@).take(i as int).fold_left(init, step);
        proof {
            let pre = views(ls@).take(i + 1);
            assert(pre.drop_last() == views(ls@).take(i as int));
            assert(pre.last() == line@);
            assert(pre.fold_left(init, step) == scan_line(before, line@));
        }
        if line.len() > 0 && is_whitespace(line[0]) {
            open = match open {
                Some(f) => {
                    let mut value = chars_of(f.value.as_str());
                    value.push('\n');
                    let t = trimmed(line);
                    extend(&mut value, &t);
                    assert(value@ =~= f.value@ + seq!['\n'] + trim(line@));
                    Some(Field { key: f.key, value: string_of(&value) })
                },
                None => None,
            };
        } else {
            match open {
                Some(f) => {
                    assert(fields_view(done@.push(f)) =~= fields_view(done@).push(f@));
                    done.push(f);
                },
                None => {},
            }
            open = field_in(line);
        }
        i = i + 1;
    }
    assert(views(ls@).take(ls.len() as int) == views(ls@));
    match open {
        Some(f) => {
            assert(fields_view(done@.push(f)) =~= fields_view(done@).push(f@));
            done.push(f);
        },
        None => {},
    }
    Paragraph { fields: done }
}

/// Parses a control file as one paragraph of fields.
pub fn parse_control_file(control_content: &str) -> (r: Result<Paragraph, ControlError>)
    ensures
        r is Ok,
        r->Ok_0@ == parse_control(control_content@),
{
    let text = chars_of(control_content);
    let ls = lines_of(&text);
    Ok(fields_of(&ls))
}

/// Parses a text of paragraphs separated by blank lines.
pub fn parse_paragraphs(text: &str) -> (out: Vec<Paragraph>)
    ensures
        paragraphs_view(out@) == parse_text(text@),
{
    let ghost step = |st: Grouping, line: Seq<char>| group_line(st, line);
    let ghost init = Grouping { done: Seq::empty(), open: Seq::empty() };
    let ghost parse = |g: Seq<Seq<char>>| parse_fields(g);
    let chars = chars_of(text);
    let ls = lines_of(&chars);
    let mut out: Vec<Paragraph> = Vec::new();
    let mut open: Vec<Vec<char>> = Vec::new();
    let mut i: usize = 0;
    assert(views(ls@).take(0) =~= Seq::<Seq<char>>::empty());
    assert(views(open@) =~= Seq::<Seq<char>>::empty());
    assert(paragraphs_view(out@) =~= Seq::<Seq<Seq<char>>>::empty().map_values(parse));
    while i < ls.len()
        invariant
            i <= ls.len(),
            step == |st: Grouping, line: Seq<char>| group_line(st, line),
            init == (Grouping { done: Seq::empty(), open: Seq::empty() }),
            parse == |g: Seq<Seq<char>>| parse_fields(g),
            views(ls@).take(i as int).fold_left(init, step).open == views(open@),
            paragraphs_view(out@) == views(ls@).take(i as int).fold_left(
                init,
                step,
            ).done.map_values(parse),
        decreases ls.len() - i,
    {
        let line = &ls[i];
        proof {
            let pre = views(ls@).take(i + 1);
            assert(pre.drop_last() == views(ls@).take(i as int));
            assert(pre.last() == line@);
        }
        let ghost before = views(ls@).take(i as int).fold_left(init, step);
        if blank(line) {
            if open.len() > 0 {
                let p = fields_of(&open);
                proof {
                    assert(paragraphs_view(out@.push(p)) =~= paragraphs_view(out@).push(p@));
                    assert(before.done.push(before.open).map_values(parse) =~= before.done.map_values(
                        parse,
                    ).push(parse(before.open)));
                }
                out.push(p);
                open = Vec::new();
                assert(views(open@) =~= Seq::<Seq<char>>::empty());
            }
        } else {
            let copy = slice_of(line, 0, line.len());
            assert(copy@ == line@);
            assert(views(open@.push(copy)) =~= views(open@).push(copy@));
            open.push(copy);
        }
        i = i + 1;
    }
    assert(views(ls@).take(ls.len() as int) == views(ls@));
    let ghost last = views(ls@).fold_left(init, step);
    if open.len() > 0 {
        let p = fields_of(&open);
        proof {
            assert(paragraphs_view(out@.push(p)) =~= paragraphs_view(out@).push(p@));
            assert(last.done.push(last.open).map_values(parse) =~= last.done.map_values(parse).push(
                parse(last.open),
            ));
        }
        out.push(p);
    }
    out
}

/// Name and address of a maintainer, as plain sequences of characters.
pub struct MaintainerView {
    pub name: Seq<char>,
    pub email: Seq<char>,
}

/// What a maintainer text means: the name before the first `<` and the
/// address between it and the first `>` after it, both trimmed. Without
/// such a pair the whole text is the name and the address is empty.
pub open spec fn maintainer_of(s: Seq<char>) -> MaintainerView {
    let lt = index_of(s, '<');
    let tail = s.skip(lt + 1);
    let gt = index_of(tail, '>');
    if lt < s.len() && gt < tail.len() {
        MaintainerView { name: trim(s.take(lt)), email: trim(tail.take(gt)) }
    } else {
        MaintainerView { name: s, email: Seq::empty() }
    }
}

/// Splits a maintainer text such as `Jane Doe <jane@example.org>` into
/// name and address.
pub fn parse_maintainer(maintainer_str: &str) -> (r: (String, String))
    ensures
        r.0@ == maintainer_of(maintainer_str@).name,
        r.1@ == maintainer_of(maintainer_str@).email,
{
    let s = chars_of(maintainer_str);
    assert(s@.subrange(0, s.len() as int) == s@);
    proof {
        lemma_index_of(s@, '<');
    }
    match position(&s, '<', 0, s.len()) {
        Some(lt) => {
            let ghost tail = s@.skip(lt + 1);
            assert(tail == s@.subrange(lt + 1, s.len() as int));
            proof {
                lemma_index_of(tail, '>');
            }
            match position(&s, '>', lt + 1, s.len()) {
                Some(gt) => {
                    assert(s@.take(lt as int) == s@.subrange(0, lt as int));
                    assert(tail.take(gt - (lt + 1)) == s@.subrange(lt + 1, gt as int));
                    let (a, b) = trim_bounds(&s, 0, lt);
                    let (c, d) = trim_bounds(&s, lt + 1, gt);
                    (string_of(&slice_of(&s, a, b)), string_of(&slice_of(&s, c, d)))
                },
                None => (string_of(&s), String::new()),
            }
        },
        None => (string_of(&s), String::new()),
    }
}

/// The prefix of the line that names the file of a package.
pub open spec fn filename_key() -> Seq<char> {
    seq!['F', 'i', 'l', 'e', 'n', 'a', 'm', 'e', ':']
}

/// The trimmed remainder of the first line that begins with `Filename:`,
/// or nothing where no line does.
pub open spec fn filename_in(ls: Seq<Seq<char>>) -> Seq<char>
    decreases ls.len(),
{
    if ls.len() == 0 {
        Seq::empty()
    } else if begins_with(ls[0], filename_key()) {
        trim(ls[0].skip(filename_key().len() as int))
    } else {
        filename_in(ls.drop_first())
    }
}

/// The file name that a control paragraph gives in its `Filename:` line.
pub fn get_filename(control_content: &str) -> (r: String)
    ensures
        r@ == filename_in(lines(control_content@)),
{
    let text = chars_of(control_content);
    let ls = lines_of(&text);
    let mut key: Vec<char> = Vec::new();
    extend(&mut key, &chars_of("Filename:"));
    proof {
        reveal_strlit("Filename:");
        assert(key@ =~= filename_key());
    }
    let mut i: usize = 0;
    assert(views(ls@).skip(0) == views(ls@));
    while i < ls.len()
        invariant
            i <= ls.len(),
            key@ == filename_key(),
            views(ls@) == lines(control_content@),
            filename_in(views(ls@)) == filename_in(views(ls@).skip(i as int)),
        decreases ls.len() - i,
    {
        let line = &ls[i];
        proof {
            let rest = views(ls@).skip(i as int);
            assert(rest[0] == line@);
            assert(rest.drop_first() == views(ls@).skip(i + 1));
        }
        if starts_with(line, &key) {
            assert(line@.skip(9) == line@.subrange(9, line.len() as int));
            let (a, b) = trim_bounds(line, 9, line.len());
            return string_of(&slice_of(line, a, b));
        }
        i = i + 1;
    }
    String::new()
}

} // verus!
