//! Character-level text primitives shared by every parser of the crate.
//!
//! All contracts are stated over `Seq<char>`, the view of `str`, `String`
//! and `Vec<char>`.

use vstd::prelude::*;
use vstd::std_specs::iter::IteratorSpec;

verus! {

/// `String::push` appends exactly one character.
pub assume_specification[ String::push ](s: &mut String, c: char)
    ensures
        final(s)@ == old(s)@.push(c),
;

/// The characters of `s`, in order.
pub fn chars_of(s: &str) -> (out: Vec<char>)
    ensures
        out@ == s@,
{
    let mut out: Vec<char> = Vec::new();
    for c in it: s.chars()
        invariant
            out@ == it.seq().take(it.index() as int),
            it.seq() == s@,
    {
        out.push(c);
    }
    out
}

/// The string made of the characters of `chars`, in order.
pub fn string_of(chars: &Vec<char>) -> (out: String)
    ensures
        out@ == chars@,
{
    let mut out = String::new();
    let mut i: usize = 0;
    while i < chars.len()
        invariant
            i <= chars.len(),
            out@ == chars@.take(i as int),
        decreases chars.len() - i,
    {
        out.push(chars[i]);
        i = i + 1;
    }
    out
}

/// Unicode white space: the characters that trimming removes and that
/// separate words.
pub open spec fn is_space(c: char) -> bool {
    let n = c as u32;
    ||| 0x09 <= n <= 0x0D
    ||| n == 0x20
    ||| n == 0x85
    ||| n == 0xA0
    ||| n == 0x1680
    ||| 0x2000 <= n <= 0x200A
    ||| n == 0x2028
    ||| n == 0x2029
    ||| n == 0x202F
    ||| n == 0x205F
    ||| n == 0x3000
}

/// Whether `c` is white space.
pub fn is_whitespace(c: char) -> (b: bool)
    ensures
        b == is_space(c),
{
    let n: u32 = c as u32;
    (0x09 <= n && n <= 0x0D) || n == 0x20 || n == 0x85 || n == 0xA0 || n == 0x1680 || (0x2000 <= n
        && n <= 0x200A) || n == 0x2028 || n == 0x2029 || n == 0x202F || n == 0x205F || n == 0x3000
}

/// A class of characters that a scan may stop at or run over.
#[derive(Debug, Clone, Copy)]
pub enum CharClass {
    /// White space.
    Space,
    /// Anything but white space.
    Word,
    /// One given character.
    Is(char),
    /// Anything but one given character.
    Not(char),
}

impl CharClass {
    /// Whether `c` belongs to the class.
    pub open spec fn has(self, c: char) -> bool {
        match self {
            CharClass::Space => is_space(c),
            CharClass::Word => !is_space(c),
            CharClass::Is(x) => c == x,
            CharClass::Not(x) => c != x,
        }
    }

    /// The class as a predicate.
    pub open spec fn pred(self) -> spec_fn(char) -> bool {
        |c: char| self.has(c)
    }

    /// Whether `c` belongs to the class.
    pub fn holds(&self, c: char) -> (b: bool)
        ensures
            b == self.has(c),
    {
        match self {
            CharClass::Space => is_whitespace(c),
            CharClass::Word => !is_whitespace(c),
            CharClass::Is(x) => c == *x,
            CharClass::Not(x) => c != *x,
        }
    }
}

/// Number of leading characters of `s` that satisfy `drop`.
pub open spec fn lead(s: Seq<char>, drop: spec_fn(char) -> bool) -> nat
    decreases s.len(),
{
    if s.len() > 0 && drop(s[0]) {
        1 + lead(s.drop_first(), drop)
    } else {
        0
    }
}

/// Number of trailing characters of `s` that satisfy `drop`.
pub open spec fn trail(s: Seq<char>, drop: spec_fn(char) -> bool) -> nat
    decreases s.len(),
{
    if s.len() > 0 && drop(s.last()) {
        1 + trail(s.drop_last(), drop)
    } else {
        0
    }
}

/// `lead` is the only count with the properties that `lemma_lead` states.
pub proof fn lemma_lead_is(s: Seq<char>, drop: spec_fn(char) -> bool, n: int)
    requires
        0 <= n <= s.len(),
        forall|k: int| 0 <= k < n ==> drop(#[trigger] s[k]),
        n < s.len() ==> !drop(s[n]),
    ensures
        lead(s, drop) == n,
    decreases s.len(),
{
    if n > 0 {
        let t = s.drop_first();
        assert(drop(s[0]));
        assert forall|k: int| 0 <= k < n - 1 implies drop(#[trigger] t[k]) by {
            assert(t[k] == s[k + 1]);
        }
        lemma_lead_is(t, drop, n - 1);
    }
}

/// `trail` is the only count with the properties that `lemma_trail` states.
pub proof fn lemma_trail_is(s: Seq<char>, drop: spec_fn(char) -> bool, n: int)
    requires
        0 <= n <= s.len(),
        forall|k: int| s.len() - n <= k < s.len() ==> drop(#[trigger] s[k]),
        n < s.len() ==> !drop(s[s.len() - n - 1]),
    ensures
        trail(s, drop) == n,
    decreases s.len(),
{
    if n > 0 {
        let t = s.drop_last();
        assert(drop(s[s.len() - 1]));
        assert forall|k: int| t.len() - (n - 1) <= k < t.len() implies drop(#[trigger] t[k]) by {
            assert(t[k] == s[k]);
        }
        lemma_trail_is(t, drop, n - 1);
    }
}

/// `s` without its leading characters that satisfy `drop`.
pub open spec fn strip_start(s: Seq<char>, drop: spec_fn(char) -> bool) -> Seq<char> {
    s.skip(lead(s, drop) as int)
}

/// `s` without its trailing characters that satisfy `drop`.
pub open spec fn strip_end(s: Seq<char>, drop: spec_fn(char) -> bool) -> Seq<char> {
    s.take(s.len() - trail(s, drop))
}

/// `s` without the characters that satisfy `drop` at either end.
pub open spec fn strip(s: Seq<char>, drop: spec_fn(char) -> bool) -> Seq<char> {
    strip_end(strip_start(s, drop), drop)
}

/// `s` without white space at either end.
pub open spec fn trim(s: Seq<char>) -> Seq<char> {
    strip(s, CharClass::Space.pred())
}

/// The characters of `v` from `lo` up to, not including, `hi`.
pub(crate) fn slice_of(v: &Vec<char>, lo: usize, hi: usize) -> (out: Vec<char>)
    requires
        lo <= hi <= v.len(),
    ensures
        out@ == v@.subrange(lo as int, hi as int),
{
    let mut out: Vec<char> = Vec::new();
    let mut i: usize = lo;
    while i < hi
        invariant
            lo <= i <= hi <= v.len(),
            out@ == v@.subrange(lo as int, i as int),
        decreases hi - i,
    {
        out.push(v[i]);
        i = i + 1;
    }
    out
}

/// End of the run of `class` characters that begins `v[lo..hi]`.
pub(crate) fn lead_end(v: &Vec<char>, lo: usize, hi: usize, class: CharClass) -> (r: usize)
    requires
        lo <= hi <= v.len(),
    ensures
        lo <= r <= hi,
        r - lo == lead(v@.subrange(lo as int, hi as int), class.pred()),
        v@.subrange(r as int, hi as int) == strip_start(
            v@.subrange(lo as int, hi as int),
            class.pred(),
        ),
{
    let ghost s = v@.subrange(lo as int, hi as int);
    let mut a: usize = lo;
    while a < hi && class.holds(v[a])
        invariant
            lo <= a <= hi <= v.len(),
            forall|k: int| lo <= k < a ==> class.has(#[trigger] v@[k]),
        decreases hi - a,
    {
        a = a + 1;
    }
    proof {
        assert forall|k: int| 0 <= k < a - lo implies class.pred()(#[trigger] s[k]) by {
            assert(s[k] == v@[lo + k]);
        }
        lemma_lead_is(s, class.pred(), a - lo);
        assert(strip_start(s, class.pred()) == v@.subrange(a as int, hi as int));
    }
    a
}

/// Start of the run of `class` characters that ends `v[lo..hi]`.
pub(crate) fn trail_start(v: &Vec<char>, lo: usize, hi: usize, class: CharClass) -> (r: usize)
    requires
        lo <= hi <= v.len(),
    ensures
        lo <= r <= hi,
        hi - r == trail(v@.subrange(lo as int, hi as int), class.pred()),
        v@.subrange(lo as int, r as int) == strip_end(
            v@.subrange(lo as int, hi as int),
            class.pred(),
        ),
{
    let ghost s = v@.subrange(lo as int, hi as int);
    let mut b: usize = hi;
    while b > lo && class.holds(v[b - 1])
        invariant
            lo <= b <= hi <= v.len(),
            forall|k: int| b <= k < hi ==> class.has(#[trigger] v@[k]),
        decreases b - lo,
    {
        b = b - 1;
    }
    proof {
        assert forall|k: int| s.len() - (hi - b) <= k < s.len() implies class.pred()(
            #[trigger] s[k],
        ) by {
            assert(s[k] == v@[lo + k]);
        }
        lemma_trail_is(s, class.pred(), hi - b);
        assert(strip_end(s, class.pred()) == v@.subrange(lo as int, b as int));
    }
    b
}

/// Bounds, inside `v[lo..hi]`, of what `strip` leaves of it.
pub(crate) fn strip_bounds(v: &Vec<char>, lo: usize, hi: usize, class: CharClass) -> (r: (usize, usize))
    requires
        lo <= hi <= v.len(),
    ensures
        lo <= r.0 <= r.1 <= hi,
        v@.subrange(r.0 as int, r.1 as int) == strip(
            v@.subrange(lo as int, hi as int),
            class.pred(),
        ),
{
    let a = lead_end(v, lo, hi, class);
    let b = trail_start(v, a, hi, class);
    (a, b)
}

/// Bounds of `trim` inside `v[lo..hi]`.
pub(crate) fn trim_bounds(v: &Vec<char>, lo: usize, hi: usize) -> (r: (usize, usize))
    requires
        lo <= hi <= v.len(),
    ensures
        lo <= r.0 <= r.1 <= hi,
        v@.subrange(r.0 as int, r.1 as int) == trim(v@.subrange(lo as int, hi as int)),
{
    strip_bounds(v, lo, hi, CharClass::Space)
}

/// A copy of `v` without white space at either end.
pub fn trimmed(v: &Vec<char>) -> (out: Vec<char>)
    ensures
        out@ == trim(v@),
{
    let (a, b) = trim_bounds(v, 0, v.len());
    assert(v@.subrange(0, v.len() as int) == v@);
    slice_of(v, a, b)
}

/// Whether `a` and `b` hold the same characters.
pub fn same(a: &Vec<char>, b: &Vec<char>) -> (r: bool)
    ensures
        r == (a@ == b@),
{
    if a.len() != b.len() {
        return false;
    }
    let mut i: usize = 0;
    while i < a.len()
        invariant
            i <= a.len(),
            a.len() == b.len(),
            a@.take(i as int) == b@.take(i as int),
        decreases a.len() - i,
    {
        if a[i] != b[i] {
            return false;
        }
        assert(a@.take(i + 1) == a@.take(i as int).push(a@[i as int]));
        assert(b@.take(i + 1) == b@.take(i as int).push(b@[i as int]));
        i = i + 1;
    }
    assert(a@.take(a.len() as int) == a@);
    assert(b@.take(b.len() as int) == b@);
    true
}

/// Whether `s` and `t` hold the same characters.
pub fn same_str(s: &str, t: &str) -> (r: bool)
    ensures
        r == (s@ == t@),
{
    let a = chars_of(s);
    let b = chars_of(t);
    same(&a, &b)
}

/// Whether `p` occurs in `s` at position `at`.
pub open spec fn occurs_at(s: Seq<char>, p: Seq<char>, at: int) -> bool {
    0 <= at && at + p.len() <= s.len() && s.subrange(at, at + p.len()) == p
}

/// Whether `s` begins with `p`.
pub open spec fn begins_with(s: Seq<char>, p: Seq<char>) -> bool {
    occurs_at(s, p, 0)
}

/// Whether `p` occurs in `v` at position `at`.
pub fn matches_at(v: &Vec<char>, p: &Vec<char>, at: usize) -> (r: bool)
    ensures
        r == occurs_at(v@, p@, at as int),
{
    if at > v.len() || p.len() > v.len() - at {
        return false;
    }
    let mut i: usize = 0;
    while i < p.len()
        invariant
            i <= p.len(),
            at + p.len() <= v.len(),
            v@.subrange(at as int, at + i) == p@.take(i as int),
        decreases p.len() - i,
    {
        if v[at + i] != p[i] {
            assert(v@.subrange(at as int, at + p.len())[i as int] != p@[i as int]);
            return false;
        }
        assert(v@.subrange(at as int, at + i + 1) == v@.subrange(at as int, at + i).push(
            v@[at + i],
        ));
        assert(p@.take(i + 1) == p@.take(i as int).push(p@[i as int]));
        i = i + 1;
    }
    assert(p@.take(p.len() as int) == p@);
    true
}

/// Whether `v` begins with `p`.
pub fn starts_with(v: &Vec<char>, p: &Vec<char>) -> (r: bool)
    ensures
        r == begins_with(v@, p@),
{
    matches_at(v, p, 0)
}

/// Position of the first occurrence of `p` in `s` at or after `from`, or
/// `s.len()` when there is none.
pub open spec fn find_from(s: Seq<char>, p: Seq<char>, from: int) -> int
    decreases s.len() - from,
{
    if from < 0 || from >= s.len() {
        s.len() as int
    } else if occurs_at(s, p, from) {
        from
    } else {
        find_from(s, p, from + 1)
    }
}

/// `find_from` is a position at which `p` occurs, and no position between
/// `from` and it is one.
pub proof fn lemma_find_from(s: Seq<char>, p: Seq<char>, from: int)
    requires
        0 <= from,
    ensures
        from <= find_from(s, p, from) || find_from(s, p, from) == s.len(),
        find_from(s, p, from) <= s.len(),
        find_from(s, p, from) < s.len() ==> occurs_at(s, p, find_from(s, p, from)),
        forall|k: int| from <= k < find_from(s, p, from) ==> !occurs_at(s, p, k),
    decreases s.len() - from,
{
    if from < s.len() && !occurs_at(s, p, from) {
        lemma_find_from(s, p, from + 1);
    }
}

/// `find_from` is the first position that matches.
pub proof fn lemma_find_from_is(s: Seq<char>, p: Seq<char>, from: int, at: int)
    requires
        0 <= from <= at <= s.len(),
        forall|k: int| from <= k < at ==> !occurs_at(s, p, k),
        at < s.len() ==> occurs_at(s, p, at),
    ensures
        find_from(s, p, from) == at,
    decreases at - from,
{
    if from < at {
        lemma_find_from_is(s, p, from + 1, at);
    }
}

/// First position of `p` in `v` at or after `from`.
pub fn find(v: &Vec<char>, p: &Vec<char>, from: usize) -> (r: Option<usize>)
    ensures
        match r {
            Some(at) => at < v.len() && at == find_from(v@, p@, from as int),
            None => find_from(v@, p@, from as int) == v.len(),
        },
{
    let mut i: usize = from;
    if i >= v.len() {
        return None;
    }
    while i < v.len()
        invariant
            from <= i <= v.len(),
            forall|k: int| from <= k < i ==> !occurs_at(v@, p@, k),
        decreases v.len() - i,
    {
        if matches_at(v, p, i) {
            proof {
                lemma_find_from_is(v@, p@, from as int, i as int);
            }
            return Some(i);
        }
        i = i + 1;
    }
    proof {
        lemma_find_from_is(v@, p@, from as int, v.len() as int);
    }
    None
}

/// Position of the first `c` in `s`, or `s.len()` when there is none.
pub open spec fn index_of(s: Seq<char>, c: char) -> int {
    find_from(s, seq![c], 0)
}

/// `index_of` is a position that holds `c`, and no position before it does.
pub proof fn lemma_index_of(s: Seq<char>, c: char)
    ensures
        0 <= index_of(s, c) <= s.len(),
        index_of(s, c) < s.len() ==> s[index_of(s, c)] == c,
        forall|k: int| 0 <= k < index_of(s, c) ==> #[trigger] s[k] != c,
{
    let p = seq![c];
    lemma_find_from(s, p, 0);
    let at = index_of(s, c);
    if at < s.len() {
        assert(s.subrange(at, at + 1)[0] == c);
    }
    assert forall|k: int| 0 <= k < at implies #[trigger] s[k] != c by {
        if s[k] == c {
            assert(s.subrange(k, k + 1) =~= p);
            assert(occurs_at(s, p, k));
        }
    }
}

/// `index_of` is the first position that holds `c`.
pub proof fn lemma_index_of_is(s: Seq<char>, c: char, at: int)
    requires
        0 <= at <= s.len(),
        forall|k: int| 0 <= k < at ==> #[trigger] s[k] != c,
        at < s.len() ==> s[at] == c,
    ensures
        index_of(s, c) == at,
{
    let p = seq![c];
    assert forall|k: int| 0 <= k < at implies !occurs_at(s, p, k) by {
        if occurs_at(s, p, k) {
            assert(s.subrange(k, k + 1)[0] == s[k]);
        }
    }
    if at < s.len() {
        assert(s.subrange(at, at + 1) == p);
    }
    lemma_find_from_is(s, p, 0, at);
}

/// First position of `c` in `v[lo..hi]`, counted from the start of `v`.
pub(crate) fn position(v: &Vec<char>, c: char, lo: usize, hi: usize) -> (r: Option<usize>)
    requires
        lo <= hi <= v.len(),
    ensures
        match r {
            Some(at) => lo <= at < hi && at - lo == index_of(
                v@.subrange(lo as int, hi as int),
                c,
            ),
            None => index_of(v@.subrange(lo as int, hi as int), c) == hi - lo,
        },
{
    let ghost s = v@.subrange(lo as int, hi as int);
    let mut i: usize = lo;
    while i < hi
        invariant
            lo <= i <= hi <= v.len(),
            s == v@.subrange(lo as int, hi as int),
            forall|k: int| 0 <= k < i - lo ==> #[trigger] s[k] != c,
        decreases hi - i,
    {
        if v[i] == c {
            proof {
                lemma_index_of_is(s, c, i - lo);
            }
            return Some(i);
        }
        i = i + 1;
    }
    proof {
        lemma_index_of_is(s, c, hi - lo);
    }
    None
}

/// The pieces of `s` between occurrences of `sep`. A text without `sep` is
/// one piece; there is always at least one piece.
pub open spec fn split(s: Seq<char>, sep: char) -> Seq<Seq<char>>
    decreases s.len(),
{
    let at = index_of(s, sep);
    if 0 <= at < s.len() {
        seq![s.take(at)] + split(s.skip(at + 1), sep)
    } else {
        seq![s]
    }
}

/// The view of each element.
pub open spec fn views(v: Seq<Vec<char>>) -> Seq<Seq<char>> {
    v.map_values(|x: Vec<char>| x@)
}

/// The view of each element.
pub open spec fn str_views(v: Seq<String>) -> Seq<Seq<char>> {
    v.map_values(|x: String| x@)
}

/// The pieces of `v` between occurrences of `sep`.
pub fn split_on(v: &Vec<char>, sep: char) -> (out: Vec<Vec<char>>)
    ensures
        views(out@) == split(v@, sep),
        out.len() >= 1,
{
    let mut out: Vec<Vec<char>> = Vec::new();
    let mut start: usize = 0;
    proof {
        assert(v@.skip(0) == v@);
        assert(views(out@) + split(v@, sep) == split(v@, sep));
    }
    loop
        invariant
            start <= v.len(),
            split(v@, sep) == views(out@) + split(v@.skip(start as int), sep),
        decreases v.len() - start,
    {
        let ghost rest = v@.skip(start as int);
        assert(rest == v@.subrange(start as int, v.len() as int));
        let found = position(v, sep, start, v.len());
        proof {
            lemma_index_of(rest, sep);
        }
        match found {
            Some(at) => {
                let piece = slice_of(v, start, at);
                proof {
                    assert(piece@ == rest.take(at - start));
                    assert(rest.skip(at - start + 1) == v@.skip(at + 1));
                    assert(views(out@.push(piece)) == views(out@) + seq![piece@]);
                }
                out.push(piece);
                start = at + 1;
            },
            None => {
                let piece = slice_of(v, start, v.len());
                proof {
                    assert(piece@ == rest);
                    assert(views(out@.push(piece)) == views(out@) + seq![piece@]);
                }
                out.push(piece);
                return out;
            },
        }
    }
}

/// `s` without one carriage return at its end, if it has one.
pub open spec fn chomp(s: Seq<char>) -> Seq<char> {
    if s.len() > 0 && s.last() == '\r' {
        s.drop_last()
    } else {
        s
    }
}

/// The lines of a text. A line ends at a line feed, and a carriage return
/// just before that line feed belongs to the line ending. What follows the
/// last line feed is a line only if it is not empty.
pub open spec fn lines(s: Seq<char>) -> Seq<Seq<char>> {
    let pieces = split(s, '\n');
    let ended = pieces.drop_last().map_values(|l: Seq<char>| chomp(l));
    if pieces.last().len() == 0 {
        ended
    } else {
        ended.push(pieces.last())
    }
}

/// The lines of `v`.
pub fn lines_of(v: &Vec<char>) -> (out: Vec<Vec<char>>)
    ensures
        views(out@) == lines(v@),
{
    let mut pieces = split_on(v, '\n');
    let ghost all = pieces@;
    let last = pieces.pop().unwrap();
    assert(pieces@ == all.drop_last());
    assert(views(all).drop_last() == views(pieces@));
    assert(views(all).last() == last@);
    let mut out: Vec<Vec<char>> = Vec::new();
    let mut i: usize = 0;
    while i < pieces.len()
        invariant
            i <= pieces.len(),
            views(out@) == views(pieces@).take(i as int).map_values(|l: Seq<char>| chomp(l)),
        decreases pieces.len() - i,
    {
        let piece = &pieces[i];
        let n = piece.len();
        let line = if n > 0 && piece[n - 1] == '\r' {
            slice_of(piece, 0, n - 1)
        } else {
            slice_of(piece, 0, n)
        };
        proof {
            assert(piece@.subrange(0, n as int) == piece@);
            assert(line@ == chomp(piece@));
            assert(views(pieces@).take(i + 1) == views(pieces@).take(i as int).push(piece@));
            assert(views(out@.push(line)) == views(out@).push(line@));
        }
        out.push(line);
        i = i + 1;
    }
    assert(views(pieces@).take(pieces.len() as int) == views(pieces@));
    if last.len() > 0 {
        assert(views(out@.push(last)) == views(out@).push(last@));
        out.push(last);
    }
    out
}

/// Whether a line holds nothing but white space.
pub open spec fn is_blank(s: Seq<char>) -> bool {
    trim(s).len() == 0
}

/// Whether `v` holds nothing but white space.
pub fn blank(v: &Vec<char>) -> (r: bool)
    ensures
        r == is_blank(v@),
{
    let (a, b) = trim_bounds(v, 0, v.len());
    assert(v@.subrange(0, v.len() as int) == v@);
    a == b
}

/// Appends the characters of `tail` to `out`.
pub fn extend(out: &mut Vec<char>, tail: &Vec<char>)
    ensures
        final(out)@ == old(out)@ + tail@,
{
    let mut i: usize = 0;
    while i < tail.len()
        invariant
            i <= tail.len(),
            out@ == old(out)@ + tail@.take(i as int),
        decreases tail.len() - i,
    {
        out.push(tail[i]);
        assert(tail@.take(i + 1) == tail@.take(i as int).push(tail@[i as int]));
        i = i + 1;
    }
    assert(tail@.take(tail.len() as int) == tail@);
}

/// Appends the characters of `tail` to `out`.
pub fn extend_str(out: &mut Vec<char>, tail: &str)
    ensures
        final(out)@ == old(out)@ + tail@,
{
    let t = chars_of(tail);
    extend(out, &t);
}

/// Whether every character of `s` is white space.
pub open spec fn all_space(s: Seq<char>) -> bool {
    forall|i: int| 0 <= i < s.len() ==> is_space(#[trigger] s[i])
}

/// Trimming removes white space around a text that neither begins nor ends
/// with white space, and nothing else.
pub proof fn lemma_trim_padded(pre: Seq<char>, s: Seq<char>, post: Seq<char>)
    requires
        all_space(pre),
        all_space(post),
        s.len() > 0 ==> !is_space(s[0]) && !is_space(s.last()),
    ensures
        trim(pre + s + post) == s,
{
    let space = CharClass::Space.pred();
    let whole = pre + s + post;
    if s.len() > 0 {
        assert forall|k: int| 0 <= k < pre.len() implies space(#[trigger] whole[k]) by {
            assert(whole[k] == pre[k]);
        }
        assert(whole[pre.len() as int] == s[0]);
        lemma_lead_is(whole, space, pre.len() as int);
        let t = strip_start(whole, space);
        assert(t =~= s + post);
        assert forall|k: int| t.len() - post.len() <= k < t.len() implies space(
            #[trigger] t[k],
        ) by {
            assert(t[k] == post[k - s.len()]);
        }
        assert(t[t.len() - post.len() - 1] == s.last());
        lemma_trail_is(t, space, post.len() as int);
        assert(strip_end(t, space) =~= s);
    } else {
        assert forall|k: int| 0 <= k < whole.len() implies space(#[trigger] whole[k]) by {
            if k < pre.len() {
                assert(whole[k] == pre[k]);
            } else {
                assert(whole[k] == post[k - pre.len()]);
            }
        }
        lemma_lead_is(whole, space, whole.len() as int);
        let t = strip_start(whole, space);
        assert(t =~= Seq::<char>::empty());
        assert(strip_end(t, space) =~= s);
    }
}

/// A text that neither begins nor ends with white space is its own trim.
pub proof fn lemma_trim_clean(s: Seq<char>)
    requires
        s.len() > 0 ==> !is_space(s[0]) && !is_space(s.last()),
    ensures
        trim(s) == s,
{
    let e = Seq::<char>::empty();
    assert(e + s + e =~= s);
    lemma_trim_padded(e, s, e);
}

} // verus!
