//! Locations of remote resources: a protocol, a domain and an absolute path.

use crate::text::{chars_of, find, find_from, index_of, lemma_find_from, lemma_index_of, position,
    slice_of, string_of};
use vstd::prelude::*;

verus! {

/// A parsed URL. The path always begins with `/`.
#[derive(Debug, Clone)]
pub struct URL {
    protocol: String,
    domain: String,
    path: String,
}

/// What a URL holds, as plain sequences of characters.
pub struct UrlView {
    pub protocol: Seq<char>,
    pub domain: Seq<char>,
    pub path: Seq<char>,
}

/// The separator between protocol and domain.
pub open spec fn scheme_mark() -> Seq<char> {
    seq![':', '/', '/']
}

/// Joining of paths: an absolute `p` replaces `base`; a relative one is
/// appended to it, after a `/` unless `base` is empty or ends with one.
pub open spec fn path_join(base: Seq<char>, p: Seq<char>) -> Seq<char> {
    if p.len() > 0 && p[0] == '/' {
        p
    } else if base.len() == 0 || base.last() == '/' {
        base + p
    } else {
        base + seq!['/'] + p
    }
}

/// The URL that `URL::new` makes of its three arguments.
pub open spec fn url_of(protocol: Seq<char>, domain: Seq<char>, path: Seq<char>) -> UrlView {
    UrlView { protocol, domain, path: path_join(seq!['/'], path) }
}

/// The URL with `path` resolved against the path of `u`.
pub open spec fn joined(u: UrlView, path: Seq<char>) -> UrlView {
    UrlView {
        protocol: u.protocol,
        domain: u.domain,
        path: path_join(seq!['/'], path_join(u.path, path)),
    }
}

/// The text of a URL: protocol, `://`, domain, then the path.
pub open spec fn render(u: UrlView) -> Seq<char> {
    u.protocol + scheme_mark() + u.domain + u.path
}

/// What a text means as a URL. It must hold `://` exactly once; the domain
/// runs up to the first `/` after it, and what follows that `/` is the path.
pub open spec fn parse_url(s: Seq<char>) -> Option<UrlView> {
    let at = find_from(s, scheme_mark(), 0);
    if at >= s.len() {
        None
    } else if find_from(s, scheme_mark(), at + 3) < s.len() {
        None
    } else {
        let rest = s.skip(at + 3);
        let slash = index_of(rest, '/');
        let path = if slash < rest.len() {
            rest.skip(slash + 1)
        } else {
            Seq::empty()
        };
        Some(url_of(s.take(at), rest.take(slash), path))
    }
}

/// The message of the one error that parsing a URL gives.
pub open spec fn malformed_url() -> Seq<char> {
    "Invalid URL format: missing protocol or malformed"@
}

fn join_path(base: &Vec<char>, p: &Vec<char>) -> (out: Vec<char>)
    ensures
        out@ == path_join(base@, p@),
{
    if p.len() > 0 && p[0] == '/' {
        return slice_of(p, 0, p.len());
    }
    let mut out = slice_of(base, 0, base.len());
    if !(base.len() == 0 || base[base.len() - 1] == '/') {
        out.push('/');
    }
    let mut i: usize = 0;
    while i < p.len()
        invariant
            i <= p.len(),
            out@ == if base@.len() == 0 || base@.last() == '/' {
                base@ + p@.take(i as int)
            } else {
                base@ + seq!['/'] + p@.take(i as int)
            },
        decreases p.len() - i,
    {
        out.push(p[i]);
        assert(p@.take(i + 1) == p@.take(i as int).push(p@[i as int]));
        i = i + 1;
    }
    assert(p@.take(p.len() as int) == p@);
    out
}

impl View for URL {
    type V = UrlView;

    closed spec fn view(&self) -> UrlView {
        UrlView { protocol: self.protocol@, domain: self.domain@, path: self.path@ }
    }
}

impl URL {
    /// Every URL that this module hands out has an absolute path.
    pub open spec fn wf(&self) -> bool {
        self@.path.len() > 0 && self@.path[0] == '/'
    }

    /// A URL of the given parts; a relative `path` is made absolute.
    pub fn new(protocol: &str, domain: &str, path: &str) -> (u: URL)
        ensures
            u@ == url_of(protocol@, domain@, path@),
            u.wf(),
    {
        let mut root: Vec<char> = Vec::new();
        root.push('/');
        let p = chars_of(path);
        let joined = join_path(&root, &p);
        assert(root@ == seq!['/']);
        URL {
            protocol: string_of(&chars_of(protocol)),
            domain: string_of(&chars_of(domain)),
            path: string_of(&joined),
        }
    }

    /// The URL with `path` resolved against this one's path: an absolute
    /// `path` replaces it, a relative one is appended to it.
    pub fn join_path(&self, path: &str) -> (r: URL)
        ensures
            r@ == joined(self@, path@),
            r.wf(),
    {
        let base = chars_of(self.path.as_str());
        let p = chars_of(path);
        let joined = join_path(&base, &p);
        let s = string_of(&joined);
        URL::new(self.protocol.as_str(), self.domain.as_str(), s.as_str())
    }

    /// The URL with `path` resolved against this one's path. It never
    /// fails.
    pub fn join(self, path: &str) -> (r: Result<URL, UrlError>)
        ensures
            r is Ok,
            r->Ok_0@ == joined(self@, path@),
            r->Ok_0.wf(),
    {
        Ok(self.join_path(path))
    }

    /// Parses a text of the form `protocol://domain/path`.
    pub fn parse(url_str: &str) -> (r: Result<URL, &'static str>)
        ensures
            match r {
                Ok(u) => parse_url(url_str@) == Some(u@) && u.wf(),
                Err(msg) => parse_url(url_str@) is None && msg@ == malformed_url(),
            },
    {
        let s = chars_of(url_str);
        let mut mark: Vec<char> = Vec::new();
        mark.push(':');
        mark.push('/');
        mark.push('/');
        assert(mark@ == scheme_mark());
        let at = match find(&s, &mark, 0) {
            Some(at) => at,
            None => {
                return Err("Invalid URL format: missing protocol or malformed");
            },
        };
        proof {
            lemma_find_from(s@, mark@, 0);
        }
        if find(&s, &mark, at + 3).is_some() {
            return Err("Invalid URL format: missing protocol or malformed");
        }
        let protocol = slice_of(&s, 0, at);
        let ghost rest = s@.skip(at + 3);
        assert(rest == s@.subrange(at + 3, s.len() as int));
        proof {
            lemma_index_of(rest, '/');
        }
        let (domain, path) = match position(&s, '/', at + 3, s.len()) {
            Some(slash) => {
                let d = slice_of(&s, at + 3, slash);
                let p = slice_of(&s, slash + 1, s.len());
                assert(d@ == rest.take(slash - (at + 3)));
                assert(p@ == rest.skip(slash - (at + 3) + 1));
                (d, p)
            },
            None => {
                let d = slice_of(&s, at + 3, s.len());
                assert(d@ == rest.take(rest.len() as int));
                (d, Vec::new())
            },
        };
        assert(protocol@ == s@.take(at as int));
        let ps = string_of(&protocol);
        let ds = string_of(&domain);
        let pa = string_of(&path);
        Ok(URL::new(ps.as_str(), ds.as_str(), pa.as_str()))
    }

    /// A copy of this URL.
    pub fn clone_url(&self) -> (u: URL)
        ensures
            u@ == self@,
    {
        URL {
            protocol: self.protocol.clone(),
            domain: self.domain.clone(),
            path: self.path.clone(),
        }
    }

    /// The protocol, such as `https`.
    pub fn protocol(&self) -> (r: &str)
        ensures
            r@ == self@.protocol,
    {
        self.protocol.as_str()
    }

    /// The domain, with its port where one was given.
    pub fn domain(&self) -> (r: &str)
        ensures
            r@ == self@.domain,
    {
        self.domain.as_str()
    }

    /// The absolute path.
    pub fn path(&self) -> (r: &str)
        ensures
            r@ == self@.path,
    {
        self.path.as_str()
    }

    /// The text of the URL.
    pub fn to_string(&self) -> (r: String)
        ensures
            r@ == render(self@),
    {
        let mut out = chars_of(self.protocol.as_str());
        out.push(':');
        out.push('/');
        out.push('/');
        let d = chars_of(self.domain.as_str());
        let p = chars_of(self.path.as_str());
        let mut i: usize = 0;
        while i < d.len()
            invariant
                i <= d.len(),
                out@ == self.protocol@ + scheme_mark() + d@.take(i as int),
            decreases d.len() - i,
        {
            out.push(d[i]);
            assert(d@.take(i + 1) == d@.take(i as int).push(d@[i as int]));
            i = i + 1;
        }
        assert(d@.take(d.len() as int) == d@);
        let mut j: usize = 0;
        while j < p.len()
            invariant
                j <= p.len(),
                out@ == self.protocol@ + scheme_mark() + d@ + p@.take(j as int),
            decreases p.len() - j,
        {
            out.push(p[j]);
            assert(p@.take(j + 1) == p@.take(j as int).push(p@[j as int]));
            j = j + 1;
        }
        assert(p@.take(p.len() as int) == p@);
        string_of(&out)
    }
}

impl std::str::FromStr for URL {
    type Err = &'static str;

    /// Parses a text of the form `protocol://domain/path`, as `URL::parse`
    /// does.
    fn from_str(s: &str) -> (r: Result<Self, Self::Err>)
        ensures
            match r {
                Ok(u) => parse_url(s@) == Some(u@) && u.wf(),
                Err(msg) => parse_url(s@) is None && msg@ == malformed_url(),
            },
    {
        URL::parse(s)
    }
}

/// Why a URL could not be made.
#[derive(Debug, Clone, Copy, PartialEq, Eq)]
pub enum UrlError {
    /// The text does not hold `://` exactly once.
    Malformed,
}

/// Conversion of a text into a `URL`.
pub trait ToURL {
    spec fn text(&self) -> Seq<char>;

    fn to_url(&self) -> (r: Result<URL, &'static str>)
        ensures
            match r {
                Ok(u) => parse_url(self.text()) == Some(u@) && u.wf(),
                Err(msg) => parse_url(self.text()) is None && msg@ == malformed_url(),
            },
    ;
}

impl ToURL for String {
    open spec fn text(&self) -> Seq<char> {
        self@
    }

    fn to_url(&self) -> (r: Result<URL, &'static str>) {
        URL::parse(self.as_str())
    }
}

impl ToURL for &str {
    open spec fn text(&self) -> Seq<char> {
        self@
    }

    fn to_url(&self) -> (r: Result<URL, &'static str>) {
        URL::parse(self)
    }
}

} // verus!
