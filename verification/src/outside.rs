//! The calls that leave the crate: decompression, the decoding of bytes into
//! text, and a second reader of control text. Verus takes the contracts of
//! the three wrappers on trust; what is built on them here is verified like
//! the rest.

use crate::control::{Field, FieldView, Paragraph};
use std::io::Read;
use vstd::prelude::*;
use vstd::std_specs::iter::IteratorSpec;
use vstd::utf8::{decode_utf8, encode_utf8, valid_utf8};

verus! {

/// What `flate2::read::GzDecoder` reads from a gzip stream: the bytes of
/// its first member, or nothing where the stream is refused.
pub uninterp spec fn gunzipped(bytes: Seq<u8>) -> Option<Seq<u8>>;

/// Runs `flate2::read::GzDecoder` over `bytes` and reads it to the end.
/// The contract names the outcome and claims only that it depends on the
/// bytes alone.
#[verifier::external_body]
pub(crate) fn gunzip(bytes: &Vec<u8>) -> (r: Option<Vec<u8>>)
    ensures
        match r {
            Some(out) => gunzipped(bytes@) == Some(out@),
            None => gunzipped(bytes@) is None,
        },
{
    let mut out: Vec<u8> = Vec::new();
    match flate2::read::GzDecoder::new(bytes.as_slice()).read_to_end(&mut out) {
        Ok(_) => Some(out),
        Err(_) => None,
    }
}

/// `std::str::from_utf8`: the text that `bytes` encode, where they are
/// valid UTF-8, and nothing where they are not.
#[verifier::external_body]
pub(crate) fn utf8_text(bytes: &Vec<u8>) -> (r: Option<String>)
    ensures
        r is Some <==> valid_utf8(bytes@),
        r matches Some(s) ==> s@ == decode_utf8(bytes@),
{
    match std::str::from_utf8(bytes.as_slice()) {
        Ok(s) => Some(s.to_string()),
        Err(_) => None,
    }
}

/// What `deb822_lossless::Deb822` makes of a text: for each paragraph its
/// fields as pairs of key and value, or nothing where it reports a syntax
/// error.
pub uninterp spec fn deb822_items(text: Seq<char>) -> Option<Seq<Seq<(Seq<char>, Seq<char>)>>>;

/// The view of the pairs of one paragraph.
pub open spec fn pairs_view(v: Seq<(String, String)>) -> Seq<(Seq<char>, Seq<char>)> {
    v.map_values(|kv: (String, String)| (kv.0@, kv.1@))
}

/// The view of the pairs of each paragraph.
pub open spec fn items_view(v: Seq<Vec<(String, String)>>) -> Seq<Seq<(Seq<char>, Seq<char>)>> {
    v.map_values(|p: Vec<(String, String)>| pairs_view(p@))
}

/// The longest text, in bytes, that `deb822_lossless` takes: it counts
/// positions in 32 bits and gives up on a text that is longer.
pub open spec fn deb822_limit() -> int {
    0xFFFF_FFFF
}

/// Parses `text` with `deb822_lossless::Deb822::from_str` and hands out
/// what `paragraphs()` and `items()` give. The contract names the outcome
/// and claims only that it depends on the text alone. The text must not be
/// longer than `deb822_limit()` bytes.
#[verifier::external_body]
pub(crate) fn read_deb822(text: &str) -> (r: Option<Vec<Vec<(String, String)>>>)
    requires
        encode_utf8(text@).len() <= deb822_limit(),
    ensures
        match r {
            Some(ps) => deb822_items(text@) == Some(items_view(ps@)),
            None => deb822_items(text@) is None,
        },
{
    match text.parse::<deb822_lossless::Deb822>() {
        Ok(doc) => Some(doc.paragraphs().map(|p| p.items().collect()).collect()),
        Err(_) => None,
    }
}

/// The pairs of a paragraph as fields.
pub open spec fn fields_of_items(items: Seq<(Seq<char>, Seq<char>)>) -> Seq<FieldView> {
    items.map_values(|kv: (Seq<char>, Seq<char>)| FieldView { key: kv.0, value: kv.1 })
}

/// The paragraphs that `deb822_lossless::Deb822` reads from a text; none
/// from a text that is longer than `deb822_limit()` bytes, which is not
/// handed to it.
pub open spec fn deb822_paragraphs(text: Seq<char>) -> Option<Seq<Seq<FieldView>>> {
    if encode_utf8(text).len() > deb822_limit() {
        None
    } else {
        match deb822_items(text) {
            Some(ps) => Some(ps.map_values(|p: Seq<(Seq<char>, Seq<char>)>| fields_of_items(p))),
            None => None,
        }
    }
}

fn paragraph_of(pairs: Vec<(String, String)>) -> (p: Paragraph)
    ensures
        p@ == fields_of_items(pairs_view(pairs@)),
{
    let ghost these = pairs_view(pairs@);
    let mut fields: Vec<Field> = Vec::new();
    for pair in it: pairs
        invariant
            it.seq() == pairs@,
            these == pairs_view(pairs@),
            crate::control::fields_view(fields@) == fields_of_items(
                these.take(it.index() as int),
            ),
    {
        let (key, value) = pair;
        let f = Field { key, value };
        proof {
            let n = it.index() as int;
            assert(these.take(n + 1) =~= these.take(n).push(these[n]));
            assert(fields_of_items(these.take(n).push(these[n])) =~= fields_of_items(
                these.take(n),
            ).push(f@));
            assert(crate::control::fields_view(fields@.push(f)) =~= crate::control::fields_view(
                fields@,
            ).push(f@));
        }
        fields.push(f);
    }
    assert(these.take(these.len() as int) == these);
    Paragraph { fields }
}

/// The paragraphs of `text` as `deb822_lossless` reads them; none where the
/// text is longer than `deb822_limit()` bytes.
pub fn deb822_read(text: &str) -> (r: Option<Vec<Paragraph>>)
    ensures
        match r {
            Some(ps) => deb822_paragraphs(text@) == Some(crate::control::paragraphs_view(ps@)),
            None => deb822_paragraphs(text@) is None,
        },
{
    let bytes = text.as_bytes();
    assert(bytes@ == encode_utf8(text@));
    if bytes.len() > 0xFFFF_FFFF {
        return None;
    }
    let raw = match read_deb822(text) {
        Some(raw) => raw,
        None => {
            return None;
        },
    };
    let ghost conv = |p: Seq<(Seq<char>, Seq<char>)>| fields_of_items(p);
    let ghost all = items_view(raw@);
    let mut out: Vec<Paragraph> = Vec::new();
    assert(crate::control::paragraphs_view(out@) =~= all.take(0).map_values(conv));
    for pairs in it: raw
        invariant
            it.seq() == raw@,
            all == items_view(raw@),
            conv == |p: Seq<(Seq<char>, Seq<char>)>| fields_of_items(p),
            crate::control::paragraphs_view(out@) == all.take(it.index() as int).map_values(conv),
    {
        let ghost these = pairs_view(pairs@);
        let p = paragraph_of(pairs);
        proof {
            let n = it.index() as int;
            assert(all.take(n + 1) =~= all.take(n).push(these));
            assert(all.take(n).push(these).map_values(conv) =~= all.take(n).map_values(conv).push(
                conv(these),
            ));
            assert(crate::control::paragraphs_view(out@.push(p)) =~= crate::control::paragraphs_view(
                out@,
            ).push(p@));
        }
        out.push(p);
    }
    assert(all.take(all.len() as int) == all);
    Some(out)
}

} // verus!
