//! Reading package URLs.

use vstd::prelude::*;
use vstd::slice::slice_subrange;
use vstd::utf8::{encode_utf8, valid_utf8};
use crate::identity::path::{clean_path, cleaned};
use crate::identity::percent::{decoded, percent_decode};
use crate::identity::purl::{qualifiers_bytes, InvalidIdentity, Purl, PurlView};
use crate::text::{
    find_first, find_last, first_index, last_index, lemma_first_index, lemma_last_index,
    lower_bytes, same_bytes, string_from_utf8, to_lower_bytes,
};

verus! {

/// A text without the bytes `b` at its start.
pub open spec fn strip_front(s: Seq<u8>, b: u8) -> Seq<u8>
    decreases s.len(),
{
    if s.len() > 0 && s[0] == b {
        strip_front(s.drop_first(), b)
    } else {
        s
    }
}

/// A text without the bytes `b` at its end.
pub open spec fn strip_back(s: Seq<u8>, b: u8) -> Seq<u8>
    decreases s.len(),
{
    if s.len() > 0 && s.last() == b {
        strip_back(s.drop_last(), b)
    } else {
        s
    }
}

/// The text that `text` stands for, where it is well-formed UTF-8.
pub open spec fn decoded_text(text: Seq<u8>) -> Option<Seq<u8>> {
    match decoded(text) {
        Some(plain) => if valid_utf8(plain) {
            Some(plain)
        } else {
            None
        },
        None => None,
    }
}

/// The qualifier that `key=value` stands for: the key as it is, the value
/// decoded; a piece without an equals sign is a key without a value. There
/// is none where the key or the value is no text.
pub open spec fn qualifier_of(piece: Seq<u8>) -> Option<(Seq<u8>, Seq<u8>)> {
    let equals = first_index(piece, 0x3d);
    let key = piece.take(equals);
    let value = if equals < piece.len() {
        piece.skip(equals + 1)
    } else {
        Seq::empty()
    };
    match decoded_text(value) {
        Some(plain) => if valid_utf8(key) {
            Some((key, plain))
        } else {
            None
        },
        None => None,
    }
}

/// The qualifiers that a text of pieces `key=value` with ampersands between
/// them stands for, in the order of the pieces.
pub open spec fn qualifiers_of(text: Seq<u8>) -> Option<Seq<(Seq<u8>, Seq<u8>)>>
    decreases text.len(),
{
    if text.len() == 0 {
        Some(Seq::empty())
    } else {
        let cut = first_index(text, 0x26);
        let rest = if 0 <= cut < text.len() {
            text.skip(cut + 1)
        } else {
            Seq::empty()
        };
        match (qualifier_of(text.take(cut)), qualifiers_of(rest)) {
            (Some(first), Some(others)) => Some(seq![first] + others),
            _ => None,
        }
    }
}

/// The text before the last `b`, and the text behind it, if there is a `b`.
pub open spec fn split_last(s: Seq<u8>, b: u8) -> (Seq<u8>, Option<Seq<u8>>) {
    let at = last_index(s, b);
    if 0 <= at < s.len() {
        (s.take(at), Some(s.skip(at + 1)))
    } else {
        (s, None)
    }
}

/// The bytes of `pkg`.
pub open spec fn scheme() -> Seq<u8> {
    seq![0x70u8, 0x6b, 0x67]
}

/// What a package URL describes, before it is brought into canonical form.
///
/// What follows the last `#` is left out. What follows the last `?` of the
/// rest are the qualifiers. Of what is left, the text before the first `:`
/// is the scheme, which is `pkg` in letters of either case. Slashes at the
/// ends of what follows it do not count. The text before the first slash is
/// the type; behind it, what follows the last `@` is the version, what
/// follows the last slash before that is the name, and what stands before
/// that slash is the namespace. Namespace, name, version and the values of
/// the qualifiers are percent-encoded.
pub open spec fn described(text: Seq<u8>) -> Result<PurlView, InvalidIdentity> {
    let (body, _subpath) = split_last(text, 0x23);
    let (locator, qualifiers) = split_last(body, 0x3f);
    let colon = first_index(locator, 0x3a);
    if !(0 <= colon < locator.len()) || lower_bytes(locator.take(colon)) != scheme() {
        Err(InvalidIdentity::Scheme)
    } else {
        let path = strip_back(strip_front(locator.skip(colon + 1), 0x2f), 0x2f);
        let slash = first_index(path, 0x2f);
        if !(0 <= slash < path.len()) {
            Err(InvalidIdentity::Name)
        } else {
            let ty = path.take(slash);
            let (named, version) = split_last(path.skip(slash + 1), 0x40);
            let (namespace, name) = match split_last(named, 0x2f) {
                (before, Some(last)) => (before, last),
                (all, None) => (Seq::empty(), all),
            };
            let version = match version {
                Some(v) => decoded_text(v),
                None => Some(Seq::empty()),
            };
            let qualifiers = match qualifiers {
                Some(q) => qualifiers_of(q),
                None => Some(Seq::empty()),
            };
            match (decoded_text(clean_path(namespace)), decoded_text(name), version, qualifiers) {
                (Some(namespace), Some(name), Some(version), Some(qualifiers)) => if valid_utf8(
                    ty,
                ) {
                    Ok(
                        PurlView {
                            ty,
                            namespace: Some(namespace),
                            name,
                            version: Some(version),
                            qualifiers,
                        },
                    )
                } else {
                    Err(InvalidIdentity::Encoding)
                },
                _ => Err(InvalidIdentity::Encoding),
            }
        }
    }
}

/// What comes of reading a package URL: what it describes, where that is a
/// valid description, and else the first thing that is wrong.
pub open spec fn outcome(text: Seq<u8>) -> Result<PurlView, InvalidIdentity> {
    match described(text) {
        Ok(purl) => match purl.defect() {
            Some(error) => Err(error),
            None => Ok(purl),
        },
        Err(error) => Err(error),
    }
}

/// A text without the leading run of `b` is what is left behind that run.
proof fn lemma_strip_front(s: Seq<u8>, b: u8, run: int)
    requires
        0 <= run <= s.len(),
        forall|k: int| 0 <= k < run ==> s[k] == b,
        run < s.len() ==> s[run] != b,
    ensures
        strip_front(s, b) == s.skip(run),
    decreases s.len(),
{
    if run > 0 {
        let rest = s.drop_first();
        assert forall|k: int| 0 <= k < run - 1 implies rest[k] == b by {
            assert(rest[k] == s[k + 1]);
        }
        lemma_strip_front(rest, b, run - 1);
        assert(rest.skip(run - 1) == s.skip(run));
    } else {
        assert(s.skip(0) == s);
    }
}

/// A text without the trailing run of `b` is what stands before that run.
proof fn lemma_strip_back(s: Seq<u8>, b: u8, end: int)
    requires
        0 <= end <= s.len(),
        forall|k: int| end <= k < s.len() ==> s[k] == b,
        end > 0 ==> s[end - 1] != b,
    ensures
        strip_back(s, b) == s.take(end),
    decreases s.len(),
{
    if end < s.len() {
        let rest = s.drop_last();
        assert forall|k: int| end <= k < rest.len() implies rest[k] == b by {
            assert(rest[k] == s[k]);
        }
        lemma_strip_back(rest, b, end);
        assert(rest.take(end) == s.take(end));
    } else {
        assert(s.take(end) == s);
    }
}

/// Takes the bytes `b` off both ends of a text.
fn trim(s: &[u8], b: u8) -> (trimmed: &[u8])
    ensures
        trimmed@ == strip_back(strip_front(s@, b), b),
{
    let mut start: usize = 0;
    while start < s.len() && s[start] == b
        invariant
            start <= s.len(),
            forall|k: int| 0 <= k < start ==> s@[k] == b,
        decreases s.len() - start,
    {
        start += 1;
    }
    proof {
        lemma_strip_front(s@, b, start as int);
    }
    let front = slice_subrange(s, start, s.len());
    assert(front@ == s@.skip(start as int));
    let mut end: usize = front.len();
    while end > 0 && front[end - 1] == b
        invariant
            end <= front.len(),
            forall|k: int| end <= k < front.len() ==> front@[k] == b,
        decreases end,
    {
        end -= 1;
    }
    proof {
        lemma_strip_back(front@, b, end as int);
    }
    slice_subrange(front, 0, end)
}

/// Splits a text at its last `b`.
fn cut_last(s: &[u8], b: u8) -> (parts: (&[u8], Option<&[u8]>))
    ensures
        parts.0@ == split_last(s@, b).0,
        match parts.1 {
            Some(behind) => split_last(s@, b).1 == Some(behind@),
            None => split_last(s@, b).1 is None,
        },
{
    proof {
        lemma_last_index(s@, b);
    }
    match find_last(s, b) {
        Some(at) => {
            assert(at < s.len());
            assert(s@.subrange(0, at as int) == s@.take(at as int));
            assert(s@.subrange(at + 1, s.len() as int) == s@.skip(at + 1));
            (slice_subrange(s, 0, at), Some(slice_subrange(s, at + 1, s.len())))
        },
        None => (s, None),
    }
}

/// Decodes a percent-encoded text.
fn decode_text(text: &[u8]) -> (plain: Option<String>)
    ensures
        match plain {
            Some(t) => decoded_text(text@) == Some(encode_utf8(t@)),
            None => decoded_text(text@) is None,
        },
{
    match percent_decode(text) {
        Some(bytes) => string_from_utf8(bytes),
        None => None,
    }
}

/// Copies a text that is well-formed UTF-8.
fn plain_text(text: &[u8]) -> (plain: Option<String>)
    ensures
        match plain {
            Some(t) => valid_utf8(text@) && encode_utf8(t@) == text@,
            None => !valid_utf8(text@),
        },
{
    string_from_utf8(vstd::slice::slice_to_vec(text))
}

/// Reads one qualifier.
fn read_qualifier(piece: &[u8]) -> (qualifier: Option<(String, String)>)
    ensures
        match qualifier {
            Some(q) => qualifier_of(piece@) == Some((encode_utf8(q.0@), encode_utf8(q.1@))),
            None => qualifier_of(piece@) is None,
        },
{
    proof {
        lemma_first_index(piece@, 0x3d);
    }
    let equals = find_first(piece, 0x3d);
    let key = slice_subrange(piece, 0, equals);
    let value = if equals < piece.len() {
        slice_subrange(piece, equals + 1, piece.len())
    } else {
        slice_subrange(piece, 0, 0)
    };
    match decode_text(value) {
        Some(plain) => match plain_text(key) {
            Some(key) => Some((key, plain)),
            None => None,
        },
        None => None,
    }
}

/// Reads qualifiers.
fn read_qualifiers(text: &[u8]) -> (qualifiers: Option<Vec<(String, String)>>)
    ensures
        match qualifiers {
            Some(list) => qualifiers_of(text@) == Some(qualifiers_bytes(list@)),
            None => qualifiers_of(text@) is None,
        },
{
    let mut list: Vec<(String, String)> = Vec::new();
    let mut rest = text;
    assert(qualifiers_bytes(list@) + Seq::<(Seq<u8>, Seq<u8>)>::empty() =~= qualifiers_bytes(
        list@,
    ));
    while rest.len() > 0
        invariant
            qualifiers_of(text@) == match qualifiers_of(rest@) {
                Some(others) => Some(qualifiers_bytes(list@) + others),
                None => None,
            },
        decreases rest.len(),
    {
        proof {
            lemma_first_index(rest@, 0x26);
        }
        let cut = find_first(rest, 0x26);
        let piece = slice_subrange(rest, 0, cut);
        let behind = if cut < rest.len() {
            slice_subrange(rest, cut + 1, rest.len())
        } else {
            slice_subrange(rest, 0, 0)
        };
        let ghost before = qualifiers_bytes(list@);
        proof {
            assert(piece@ == rest@.take(cut as int));
            if cut < rest.len() {
                assert(behind@ == rest@.skip(cut + 1));
            } else {
                assert(behind@ == Seq::<u8>::empty());
            }
        }
        match read_qualifier(piece) {
            Some(qualifier) => {
                let ghost entry = (encode_utf8(qualifier.0@), encode_utf8(qualifier.1@));
                list.push(qualifier);
                proof {
                    assert(qualifiers_bytes(list@) == before.push(entry));
                    if qualifiers_of(behind@) is Some {
                        let others = qualifiers_of(behind@)->0;
                        assert(before + (seq![entry] + others) == before.push(entry) + others);
                    }
                }
            },
            None => {
                return None;
            },
        }
        rest = behind;
    }
    assert(qualifiers_bytes(list@) + Seq::<(Seq<u8>, Seq<u8>)>::empty() =~= qualifiers_bytes(
        list@,
    ));
    Some(list)
}

/// Reads what a package URL describes.
fn describe(text: &[u8]) -> (purl: Result<Purl, InvalidIdentity>)
    ensures
        match purl {
            Ok(p) => described(text@) == Ok::<PurlView, InvalidIdentity>(p@),
            Err(error) => described(text@) == Err::<PurlView, InvalidIdentity>(error),
        },
{
    let (body, _subpath) = cut_last(text, 0x23);
    let (locator, qualifiers) = cut_last(body, 0x3f);
    proof {
        lemma_first_index(locator@, 0x3a);
    }
    let colon = find_first(locator, 0x3a);
    if colon >= locator.len() {
        return Err(InvalidIdentity::Scheme);
    }
    let given = to_lower_bytes(slice_subrange(locator, 0, colon));
    let mut pkg: Vec<u8> = Vec::new();
    pkg.push(0x70);
    pkg.push(0x6b);
    pkg.push(0x67);
    assert(pkg@ == scheme());
    if !same_bytes(given.as_slice(), pkg.as_slice()) {
        return Err(InvalidIdentity::Scheme);
    }
    let path = trim(slice_subrange(locator, colon + 1, locator.len()), 0x2f);
    proof {
        lemma_first_index(path@, 0x2f);
    }
    let slash = find_first(path, 0x2f);
    if slash >= path.len() {
        return Err(InvalidIdentity::Name);
    }
    let ty = slice_subrange(path, 0, slash);
    let (named, version) = cut_last(slice_subrange(path, slash + 1, path.len()), 0x40);
    let (namespace, name) = match cut_last(named, 0x2f) {
        (before, Some(last)) => (before, last),
        (all, None) => (slice_subrange(all, 0, 0), all),
    };
    let namespace = match decode_text(cleaned(namespace).as_slice()) {
        Some(namespace) => namespace,
        None => {
            return Err(InvalidIdentity::Encoding);
        },
    };
    let name = match decode_text(name) {
        Some(name) => name,
        None => {
            return Err(InvalidIdentity::Encoding);
        },
    };
    let version = match version {
        Some(version) => match decode_text(version) {
            Some(version) => version,
            None => {
                return Err(InvalidIdentity::Encoding);
            },
        },
        None => String::new(),
    };
    let qualifiers = match qualifiers {
        Some(qualifiers) => match read_qualifiers(qualifiers) {
            Some(qualifiers) => qualifiers,
            None => {
                return Err(InvalidIdentity::Encoding);
            },
        },
        None => Vec::new(),
    };
    let ty = match plain_text(ty) {
        Some(ty) => ty,
        None => {
            return Err(InvalidIdentity::Encoding);
        },
    };
    assert(qualifiers@.len() == 0 ==> qualifiers_bytes(qualifiers@) == Seq::<
        (Seq<u8>, Seq<u8>),
    >::empty());
    Ok(Purl { ty, namespace: Some(namespace), name, version: Some(version), qualifiers })
}

impl Purl {
    /// Reads a package URL and brings it into canonical form.
    pub fn parse(text: &str) -> (purl: Result<Purl, InvalidIdentity>)
        ensures
            match purl {
                Ok(canonical) => outcome(encode_utf8(text@)) matches Ok(given)
                    && canonical@.canonical() && canonical@.same_package(given),
                Err(error) => outcome(encode_utf8(text@)) == Err::<PurlView, InvalidIdentity>(
                    error,
                ),
            },
    {
        match describe(text.as_bytes()) {
            Ok(given) => given.canonicalize(),
            Err(error) => Err(error),
        }
    }
}

} // verus!
