//! The canonical text and the identifiers of a package.

use vstd::prelude::*;
use vstd::utf8::{encode_utf8, valid_utf8};
use crate::digest::{name_based_id, uuid_v5};
use crate::graph::package::PackageReference;
use crate::identity::percent::{decoding_undoes_encoding, encoded, encoded_byte, percent_encode_into};
use crate::identity::purl::{canonical_form_is_unique, qualifier_bytes, Purl, PurlView};
use crate::text::{
    is_ascii_bytes, lemma_utf8_then_ascii, push_ascii, push_text, string_from_utf8,
};

verus! {

/// The namespace of package identifiers.
pub const PACKAGE_NAMESPACE: u128 = 0x3738b43d_fd03_4a9d_849c_489bec610f06;

/// The encoding of a path: the encodings of its bytes, but that a slash
/// stands for itself.
pub open spec fn encoded_path(path: Seq<u8>) -> Seq<u8>
    decreases path.len(),
{
    if path.len() == 0 {
        Seq::empty()
    } else if path.last() == 0x2f {
        encoded_path(path.drop_last()).push(0x2f)
    } else {
        encoded_path(path.drop_last()) + encoded_byte(path.last())
    }
}

/// The text of qualifiers: a question mark, and the qualifiers as
/// `key=value`, with an ampersand between two of them; nothing where there
/// is no qualifier.
pub open spec fn rendered_qualifiers(qualifiers: Seq<(Seq<u8>, Seq<u8>)>) -> Seq<u8>
    decreases qualifiers.len(),
{
    if qualifiers.len() == 0 {
        Seq::empty()
    } else {
        let lead = if qualifiers.len() == 1 {
            seq![0x3fu8]
        } else {
            rendered_qualifiers(qualifiers.drop_last()).push(0x26)
        };
        lead + qualifiers.last().0.push(0x3d) + encoded(qualifiers.last().1)
    }
}

/// The text of a package: `pkg:type/namespace/name@version?qualifiers`,
/// without the parts that are not there. The namespace, but for its slashes,
/// the name, the version and the values of the qualifiers are
/// percent-encoded.
pub open spec fn rendered(purl: PurlView) -> Seq<u8> {
    seq![0x70u8, 0x6b, 0x67, 0x3a] + purl.ty.push(0x2f) + (match purl.namespace {
        Some(namespace) => encoded_path(namespace).push(0x2f),
        None => Seq::empty(),
    }) + encoded(purl.name) + (match purl.version {
        Some(version) => seq![0x40u8] + encoded(version),
        None => Seq::empty(),
    }) + rendered_qualifiers(purl.qualifiers)
}

/// The identifier of a package without its version.
pub open spec fn package_id(purl: PurlView) -> u128 {
    let of_type = name_based_id(PACKAGE_NAMESPACE, purl.ty);
    let of_namespace = match purl.namespace {
        Some(namespace) => name_based_id(of_type, namespace),
        None => of_type,
    };
    name_based_id(of_namespace, purl.name)
}

/// The identifier of a package in its version.
pub open spec fn version_id(purl: PurlView) -> u128 {
    match purl.version {
        Some(version) => name_based_id(package_id(purl), version),
        None => package_id(purl),
    }
}

/// The identifier that follows from `base` and qualifiers: each qualifier
/// in turn adds its key and its value.
pub open spec fn qualifiers_id(base: u128, qualifiers: Seq<(Seq<u8>, Seq<u8>)>) -> u128
    decreases qualifiers.len(),
{
    if qualifiers.len() == 0 {
        base
    } else {
        name_based_id(
            name_based_id(qualifiers_id(base, qualifiers.drop_last()), qualifiers.last().0),
            qualifiers.last().1,
        )
    }
}

/// The identifier of a package in its version and with its qualifiers.
pub open spec fn qualified_id(purl: PurlView) -> u128 {
    qualifiers_id(version_id(purl), purl.qualifiers)
}

/// The encoding of a path is ASCII.
proof fn lemma_encoded_path_ascii(path: Seq<u8>)
    ensures
        is_ascii_bytes(encoded_path(path)),
    decreases path.len(),
{
    if path.len() > 0 {
        lemma_encoded_path_ascii(path.drop_last());
        decoding_undoes_encoding(seq![path.last()]);
        assert(encoded(seq![path.last()]) == encoded_byte(path.last())) by {
            assert(seq![path.last()].drop_last() == Seq::<u8>::empty());
            assert(encoded(seq![path.last()].drop_last()) == Seq::<u8>::empty());
        }
    }
}

/// Appends the encoding of a path.
fn encode_path_into(path: &[u8], out: &mut Vec<u8>)
    ensures
        final(out)@ == old(out)@ + encoded_path(path@),
        valid_utf8(old(out)@) ==> valid_utf8(final(out)@),
{
    proof {
        lemma_encoded_path_ascii(path@);
        if valid_utf8(out@) {
            lemma_utf8_then_ascii(out@, encoded_path(path@));
        }
    }
    let mut i: usize = 0;
    assert(path@.take(0) == Seq::<u8>::empty());
    while i < path.len()
        invariant
            i <= path.len(),
            out@ == old(out)@ + encoded_path(path@.take(i as int)),
        decreases path.len() - i,
    {
        proof {
            let next = path@.take(i + 1);
            assert(next.drop_last() == path@.take(i as int));
            assert(next.last() == path@[i as int]);
        }
        let ghost before = out@;
        if path[i] == 0x2f {
            out.push(0x2f);
        } else {
            let one = vstd::slice::slice_subrange(path, i, i + 1);
            assert(one@ == seq![path@[i as int]]);
            assert(encoded(one@) == encoded_byte(path@[i as int])) by {
                assert(one@.drop_last() == Seq::<u8>::empty());
                assert(encoded(one@.drop_last()) == Seq::<u8>::empty());
                assert(one@.last() == path@[i as int]);
            }
            percent_encode_into(one, out);
        }
        assert(out@ == old(out)@ + encoded_path(path@.take(i + 1)));
        i += 1;
    }
    assert(path@.take(path.len() as int) == path@);
}

impl Purl {
    /// The text of the package.
    pub fn to_text(&self) -> (text: String)
        ensures
            encode_utf8(text@) == rendered(self@),
    {
        let mut out: Vec<u8> = Vec::new();
        assert(valid_utf8(out@));
        push_ascii(&mut out, 0x70);
        push_ascii(&mut out, 0x6b);
        push_ascii(&mut out, 0x67);
        push_ascii(&mut out, 0x3a);
        push_text(&mut out, self.ty.as_str());
        push_ascii(&mut out, 0x2f);
        match &self.namespace {
            Some(namespace) => {
                encode_path_into(namespace.as_str().as_bytes(), &mut out);
                push_ascii(&mut out, 0x2f);
            },
            None => {},
        }
        percent_encode_into(self.name.as_str().as_bytes(), &mut out);
        match &self.version {
            Some(version) => {
                push_ascii(&mut out, 0x40);
                percent_encode_into(version.as_str().as_bytes(), &mut out);
            },
            None => {},
        }
        let ghost head = out@;
        assert(head + rendered_qualifiers(self@.qualifiers) == rendered(self@));
        let mut i: usize = 0;
        assert(self@.qualifiers.take(0) == Seq::<(Seq<u8>, Seq<u8>)>::empty());
        assert(head + Seq::<u8>::empty() == head);
        while i < self.qualifiers.len()
            invariant
                i <= self.qualifiers.len(),
                valid_utf8(out@),
                out@ == head + rendered_qualifiers(self@.qualifiers.take(i as int)),
            decreases self.qualifiers.len() - i,
        {
            proof {
                let next = self@.qualifiers.take(i + 1);
                assert(next.drop_last() == self@.qualifiers.take(i as int));
                assert(next.last() == qualifier_bytes(self.qualifiers@[i as int]));
            }
            if i == 0 {
                push_ascii(&mut out, 0x3f);
            } else {
                push_ascii(&mut out, 0x26);
            }
            push_text(&mut out, self.qualifiers[i].0.as_str());
            push_ascii(&mut out, 0x3d);
            percent_encode_into(self.qualifiers[i].1.as_str().as_bytes(), &mut out);
            assert(out@ == head + rendered_qualifiers(self@.qualifiers.take(i + 1)));
            i += 1;
        }
        assert(self@.qualifiers.take(self.qualifiers.len() as int) == self@.qualifiers);
        match string_from_utf8(out) {
            Some(text) => text,
            None => String::new(),
        }
    }

    /// The identifier of the package without its version.
    pub fn package_uuid(&self) -> (id: u128)
        ensures
            id == package_id(self@),
    {
        let mut id = uuid_v5(PACKAGE_NAMESPACE, self.ty.as_str().as_bytes());
        match &self.namespace {
            Some(namespace) => {
                id = uuid_v5(id, namespace.as_str().as_bytes());
            },
            None => {},
        }
        uuid_v5(id, self.name.as_str().as_bytes())
    }

    /// The identifier of the package in its version.
    pub fn version_uuid(&self) -> (id: u128)
        ensures
            id == version_id(self@),
    {
        let id = self.package_uuid();
        match &self.version {
            Some(version) => uuid_v5(id, version.as_str().as_bytes()),
            None => id,
        }
    }

    /// The identifier of the package in its version and with its qualifiers.
    pub fn qualifier_uuid(&self) -> (id: u128)
        ensures
            id == qualified_id(self@),
    {
        let mut id = self.version_uuid();
        let mut i: usize = 0;
        assert(self@.qualifiers.take(0) == Seq::<(Seq<u8>, Seq<u8>)>::empty());
        while i < self.qualifiers.len()
            invariant
                i <= self.qualifiers.len(),
                id == qualifiers_id(version_id(self@), self@.qualifiers.take(i as int)),
            decreases self.qualifiers.len() - i,
        {
            proof {
                let next = self@.qualifiers.take(i + 1);
                assert(next.drop_last() == self@.qualifiers.take(i as int));
                assert(next.last() == qualifier_bytes(self.qualifiers@[i as int]));
            }
            id = uuid_v5(id, self.qualifiers[i].0.as_str().as_bytes());
            id = uuid_v5(id, self.qualifiers[i].1.as_str().as_bytes());
            i += 1;
        }
        assert(self@.qualifiers.take(self.qualifiers.len() as int) == self@.qualifiers);
        id
    }

    /// The reference that a package node holds to this package.
    pub fn reference(&self) -> (reference: PackageReference)
        ensures
            reference matches PackageReference::Purl { versioned_purl, qualified_purl, purl }
                && versioned_purl == version_id(self@) && qualified_purl == qualified_id(self@)
                && encode_utf8(purl@) == rendered(self@),
    {
        PackageReference::Purl {
            versioned_purl: self.version_uuid(),
            qualified_purl: self.qualifier_uuid(),
            purl: self.to_text(),
        }
    }
}

/// The identifiers of a package depend on what is described, not on how: two
/// canonical forms of the same package have the same identifiers and the
/// same text.
pub proof fn identifiers_are_stable(a: PurlView, b: PurlView)
    requires
        a.canonical(),
        b.canonical(),
        a.same_package(b),
    ensures
        package_id(a) == package_id(b),
        version_id(a) == version_id(b),
        qualified_id(a) == qualified_id(b),
        rendered(a) == rendered(b),
{
    canonical_form_is_unique(a, b);
}

} // verus!
