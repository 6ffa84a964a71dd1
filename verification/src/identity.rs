//! The identity layer: canonical forms and identifiers of packages, catalog
//! entries and licenses.

pub mod path;
pub mod percent;
pub mod purl;
pub mod render;
pub mod round_trip;
pub mod parse;

use vstd::prelude::*;
use vstd::slice::slice_subrange;
use vstd::utf8::{encode_utf8, valid_utf8};
use crate::digest::{name_based_id, uuid_v5};
use crate::identity::parse::outcome;
use crate::identity::purl::{identity_is_stable, InvalidIdentity, Purl, PurlView};
use crate::identity::render::qualified_id;
use crate::license::LICENSE_NAMESPACE;
use crate::text::{lower_bytes, same_bytes, string_from_utf8, to_lower_bytes};

verus! {

/// The namespace of the identifiers of catalog entries.
pub const CATALOG_NAMESPACE: u128 = 0x1b9d6bcd_bbfd_4b2d_9b5d_ab8dfbbd4bed;

/// What an identity is the identity of.
#[derive(Clone, Copy, Debug, PartialEq, Eq, Structural)]
pub enum IdentityKind {
    /// A package, named by a package URL.
    Package,
    /// An entry of the catalog of hardware and software, named by its
    /// catalog name.
    Catalog,
    /// A license, named by its text.
    License,
}

/// A canonical identity: the content that two documents share when they
/// speak of the same thing.
#[derive(Debug)]
pub enum Identity {
    Package(Purl),
    Catalog(String),
    License(String),
}

/// A canonical identity, as mathematical values.
pub enum IdentityView {
    Package(PurlView),
    Catalog(Seq<u8>),
    License(Seq<u8>),
}

impl View for Identity {
    type V = IdentityView;

    open spec fn view(&self) -> IdentityView {
        match self {
            Identity::Package(purl) => IdentityView::Package(purl@),
            Identity::Catalog(name) => IdentityView::Catalog(encode_utf8(name@)),
            Identity::License(text) => IdentityView::License(encode_utf8(text@)),
        }
    }
}

/// The bytes of `cpe:`.
pub open spec fn catalog_scheme() -> Seq<u8> {
    seq![0x63u8, 0x70, 0x65, 0x3a]
}

/// The canonical form of a catalog name: the name in lower case. A catalog
/// name starts with `cpe:`, in letters of either case, and goes on behind it.
pub open spec fn catalog_outcome(text: Seq<u8>) -> Result<Seq<u8>, InvalidIdentity> {
    if text.len() <= 4 || lower_bytes(text.take(4)) != catalog_scheme() {
        Err(InvalidIdentity::Scheme)
    } else if !valid_utf8(lower_bytes(text)) {
        Err(InvalidIdentity::Encoding)
    } else {
        Ok(lower_bytes(text))
    }
}

/// The canonical form of a license: its text in lower case. A license has a
/// text.
pub open spec fn license_outcome(text: Seq<u8>) -> Result<Seq<u8>, InvalidIdentity> {
    if text.len() == 0 {
        Err(InvalidIdentity::Empty)
    } else if !valid_utf8(lower_bytes(text)) {
        Err(InvalidIdentity::Encoding)
    } else {
        Ok(lower_bytes(text))
    }
}

impl IdentityView {
    /// The identifier of the identity: that of the package with its version
    /// and qualifiers, or that of the canonical text in the namespace of its
    /// kind.
    pub open spec fn id(self) -> u128 {
        match self {
            IdentityView::Package(purl) => qualified_id(purl),
            IdentityView::Catalog(name) => name_based_id(CATALOG_NAMESPACE, name),
            IdentityView::License(text) => name_based_id(LICENSE_NAMESPACE, text),
        }
    }

    /// Tells whether the identity is one of the text `text`, read as the
    /// name of a thing of kind `kind`.
    pub open spec fn names(self, kind: IdentityKind, text: Seq<u8>) -> bool {
        match kind {
            IdentityKind::Package => self matches IdentityView::Package(purl) && outcome(
                text,
            ) matches Ok(given) && purl.canonical() && purl.same_package(given),
            IdentityKind::Catalog => self matches IdentityView::Catalog(name) && catalog_outcome(
                text,
            ) == Ok::<Seq<u8>, InvalidIdentity>(name),
            IdentityKind::License => self matches IdentityView::License(license)
                && license_outcome(text) == Ok::<Seq<u8>, InvalidIdentity>(license),
        }
    }
}

/// What is wrong with a text as the name of a thing of kind `kind`, if
/// anything.
pub open spec fn rejected(kind: IdentityKind, text: Seq<u8>) -> Option<InvalidIdentity> {
    match kind {
        IdentityKind::Package => match outcome(text) {
            Ok(_) => None,
            Err(error) => Some(error),
        },
        IdentityKind::Catalog => match catalog_outcome(text) {
            Ok(_) => None,
            Err(error) => Some(error),
        },
        IdentityKind::License => match license_outcome(text) {
            Ok(_) => None,
            Err(error) => Some(error),
        },
    }
}

/// The canonical identity of what a text names. A malformed text is
/// rejected; the error tells what is wrong with it.
pub fn identity_of(kind: IdentityKind, text: &str) -> (identity: Result<Identity, InvalidIdentity>)
    ensures
        match identity {
            Ok(found) => found@.names(kind, encode_utf8(text@)),
            Err(error) => rejected(kind, encode_utf8(text@)) == Some(error),
        },
{
    match kind {
        IdentityKind::Package => match Purl::parse(text) {
            Ok(purl) => Ok(Identity::Package(purl)),
            Err(error) => Err(error),
        },
        IdentityKind::Catalog => {
            let bytes = text.as_bytes();
            if bytes.len() <= 4 {
                return Err(InvalidIdentity::Scheme);
            }
            let head = to_lower_bytes(slice_subrange(bytes, 0, 4));
            let mut cpe: Vec<u8> = Vec::new();
            cpe.push(0x63);
            cpe.push(0x70);
            cpe.push(0x65);
            cpe.push(0x3a);
            assert(cpe@ == catalog_scheme());
            assert(bytes@.subrange(0, 4) == bytes@.take(4));
            if !same_bytes(head.as_slice(), cpe.as_slice()) {
                return Err(InvalidIdentity::Scheme);
            }
            match string_from_utf8(to_lower_bytes(bytes)) {
                Some(name) => Ok(Identity::Catalog(name)),
                None => Err(InvalidIdentity::Encoding),
            }
        },
        IdentityKind::License => {
            let bytes = text.as_bytes();
            if bytes.len() == 0 {
                return Err(InvalidIdentity::Empty);
            }
            match string_from_utf8(to_lower_bytes(bytes)) {
                Some(license) => Ok(Identity::License(license)),
                None => Err(InvalidIdentity::Encoding),
            }
        },
    }
}

impl Identity {
    /// The identifier of the identity.
    pub fn uuid(&self) -> (id: u128)
        ensures
            id == self@.id(),
    {
        match self {
            Identity::Package(purl) => purl.qualifier_uuid(),
            Identity::Catalog(name) => uuid_v5(CATALOG_NAMESPACE, name.as_str().as_bytes()),
            Identity::License(text) => uuid_v5(LICENSE_NAMESPACE, text.as_str().as_bytes()),
        }
    }
}

/// A text has one identity: two identities of the same text, read as the
/// name of a thing of the same kind, are equal, and so are their identifiers.
pub proof fn identity_is_determined(
    kind: IdentityKind,
    text: Seq<u8>,
    first: IdentityView,
    second: IdentityView,
)
    requires
        first.names(kind, text),
        second.names(kind, text),
    ensures
        first == second,
        first.id() == second.id(),
{
    if kind == IdentityKind::Package {
        let a = first->Package_0;
        let b = second->Package_0;
        let given = outcome(text)->Ok_0;
        identity_is_stable(given, given, a, b);
    }
}

/// Texts that name the same package have the same identity, and texts that
/// name different packages have different identities.
pub proof fn package_identity_is_stable(
    first: Seq<u8>,
    second: Seq<u8>,
    a: IdentityView,
    b: IdentityView,
)
    requires
        a.names(IdentityKind::Package, first),
        b.names(IdentityKind::Package, second),
    ensures
        a == b <==> (outcome(first)->Ok_0).same_package(outcome(second)->Ok_0),
{
    identity_is_stable(
        outcome(first)->Ok_0,
        outcome(second)->Ok_0,
        a->Package_0,
        b->Package_0,
    );
}

} // verus!
