//! License references and license assertions.

use vstd::prelude::*;
use vstd::utf8::encode_utf8;
use crate::digest::{name_based_id, uuid_v5};
use crate::record::{Record, Scoped};
use crate::text::{lower_bytes, to_lower_bytes};

verus! {

/// The namespace of license identifiers.
pub const LICENSE_NAMESPACE: u128 = 0x2fd0b931_2c3f_4c0a_9a0c_6f5a3b1e77d4;

/// The identifier of a license text: license texts that differ only in the case
/// of ASCII letters have the same identifier.
pub open spec fn license_id(text: Seq<u8>) -> u128 {
    name_based_id(LICENSE_NAMESPACE, lower_bytes(text))
}

/// A license as a document declares it.
#[derive(Debug)]
pub struct LicenseInfo {
    pub license: String,
}

impl LicenseInfo {
    /// The identifier of the license.
    pub fn uuid(&self) -> (id: u128)
        ensures
            id == license_id(encode_utf8(self.license@)),
    {
        let lower = to_lower_bytes(self.license.as_str().as_bytes());
        uuid_v5(LICENSE_NAMESPACE, lower.as_slice())
    }
}

/// The assertion of a document that a license applies to a versioned package.
#[derive(Clone, Copy, Debug, PartialEq, Eq, Structural)]
pub struct PurlLicenseAssertion {
    pub sbom_id: u128,
    pub license_id: u128,
    pub versioned_purl_id: u128,
}

impl Scoped for PurlLicenseAssertion {
    open spec fn scope(&self) -> u128 {
        self.sbom_id
    }

    fn belongs_to(&self, sbom_id: u128) -> (belongs: bool) {
        self.sbom_id == sbom_id
    }
}

impl Record for PurlLicenseAssertion {
    type Key = (u128, u128, u128);

    open spec fn key(&self) -> (u128, u128, u128) {
        (self.sbom_id, self.license_id, self.versioned_purl_id)
    }

    fn same_key(&self, other: &Self) -> (same: bool) {
        self.sbom_id == other.sbom_id && self.license_id == other.license_id
            && self.versioned_purl_id == other.versioned_purl_id
    }

    fn duplicate(&self) -> (copy: Self) {
        *self
    }
}

/// The assertion of a document that a license applies to a catalog entry.
#[derive(Clone, Copy, Debug, PartialEq, Eq, Structural)]
pub struct CpeLicenseAssertion {
    pub sbom_id: u128,
    pub license_id: u128,
    pub cpe_id: u128,
}

impl Scoped for CpeLicenseAssertion {
    open spec fn scope(&self) -> u128 {
        self.sbom_id
    }

    fn belongs_to(&self, sbom_id: u128) -> (belongs: bool) {
        self.sbom_id == sbom_id
    }
}

impl Record for CpeLicenseAssertion {
    type Key = (u128, u128, u128);

    open spec fn key(&self) -> (u128, u128, u128) {
        (self.sbom_id, self.license_id, self.cpe_id)
    }

    fn same_key(&self, other: &Self) -> (same: bool) {
        self.sbom_id == other.sbom_id && self.license_id == other.license_id && self.cpe_id
            == other.cpe_id
    }

    fn duplicate(&self) -> (copy: Self) {
        *self
    }
}

} // verus!
