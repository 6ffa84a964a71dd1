//! Package nodes.

use vstd::prelude::*;
use vstd::utf8::{encode_utf8, is_ascii_chars, is_ascii_chars_encode_utf8};
use crate::record::{duplicate_text, Record, Scoped};
use crate::text::{lemma_same_bytes_same_text, lower_bytes, same_bytes, to_lower_bytes};

verus! {

/// The kind of component that a package node stands for.
#[derive(Clone, Copy, Debug, PartialEq, Eq, Structural)]
pub enum PackageType {
    /// A software application
    Application,
    /// A software framework
    Framework,
    /// A software library
    Library,
    /// A packaging and/or runtime format
    Container,
    /// A runtime environment which interprets or executes software
    Platform,
    /// A software operating system without regard to deployment model
    OperatingSystem,
    /// A hardware device such as a processor or chip-set
    Device,
    /// A special type of software that operates or controls a particular type of device
    DeviceDriver,
    /// A special type of software that provides low-level control over a device's hardware
    Firmware,
    /// A computer file
    File,
    /// A model based on training data that can make predictions or decisions without being
    /// explicitly programmed to do so
    MachineLearningModel,
    /// A collection of discrete values that convey information
    Data,
    /// A cryptographic asset including algorithms, protocols, certificates, keys, tokens, and
    /// secrets
    CryptographicAsset,
}

/// A text that names no package type.
#[derive(Clone, Copy, Debug, PartialEq, Eq, Structural)]
pub struct UnknownPackageType;

impl PackageType {
    /// The name of the type: lower-case words with hyphens between them.
    pub open spec fn name(self) -> Seq<char> {
        match self {
            PackageType::Application => "application"@,
            PackageType::Framework => "framework"@,
            PackageType::Library => "library"@,
            PackageType::Container => "container"@,
            PackageType::Platform => "platform"@,
            PackageType::OperatingSystem => "operating-system"@,
            PackageType::Device => "device"@,
            PackageType::DeviceDriver => "device-driver"@,
            PackageType::Firmware => "firmware"@,
            PackageType::File => "file"@,
            PackageType::MachineLearningModel => "machine-learning-model"@,
            PackageType::Data => "data"@,
            PackageType::CryptographicAsset => "cryptographic-asset"@,
        }
    }

    /// The number that stands for the type in a table.
    pub open spec fn value(self) -> int {
        match self {
            PackageType::Application => 0,
            PackageType::Framework => 1,
            PackageType::Library => 2,
            PackageType::Container => 3,
            PackageType::Platform => 4,
            PackageType::OperatingSystem => 5,
            PackageType::Device => 6,
            PackageType::DeviceDriver => 7,
            PackageType::Firmware => 8,
            PackageType::File => 9,
            PackageType::MachineLearningModel => 10,
            PackageType::Data => 11,
            PackageType::CryptographicAsset => 12,
        }
    }

    /// Tells whether a text names the type, whatever the case of its ASCII
    /// letters.
    pub open spec fn named_by(self, text: Seq<char>) -> bool {
        lower_bytes(encode_utf8(text)) == encode_utf8(self.name())
    }

    /// The name of the type.
    pub fn as_str(&self) -> (name: &'static str)
        ensures
            name@ == self.name(),
    {
        match self {
            PackageType::Application => "application",
            PackageType::Framework => "framework",
            PackageType::Library => "library",
            PackageType::Container => "container",
            PackageType::Platform => "platform",
            PackageType::OperatingSystem => "operating-system",
            PackageType::Device => "device",
            PackageType::DeviceDriver => "device-driver",
            PackageType::Firmware => "firmware",
            PackageType::File => "file",
            PackageType::MachineLearningModel => "machine-learning-model",
            PackageType::Data => "data",
            PackageType::CryptographicAsset => "cryptographic-asset",
        }
    }

    /// The name of the type.
    pub fn to_string(&self) -> (name: String)
        ensures
            name@ == self.name(),
    {
        self.as_str().to_owned()
    }

    /// The number that stands for the type in a table.
    pub fn to_value(&self) -> (value: i32)
        ensures
            value == self.value(),
    {
        match self {
            PackageType::Application => 0,
            PackageType::Framework => 1,
            PackageType::Library => 2,
            PackageType::Container => 3,
            PackageType::Platform => 4,
            PackageType::OperatingSystem => 5,
            PackageType::Device => 6,
            PackageType::DeviceDriver => 7,
            PackageType::Firmware => 8,
            PackageType::File => 9,
            PackageType::MachineLearningModel => 10,
            PackageType::Data => 11,
            PackageType::CryptographicAsset => 12,
        }
    }

    /// The type that a number stands for; none where the number stands for
    /// no type.
    pub fn try_from_value(value: i32) -> (found: Option<PackageType>)
        ensures
            match found {
                Some(t) => t.value() == value,
                None => forall|t: PackageType| t.value() != value,
            },
    {
        match value {
            0 => Some(PackageType::Application),
            1 => Some(PackageType::Framework),
            2 => Some(PackageType::Library),
            3 => Some(PackageType::Container),
            4 => Some(PackageType::Platform),
            5 => Some(PackageType::OperatingSystem),
            6 => Some(PackageType::Device),
            7 => Some(PackageType::DeviceDriver),
            8 => Some(PackageType::Firmware),
            9 => Some(PackageType::File),
            10 => Some(PackageType::MachineLearningModel),
            11 => Some(PackageType::Data),
            12 => Some(PackageType::CryptographicAsset),
            _ => None,
        }
    }

    /// The type that a text names, whatever the case of its ASCII letters. A
    /// text that names no type is rejected.
    pub fn from_str(text: &str) -> (found: Result<PackageType, UnknownPackageType>)
        ensures
            match found {
                Ok(t) => t.named_by(text@),
                Err(_) => forall|t: PackageType| !t.named_by(text@),
            },
    {
        let lower = to_lower_bytes(text.as_bytes());
        let mut value: i32 = 0;
        while value <= 12
            invariant
                0 <= value <= 13,
                lower@ == lower_bytes(encode_utf8(text@)),
                forall|t: PackageType| t.value() < value ==> !t.named_by(text@),
            decreases 13 - value,
        {
            match PackageType::try_from_value(value) {
                Some(t) => {
                    if same_bytes(lower.as_slice(), t.as_str().as_bytes()) {
                        return Ok(t);
                    }
                    assert forall|other: PackageType| other.value() < value + 1 implies !other.named_by(
                        text@,
                    ) by {
                        if other.value() == value {
                            assert(other == t);
                        }
                    }
                },
                None => {},
            }
            value += 1;
        }
        Err(UnknownPackageType)
    }
}

/// Tells whether a character is a lower-case ASCII letter or a hyphen.
pub open spec fn is_name_char(c: char) -> bool {
    'a' <= c <= 'z' || c == '-'
}

/// The names of the types are made of lower-case letters and hyphens, and no
/// two types have the same name.
pub proof fn names_are_plain_and_distinct(t: PackageType, u: PackageType)
    ensures
        forall|i: int| 0 <= i < t.name().len() ==> is_name_char(#[trigger] t.name()[i]),
        t.name() == u.name() ==> t == u,
{
    reveal_strlit("application");
    reveal_strlit("framework");
    reveal_strlit("library");
    reveal_strlit("container");
    reveal_strlit("platform");
    reveal_strlit("operating-system");
    reveal_strlit("device");
    reveal_strlit("device-driver");
    reveal_strlit("firmware");
    reveal_strlit("file");
    reveal_strlit("machine-learning-model");
    reveal_strlit("data");
    reveal_strlit("cryptographic-asset");
    if t.name() == u.name() {
        assert(t.name().len() == u.name().len());
        assert(t.name()[0] == u.name()[0]);
    }
}

/// Each type is named by its own name and by that of no other type: the
/// name of a type, read back, gives the type.
pub proof fn name_names_its_type(t: PackageType, u: PackageType)
    ensures
        t.named_by(t.name()),
        u.named_by(t.name()) ==> u == t,
{
    names_are_plain_and_distinct(t, u);
    names_are_plain_and_distinct(u, t);
    let name = t.name();
    assert(is_ascii_chars(name)) by {
        assert forall|i: int| 0 <= i < name.len() implies '\0' <= #[trigger] name[i] <= '\u{7f}' by {
            assert(is_name_char(name[i]));
        }
    }
    is_ascii_chars_encode_utf8(name);
    let bytes = encode_utf8(name);
    assert(lower_bytes(bytes) =~= bytes) by {
        assert forall|i: int| 0 <= i < bytes.len() implies !(0x41 <= #[trigger] bytes[i] <= 0x5a) by {
            assert(is_name_char(name[i]));
            assert(bytes[i] == name[i] as u8);
        }
    }
    if u.named_by(name) {
        lemma_same_bytes_same_text(name, u.name());
    }
}

/// A node that is a package.
#[derive(Debug)]
pub struct Model {
    pub sbom_id: u128,
    pub node_id: String,
    pub group: Option<String>,
    pub version: Option<String>,
    pub package_type: Option<PackageType>,
}

impl Scoped for Model {
    open spec fn scope(&self) -> u128 {
        self.sbom_id
    }

    fn belongs_to(&self, sbom_id: u128) -> (belongs: bool) {
        self.sbom_id == sbom_id
    }
}

impl Record for Model {
    type Key = (u128, Seq<char>);

    open spec fn key(&self) -> (u128, Seq<char>) {
        (self.sbom_id, self.node_id@)
    }

    fn same_key(&self, other: &Self) -> (same: bool) {
        self.sbom_id == other.sbom_id && self.node_id == other.node_id
    }

    fn duplicate(&self) -> (copy: Self) {
        Model {
            sbom_id: self.sbom_id,
            node_id: self.node_id.clone(),
            group: duplicate_text(&self.group),
            version: duplicate_text(&self.version),
            package_type: self.package_type,
        }
    }
}

} // verus!
