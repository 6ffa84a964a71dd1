//! The instructions of a dataset: which sources to import, and how.

use vstd::prelude::*;
use crate::runner::Configuration;

verus! {

/// What every importer has.
#[derive(Debug)]
pub struct CommonImporter {
    pub disabled: bool,
    /// The time between two runs, in seconds.
    pub period: u64,
    pub description: Option<String>,
    pub labels: Vec<(String, String)>,
}

/// An importer of vulnerability records.
#[derive(Debug)]
pub struct CveImporter {
    pub common: CommonImporter,
    pub source: String,
    pub years: Vec<u16>,
    pub start_year: Option<u16>,
}

/// An importer of bills of materials.
#[derive(Debug)]
pub struct SbomImporter {
    pub common: CommonImporter,
    pub source: String,
    pub keys: Vec<String>,
    pub v3_signatures: bool,
    pub only_patterns: Vec<String>,
    /// Documents greater than this limit, in bytes, will be ignored.
    pub size_limit: Option<u64>,
    /// Number of times to retry fetching a document.
    pub fetch_retries: Option<usize>,
    pub ignore_missing: bool,
}

/// An importer of security advisories.
#[derive(Debug)]
pub struct CsafImporter {
    pub common: CommonImporter,
    pub source: String,
    pub v3_signatures: bool,
    pub only_patterns: Vec<String>,
    /// Number of times to retry fetching a document.
    pub fetch_retries: Option<usize>,
    pub ignore_missing: bool,
}

/// One source to import.
#[derive(Debug)]
pub enum ImporterConfiguration {
    Cve(CveImporter),
    Sbom(SbomImporter),
    Csaf(CsafImporter),
}

/// The sources to import.
#[derive(Debug)]
pub struct Instructions {
    pub import: Vec<ImporterConfiguration>,
}

/// How a dump of a dataset is generated.
#[derive(Debug)]
pub struct GenerateDump {
    /// The name of the output dump file
    pub output: String,
    /// The name of the input configuration. Uses a default configuration if missing.
    pub input: Option<String>,
    /// An optional specified working directory
    pub working_dir: Option<String>,
    /// Files greater than this limit will be ignored.
    pub size_limit: Option<u64>,
    /// Number of times to retry fetching a document.
    pub fetch_retries: Option<usize>,
}

/// Tells whether an importer has the common settings that go with a
/// description: enabled, with no period and no labels.
pub open spec fn is_default_common(common: CommonImporter, description: Seq<char>) -> bool {
    &&& !common.disabled
    &&& common.period == 0
    &&& common.description matches Some(text) && text@ == description
    &&& common.labels@.len() == 0
}

/// Tells whether `instructions` are those of the default dataset: the
/// vulnerability records from 2024 on, all bills of materials of the vendor,
/// with the limits given, and the advisories of 2024, in this order.
pub open spec fn is_default_dataset(
    instructions: Instructions,
    size_limit: Option<u64>,
    fetch_retries: Option<usize>,
) -> bool {
    &&& instructions.import@.len() == 3
    &&& instructions.import@[0] matches ImporterConfiguration::Cve(cve)
    &&& is_default_common(cve.common, "CVEs starting 2024"@)
    &&& cve.source@ == "https://github.com/CVEProject/cvelistV5"@
    &&& cve.years@.len() == 0
    &&& cve.start_year == Some(2024u16)
    &&& instructions.import@[1] matches ImporterConfiguration::Sbom(sbom)
    &&& is_default_common(sbom.common, "All Red Hat SBOMs"@)
    &&& sbom.source@ == "https://access.redhat.com/security/data/sbom/beta/"@
    &&& sbom.keys@.len() == 1
    &&& sbom.keys@[0]@
        == "https://access.redhat.com/security/data/97f5eac4.txt#77E79ABE93673533ED09EBE2DCE3823597F5EAC4"@
    &&& sbom.v3_signatures
    &&& sbom.only_patterns@.len() == 0
    &&& sbom.size_limit == size_limit
    &&& sbom.fetch_retries == fetch_retries
    &&& !sbom.ignore_missing
    &&& instructions.import@[2] matches ImporterConfiguration::Csaf(csaf)
    &&& is_default_common(csaf.common, "Red Hat VEX documents from 2024"@)
    &&& csaf.source@ == "redhat.com"@
    &&& csaf.v3_signatures
    &&& csaf.only_patterns@.len() == 1
    &&& csaf.only_patterns@[0]@ == "^cve-2024-"@
    &&& csaf.fetch_retries == fetch_retries
    &&& !csaf.ignore_missing
}

/// The common settings of an importer with this description.
pub fn default_common(description: &str) -> (common: CommonImporter)
    ensures
        is_default_common(common, description@),
{
    CommonImporter {
        disabled: false,
        period: 0,
        description: Some(description.to_owned()),
        labels: Vec::new(),
    }
}

impl GenerateDump {
    /// The instructions to follow: those that were read from the input
    /// configuration, where there is one, and else those of the default
    /// dataset, with the limits of this command.
    pub fn load_config(&self, input: Option<Instructions>) -> (instructions: Instructions)
        ensures
            match input {
                Some(read) => instructions == read,
                None => is_default_dataset(instructions, self.size_limit, self.fetch_retries),
            },
    {
        match input {
            Some(read) => read,
            None => {
                let mut import: Vec<ImporterConfiguration> = Vec::new();
                import.push(
                    ImporterConfiguration::Cve(
                        CveImporter {
                            common: default_common("CVEs starting 2024"),
                            source: "https://github.com/CVEProject/cvelistV5".to_owned(),
                            years: Vec::new(),
                            start_year: Some(2024),
                        },
                    ),
                );
                let mut keys: Vec<String> = Vec::new();
                keys.push(
                    "https://access.redhat.com/security/data/97f5eac4.txt#77E79ABE93673533ED09EBE2DCE3823597F5EAC4".to_owned(),
                );
                import.push(
                    ImporterConfiguration::Sbom(
                        SbomImporter {
                            common: default_common("All Red Hat SBOMs"),
                            source: "https://access.redhat.com/security/data/sbom/beta/".to_owned(),
                            keys,
                            v3_signatures: true,
                            only_patterns: Vec::new(),
                            size_limit: self.size_limit,
                            fetch_retries: self.fetch_retries,
                            ignore_missing: false,
                        },
                    ),
                );
                let mut only_patterns: Vec<String> = Vec::new();
                only_patterns.push("^cve-2024-".to_owned());
                import.push(
                    ImporterConfiguration::Csaf(
                        CsafImporter {
                            common: default_common("Red Hat VEX documents from 2024"),
                            source: "redhat.com".to_owned(),
                            v3_signatures: true,
                            only_patterns,
                            fetch_retries: self.fetch_retries,
                            ignore_missing: false,
                        },
                    ),
                );
                Instructions { import }
            },
        }
    }
}

impl SbomImporter {
    /// How a run of this importer treats its documents. Without a number of
    /// retries a document is fetched once.
    pub fn configuration(&self) -> (configuration: Configuration)
        ensures
            configuration == (Configuration {
                fetch_retries: match self.fetch_retries {
                    Some(retries) => retries,
                    None => 0,
                },
                size_limit: self.size_limit,
                ignore_missing: self.ignore_missing,
            }),
    {
        Configuration {
            fetch_retries: match self.fetch_retries {
                Some(retries) => retries,
                None => 0,
            },
            size_limit: self.size_limit,
            ignore_missing: self.ignore_missing,
        }
    }
}

} // verus!
