use sbom_graph::graph::package::{NodeInfoParam, PackageCreator, PackageReference};
use sbom_graph::identity::percent::{percent_decode, percent_encode_into};
use sbom_graph::identity::purl::{InvalidIdentity, Purl};
use sbom_graph::identity::{identity_of, Identity, IdentityKind};
use sbom_graph::license::LicenseInfo;
use sbom_graph::sbom_package::{PackageType, UnknownPackageType};
use sbom_graph::store::Store;
use sbom_graph::text::{bytes_before, find_first, find_last, same_text, text_before, to_lower_bytes};

#[test]
fn package_types() {
    // The standard conversions
    for (s, t) in [
        ("application", PackageType::Application),
        ("framework", PackageType::Framework),
        ("library", PackageType::Library),
        ("container", PackageType::Container),
        ("platform", PackageType::Platform),
        ("operating-system", PackageType::OperatingSystem),
        ("device", PackageType::Device),
        ("device-driver", PackageType::DeviceDriver),
        ("firmware", PackageType::Firmware),
        ("file", PackageType::File),
        ("machine-learning-model", PackageType::MachineLearningModel),
        ("data", PackageType::Data),
        ("cryptographic-asset", PackageType::CryptographicAsset),
    ] {
        assert_eq!(PackageType::from_str(s), Ok(t));
        assert_eq!(t.to_string(), s);
        assert_eq!(serde_json::Value::from(t.as_str()), serde_json::Value::from(s));
    }

    // Error handling
    assert!(PackageType::from_str("missing").is_err());
    assert_eq!(PackageType::from_str("FiLe"), Ok(PackageType::File));
}

#[test]
fn package_type_numbers() {
    for value in 0..13 {
        let t = PackageType::try_from_value(value).unwrap();
        assert_eq!(t.to_value(), value);
        assert_eq!(PackageType::from_str(t.as_str()), Ok(t));
    }
    assert_eq!(PackageType::try_from_value(13), None);
    assert_eq!(PackageType::try_from_value(-1), None);
    assert_eq!(PackageType::CryptographicAsset.to_value(), 12);
    assert_eq!(PackageType::from_str(""), Err(UnknownPackageType));
    assert_eq!(PackageType::from_str("files"), Err(UnknownPackageType));
    assert_eq!(PackageType::from_str("DEVICE-driver"), Ok(PackageType::DeviceDriver));
    assert_eq!(PackageType::from_str("device_driver"), Err(UnknownPackageType));
}

fn parse(text: &str) -> Purl {
    match Purl::parse(text) {
        Ok(purl) => purl,
        Err(error) => panic!("{text}: {error:?}"),
    }
}

#[test]
fn purl_is_read_into_its_parts() {
    let purl = parse("pkg:maven/com.test/package-a@1.0?type=jar");
    assert_eq!(purl.ty, "maven");
    assert_eq!(purl.namespace.as_deref(), Some("com.test"));
    assert_eq!(purl.name, "package-a");
    assert_eq!(purl.version.as_deref(), Some("1.0"));
    assert_eq!(purl.qualifiers, vec![("type".to_string(), "jar".to_string())]);
    assert_eq!(purl.to_text(), "pkg:maven/com.test/package-a@1.0?type=jar");

    let bare = parse("pkg:cargo/serde");
    assert_eq!(bare.ty, "cargo");
    assert_eq!(bare.namespace, None);
    assert_eq!(bare.name, "serde");
    assert_eq!(bare.version, None);
    assert!(bare.qualifiers.is_empty());
    assert_eq!(bare.to_text(), "pkg:cargo/serde");

    let deep = parse("pkg:golang/github.com/gorilla/context@234fd47#api");
    assert_eq!(deep.namespace.as_deref(), Some("github.com/gorilla"));
    assert_eq!(deep.name, "context");
    assert_eq!(deep.version.as_deref(), Some("234fd47"));
    assert_eq!(deep.to_text(), "pkg:golang/github.com/gorilla/context@234fd47");
}

#[test]
fn equal_packages_have_one_canonical_form() {
    let canonical = "pkg:maven/com.test/package-a@1.0?classifier=sources&type=jar";
    for text in [
        "pkg:maven/com.test/package-a@1.0?classifier=sources&type=jar",
        "pkg://maven/com.test/package-a@1.0?classifier=sources&type=jar",
        "PKG:Maven/com.test/package-a@1.0?type=jar&classifier=sources",
        "pkg:MAVEN//com.test//package-a@1.0?Type=jar&Classifier=sources",
        "pkg:maven/com.test/package%2Da@1%2e0?type=%6aar&classifier=sources&empty=",
        "pkg:maven/com.test/package-a@1.0?type=jar&&classifier=sources#some/path",
        "pkg:/maven/com.test/package-a@1.0/?type=jar&classifier=sources",
    ] {
        let purl = parse(text);
        assert_eq!(purl.to_text(), canonical, "{text}");
        assert_eq!(purl.qualifier_uuid(), parse(canonical).qualifier_uuid(), "{text}");
        assert_eq!(purl.version_uuid(), parse(canonical).version_uuid(), "{text}");
    }
}

#[test]
fn different_packages_have_different_identities() {
    let texts = [
        "pkg:maven/com.test/a@1.0",
        "pkg:maven/com.test/a@1.1",
        "pkg:maven/com.test/a",
        "pkg:maven/com.test/b@1.0",
        "pkg:maven/com.other/a@1.0",
        "pkg:maven/a@1.0",
        "pkg:npm/com.test/a@1.0",
        "pkg:maven/com.test/a@1.0?type=jar",
        "pkg:maven/com.test/a@1.0?type=pom",
        "pkg:maven/com.test/a@1.0?type=jar&classifier=sources",
        "pkg:maven/com.test/A@1.0",
    ];
    let mut seen: Vec<(String, u128)> = Vec::new();
    for text in texts {
        let purl = parse(text);
        let entry = (purl.to_text(), purl.qualifier_uuid());
        for other in &seen {
            assert_ne!(other.0, entry.0, "{text}");
            assert_ne!(other.1, entry.1, "{text}");
        }
        seen.push(entry);
    }
    let versions = parse("pkg:maven/com.test/a@1.0?type=jar");
    assert_eq!(versions.version_uuid(), parse("pkg:maven/com.test/a@1.0").version_uuid());
    assert_eq!(versions.package_uuid(), parse("pkg:maven/com.test/a@2.0").package_uuid());
    assert_ne!(versions.version_uuid(), versions.qualifier_uuid());
    assert_ne!(versions.package_uuid(), versions.version_uuid());
}

#[test]
fn variants() {
    let mut store = Store::new();
    let sbom_id = store.ingest_sbom(
        "package-variants".to_string(),
        "1".to_string(),
        "http://test.com/package-variants".to_string(),
        "DOCUMENT".to_string(),
    );
    let mut packages = PackageCreator::new(sbom_id);
    for (node_id, text) in [
        ("n2", "pkg://maven/com.foo/test@1.2"),
        ("n3", "pkg://maven/com.foo/test@1.3"),
        ("n4", "pkg://maven/com.foo/test@1.4"),
        ("n5", "pkg://maven/com.foo/test@1.5"),
        ("n6", "pkg://maven/com.foo/test@1.6"),
        ("n7", "pkg://maven/com.foo/test@1.6?foo=bar"),
        ("n8", "pkg://maven/com.foo/test@1.6?foo=bar"),
        ("other", "pkg://maven/com.foo/other@1.2"),
        ("npm", "pkg://npm/com.foo/test@1.2"),
    ] {
        packages.add(
            NodeInfoParam {
                node_id: node_id.to_string(),
                name: node_id.to_string(),
                group: None,
                version: None,
                package_type: None,
            },
            vec![parse(text).reference()],
            vec![],
            vec![],
        );
    }
    assert_eq!(store.commit(packages.create()), Ok(()));

    let response: Vec<String> =
        sbom_graph::server::variants(&store, &parse("pkg://maven/com.foo/test"));

    assert_eq!(6, response.len());
    assert!(response.contains(&parse("pkg://maven/com.foo/test@1.2").to_text()));
    assert!(response.contains(&parse("pkg://maven/com.foo/test@1.3").to_text()));
    assert!(response.contains(&parse("pkg://maven/com.foo/test@1.4").to_text()));
    assert!(response.contains(&parse("pkg://maven/com.foo/test@1.5").to_text()));
    assert!(response.contains(&parse("pkg://maven/com.foo/test@1.6").to_text()));
    assert!(response.contains(&parse("pkg://maven/com.foo/test@1.6?foo=bar").to_text()));
    assert_eq!(response[0], "pkg:maven/com.foo/test@1.2");
    assert!(sbom_graph::server::variants(&store, &parse("pkg:maven/com.foo/none")).is_empty());
    assert_eq!(sbom_graph::server::variants(&store, &parse("pkg:npm/com.foo/test@9")).len(), 1);
}

#[test]
fn malformed_purls_are_rejected() {
    let cases = [
        ("", InvalidIdentity::Scheme),
        ("maven/com.test/a", InvalidIdentity::Scheme),
        ("purl:maven/com.test/a", InvalidIdentity::Scheme),
        ("pkg:", InvalidIdentity::Name),
        ("pkg:maven", InvalidIdentity::Name),
        ("pkg:maven/", InvalidIdentity::Name),
        ("pkg:maven/com.test/@1.0", InvalidIdentity::Name),
        ("pkg:maven/com.test/a/@1.0", InvalidIdentity::Name),
        ("pkg:ma ven/a", InvalidIdentity::Type),
        ("pkg:1maven/a", InvalidIdentity::Type),
        ("pkg:ma%76en/a", InvalidIdentity::Type),
        ("pkg:maven/a%2", InvalidIdentity::Encoding),
        ("pkg:maven/a%zz", InvalidIdentity::Encoding),
        ("pkg:maven/a@%", InvalidIdentity::Encoding),
        ("pkg:maven/%ff", InvalidIdentity::Encoding),
        ("pkg:maven/a?k=%e9", InvalidIdentity::Encoding),
        ("pkg:maven/a?ke y=v", InvalidIdentity::QualifierKey),
        ("pkg:maven/a?=v", InvalidIdentity::QualifierKey),
        ("pkg:maven/a?1k=v", InvalidIdentity::QualifierKey),
        ("pkg:maven/a?k=v&k=w", InvalidIdentity::DuplicateQualifier),
        ("pkg:maven/a?k=v&K=v", InvalidIdentity::DuplicateQualifier),
    ];
    for (text, error) in cases {
        assert_eq!(Purl::parse(text).err(), Some(error), "{text}");
    }
    // what needs no key says nothing and is not held against the purl
    assert!(Purl::parse("pkg:maven/a?ke y=").is_ok());
}

#[test]
fn text_is_percent_encoded() {
    let purl = parse("pkg:npm/%40angular/core@1.0.0%2Bbuild?repository_url=https%3A%2F%2Fx.y%2Fz");
    assert_eq!(purl.namespace.as_deref(), Some("@angular"));
    assert_eq!(purl.version.as_deref(), Some("1.0.0+build"));
    assert_eq!(purl.qualifiers[0].1, "https://x.y/z");
    assert_eq!(
        purl.to_text(),
        "pkg:npm/%40angular/core@1.0.0%2bbuild?repository_url=https%3a%2f%2fx.y%2fz"
    );
    assert_eq!(parse(&purl.to_text()).to_text(), purl.to_text());

    // the type and the keys stand as they are
    let plus = parse("pkg:C++/lib?Vcs_url=x");
    assert_eq!(plus.ty, "c++");
    assert_eq!(plus.to_text(), "pkg:c++/lib?vcs_url=x");
    assert_eq!(parse(&plus.to_text()).to_text(), "pkg:c++/lib?vcs_url=x");

    // slashes that come out of the encoding are slashes of the namespace
    let slashes = parse("pkg:generic/%2Fa%2F%2Fb%2F/name");
    assert_eq!(slashes.namespace.as_deref(), Some("a/b"));
    assert_eq!(slashes.to_text(), "pkg:generic/a/b/name");
    assert_eq!(parse("pkg:generic/%2F/name").namespace, None);

    let unicode = parse("pkg:generic/caf%C3%A9@1");
    assert_eq!(unicode.name, "café");
    assert_eq!(unicode.to_text(), "pkg:generic/caf%c3%a9@1");
    assert_eq!(parse("pkg:generic/café@1").to_text(), "pkg:generic/caf%c3%a9@1");

    let mut out = b"x=".to_vec();
    percent_encode_into(b"a b/c~_.!*'()-%", &mut out);
    assert_eq!(out, b"x=a%20b%2fc~_.!*'()-%25");
    assert_eq!(percent_decode(b"a%20b%2Fc%2f%25"), Some(b"a b/c/%".to_vec()));
    assert_eq!(percent_decode(b""), Some(vec![]));
    assert_eq!(percent_decode(b"%4"), None);
    assert_eq!(percent_decode(b"%4g"), None);
    assert_eq!(percent_decode(b"100%"), None);
}

#[test]
fn canonicalize_sorts_and_validates() {
    let given = Purl {
        ty: "Maven".to_string(),
        namespace: Some(String::new()),
        name: "a".to_string(),
        version: Some(String::new()),
        qualifiers: vec![
            ("Type".to_string(), "jar".to_string()),
            ("ignored key".to_string(), String::new()),
            ("classifier".to_string(), "sources".to_string()),
        ],
    };
    let canonical = given.canonicalize().unwrap();
    assert_eq!(canonical.ty, "maven");
    assert_eq!(canonical.namespace, None);
    assert_eq!(canonical.version, None);
    assert_eq!(
        canonical.qualifiers,
        vec![
            ("classifier".to_string(), "sources".to_string()),
            ("type".to_string(), "jar".to_string()),
        ]
    );
    let nameless = Purl {
        ty: "maven".to_string(),
        namespace: None,
        name: String::new(),
        version: None,
        qualifiers: vec![("k".to_string(), "v".to_string()), ("k".to_string(), "v".to_string())],
    };
    assert_eq!(nameless.canonicalize().err(), Some(InvalidIdentity::Name));
}

#[test]
fn reference_carries_the_identifiers_and_the_text() {
    let purl = parse("pkg:maven/com.test/a@1.0?type=jar");
    match purl.reference() {
        PackageReference::Purl { versioned_purl, qualified_purl, purl: text } => {
            assert_eq!(versioned_purl, purl.version_uuid());
            assert_eq!(qualified_purl, purl.qualifier_uuid());
            assert_eq!(text, "pkg:maven/com.test/a@1.0?type=jar");
        }
        PackageReference::Cpe(_) => panic!("not a package URL"),
    }
}

#[test]
fn identities_of_all_kinds() {
    let package = identity_of(IdentityKind::Package, "pkg://Maven/com.test/a@1.0").unwrap();
    match &package {
        Identity::Package(purl) => assert_eq!(purl.to_text(), "pkg:maven/com.test/a@1.0"),
        other => panic!("{other:?}"),
    }
    assert_eq!(
        package.uuid(),
        identity_of(IdentityKind::Package, "pkg:maven/com.test/a@1.0").unwrap().uuid()
    );
    assert_eq!(
        identity_of(IdentityKind::Package, "com.test/a").err(),
        Some(InvalidIdentity::Scheme)
    );

    let catalog =
        identity_of(IdentityKind::Catalog, "CPE:/a:RedHat:Enterprise_Linux:9").unwrap();
    match &catalog {
        Identity::Catalog(name) => assert_eq!(name, "cpe:/a:redhat:enterprise_linux:9"),
        other => panic!("{other:?}"),
    }
    assert_eq!(
        catalog.uuid(),
        identity_of(IdentityKind::Catalog, "cpe:/a:redhat:enterprise_linux:9").unwrap().uuid()
    );
    assert_ne!(
        catalog.uuid(),
        identity_of(IdentityKind::Catalog, "cpe:/a:redhat:enterprise_linux:8").unwrap().uuid()
    );
    assert_eq!(identity_of(IdentityKind::Catalog, "cpe:").err(), Some(InvalidIdentity::Scheme));
    assert_eq!(
        identity_of(IdentityKind::Catalog, "pkg:maven/a").err(),
        Some(InvalidIdentity::Scheme)
    );

    let license = identity_of(IdentityKind::License, "Apache-2.0").unwrap();
    match &license {
        Identity::License(text) => assert_eq!(text, "apache-2.0"),
        other => panic!("{other:?}"),
    }
    assert_eq!(license.uuid(), LicenseInfo { license: "APACHE-2.0".to_string() }.uuid());
    assert_ne!(license.uuid(), catalog.uuid());
    assert_eq!(identity_of(IdentityKind::License, "").err(), Some(InvalidIdentity::Empty));
    // one text names different things as the name of things of different kinds
    assert_ne!(
        identity_of(IdentityKind::License, "cpe:/a:b").unwrap().uuid(),
        identity_of(IdentityKind::Catalog, "cpe:/a:b").unwrap().uuid()
    );
}

#[test]
fn identifier_is_the_name_based_identifier_of_the_namespace() {
    // the identifier of a license is the SHA-1 name-based identifier of its
    // canonical text in the namespace of licenses
    let expected = uuid::Uuid::new_v5(
        &uuid::Uuid::from_u128(0x2fd0b931_2c3f_4c0a_9a0c_6f5a3b1e77d4),
        b"mit",
    );
    assert_eq!(LicenseInfo { license: "MIT".to_string() }.uuid(), expected.as_u128());
    assert_eq!(expected.get_version_num(), 5);
}

#[test]
fn texts_are_compared_by_their_bytes() {
    assert!(text_before("a", "b"));
    assert!(text_before("", "a"));
    assert!(text_before("a", "ab"));
    assert!(text_before("Z", "a"));
    assert!(text_before("z", "é"));
    assert!(!text_before("a", "a"));
    assert!(!text_before("b", "a"));
    assert!(!text_before("", ""));
    assert!(bytes_before(&[1, 2], &[1, 3]));
    assert!(!bytes_before(&[1, 3], &[1, 2, 9]));
    assert!(same_text("é", "é"));
    assert!(!same_text("e", "é"));
    assert_eq!(to_lower_bytes("AbC-é[Z@".as_bytes()), "abc-é[z@".as_bytes());
    assert_eq!(find_first(b"a/b/c", b'/'), 1);
    assert_eq!(find_first(b"abc", b'/'), 3);
    assert_eq!(find_last(b"a/b/c", b'/'), Some(3));
    assert_eq!(find_last(b"abc", b'/'), None);
}
