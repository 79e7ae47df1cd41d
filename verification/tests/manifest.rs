use tangopatch::error::Error;
use tangopatch::manifest::compat::{self, adapt_format_1, reader_for, Format1Manifest, Format1Parts, Reader};
use tangopatch::manifest::{Compatibility, Manifest, FORMAT};
use tangopatch::overrides::{check_legal_chip_ranges, Overrides};
use tangopatch::target::RomTarget;
use tangopatch::version::Version;

fn version(major: u64, minor: u64, patch: u64) -> Version {
    Version { major, minor, patch, pre: String::new(), build: String::new() }
}

/// The manifest that the minimal `manifest.toml` (format 2, name
/// `bn6_allstars`, version `1.1.0`, title `BN6 All-Stars`) decodes to.
fn minimal() -> Manifest {
    Manifest {
        format: 2,
        name: "bn6_allstars".into(),
        version: version(1, 1, 0),
        title: "BN6 All-Stars".into(),
        authors: vec![],
        license: None,
        source: None,
        netplay: Compatibility::default(),
        rom_overrides: vec![],
    }
}

fn target(s: &str) -> RomTarget {
    RomTarget::parse(s).unwrap()
}

fn legacy() -> Format1Manifest {
    Format1Manifest {
        name: "legacy".into(),
        version: version(1, 0, 0),
        title: "Legacy".into(),
        authors: vec![],
        license: None,
        source: None,
        netplay: Compatibility::default(),
    }
}

#[test]
fn minimal_manifest_defaults_to_isolated() {
    let m = Manifest::parse(Ok(2), || Ok(minimal())).unwrap();
    assert!(m.check().is_ok());
    assert_eq!(m.netplay, Compatibility::Isolated);
    assert!(m.authors.is_empty());
    assert_eq!(m.stem(), "bn6_allstars-1.1.0");
    assert_eq!(m.file_name(), "bn6_allstars-1.1.0.tangopatch");
}

#[test]
fn unsupported_formats_are_rejected() {
    for format in [0, 3] {
        assert!(matches!(
            Manifest::parse(Ok(format), || Ok(minimal())),
            Err(Error::UnsupportedFormat(actual)) if actual == format
        ));
        assert!(matches!(
            Manifest::check_format(format),
            Err(Error::UnsupportedFormat(actual)) if actual == format
        ));
        assert!(matches!(
            reader_for(format),
            Err(Error::UnsupportedFormat(actual)) if actual == format
        ));
    }
    assert!(Manifest::check_format(FORMAT).is_ok());
    assert_eq!(reader_for(2).unwrap(), Reader::Current);
    assert_eq!(reader_for(1).unwrap(), Reader::Format1);
}

#[test]
fn validation_names_the_broken_rule() {
    let mut m = minimal();
    m.name = "BN6".into();
    assert_eq!(
        m.validate(),
        Err(Error::Invalid("name: may only contain a-z, 0-9, '_' and '-'".into()))
    );
    let mut m = minimal();
    m.name = String::new();
    assert_eq!(m.validate(), Err(Error::Invalid("name: must not be empty".into())));
    let mut m = minimal();
    m.title = " \t\u{3000}\n".into();
    assert_eq!(m.validate(), Err(Error::Invalid("title: must not be empty".into())));
    let mut m = minimal();
    m.title = String::new();
    assert_eq!(m.validate(), Err(Error::Invalid("title: must not be empty".into())));
    let mut m = minimal();
    m.netplay = Compatibility::Group("has spaces".into());
    assert_eq!(
        m.validate(),
        Err(Error::Invalid("netplay group: may only contain a-z, 0-9, '_' and '-'".into()))
    );
    let mut m = minimal();
    m.netplay = Compatibility::Group("bn6allstars".into());
    assert!(m.validate().is_ok());
}

#[test]
fn stem_includes_pre_release_and_build() {
    let mut m = minimal();
    m.version = Version {
        major: 2,
        minor: 10,
        patch: 305,
        pre: "rc.1".into(),
        build: "build.5".into(),
    };
    assert_eq!(m.stem(), "bn6_allstars-2.10.305-rc.1+build.5");
    m.version.pre = String::new();
    assert_eq!(m.file_name(), "bn6_allstars-2.10.305+build.5.tangopatch");
    assert_eq!(version(0, 0, 18446744073709551615).to_text(), "0.0.18446744073709551615");
}

#[test]
fn rom_targets_read_and_write() {
    let t = target("BR5E_00");
    assert_eq!(t.to_text(), "BR5E_00");
    assert_eq!(target("BR6E_1F").to_text(), "BR6E_1F");
    assert_eq!(target("BR6E_1F").revision, 0x1f);
    assert!(target("BR5E_00").key() < target("BR6E_00").key());
    assert!(target("BR5E_00").key() < target("BR5E_01").key());
    for bad in ["", "BR5E00", "br5e_00", "BR5E_0g", "BR5E-00", "BR5E_000", "BR5E_1f"] {
        assert!(RomTarget::parse(bad).is_err(), "{bad:?} should not parse");
    }
    match RomTarget::parse("x") {
        Err(Error::Invalid(m)) => assert_eq!(
            m,
            "rom target: expected a game code and revision like BR5E_00, got \"x\""
        ),
        other => panic!("unexpected {other:?}"),
    }
}

#[test]
fn reversed_chip_ranges_are_refused() {
    assert_eq!(check_legal_chip_ranges(&vec![[1, 202], [301, 305]]), Ok(()));
    assert_eq!(check_legal_chip_ranges(&vec![[5, 5]]), Ok(()));
    assert_eq!(check_legal_chip_ranges(&vec![]), Ok(()));
    assert_eq!(
        check_legal_chip_ranges(&vec![[1, 2], [202, 1], [9, 3]]),
        Err("legal_chip_ranges: range start 202 exceeds end 1".to_string())
    );
}

#[test]
fn overrides_emptiness_and_copies() {
    let mut o = Overrides::new();
    assert!(o.is_empty());
    o.charset = Some(vec![" ".into(), "A".into()]);
    assert!(!o.is_empty());
    assert_eq!(o.clone(), o);
}

#[test]
fn format_1_is_adapted_to_a_complete_format_2_manifest() {
    let gregar = target("BR5E_00");
    let falzar = target("BR6E_00");
    let common = Overrides {
        language: Some("en-US".into()),
        charset: Some(vec![" ".into(), "A".into()]),
        legal_chip_ranges: None,
    };
    let ranges = vec![(gregar, vec![[1, 202], [301, 305]])];
    let manifest = adapt_format_1(legacy(), common, ranges, vec![gregar, falzar]).unwrap();

    assert_eq!(manifest.format, FORMAT);
    assert_eq!(manifest.rom_overrides.len(), 2);
    assert_eq!(
        manifest.rom_override(&gregar).unwrap().legal_chip_ranges.as_deref(),
        Some([[1, 202], [301, 305]].as_slice())
    );
    assert_eq!(
        manifest.rom_override(&gregar).unwrap().language.as_deref(),
        Some("en-US")
    );
    assert_eq!(
        manifest.rom_override(&falzar).unwrap().language.as_ref().unwrap().to_string(),
        "en-US"
    );
    assert!(manifest.rom_override(&falzar).unwrap().legal_chip_ranges.is_none());
    assert_eq!(manifest.rom_overrides[0].0, gregar);
    assert_eq!(manifest.rom_overrides[1].0, falzar);
    assert!(manifest.validate().is_ok());
}

#[test]
fn format_1_without_shared_overrides_lists_only_ranged_targets() {
    let gregar = target("BR5E_00");
    let falzar = target("BR6E_00");
    let ranges = vec![(falzar, vec![[1, 2]])];
    let m = adapt_format_1(legacy(), Overrides::new(), ranges, vec![gregar, falzar]).unwrap();
    assert_eq!(m.rom_overrides.len(), 1);
    assert!(m.rom_override(&gregar).is_none());
    assert_eq!(
        m.rom_override(&falzar).unwrap().legal_chip_ranges.as_deref(),
        Some([[1, 2]].as_slice())
    );
    let m = adapt_format_1(legacy(), Overrides::new(), vec![], vec![gregar]).unwrap();
    assert!(m.rom_overrides.is_empty());
}

#[test]
fn format_1_targets_are_ordered_and_deduplicated() {
    let a = target("BR5E_00");
    let b = target("BR6E_00");
    let common = Overrides { language: Some("ja-JP".into()), charset: None, legal_chip_ranges: None };
    let m = adapt_format_1(legacy(), common, vec![], vec![b, a, b]).unwrap();
    assert_eq!(m.rom_overrides.len(), 2);
    assert_eq!(m.rom_overrides[0].0, a);
    assert_eq!(m.rom_overrides[1].0, b);
}

#[test]
fn format_1_ranges_are_validated_by_the_format_2_parser() {
    let ranges = vec![(target("BR5E_00"), vec![[202, 1]])];
    let err = adapt_format_1(legacy(), Overrides::new(), ranges, vec![target("BR5E_00")])
        .unwrap_err();
    assert!(matches!(err, Error::ManifestSyntax(_)));
    assert!(
        err.message().contains("legal_chip_ranges: range start 202 exceeds end 1"),
        "{}",
        err.message()
    );
    assert_eq!(
        err,
        Error::ManifestSyntax(
            "rom_overrides.BR5E_00.legal_chip_ranges: range start 202 exceeds end 1".into()
        )
    );
}

#[test]
fn format_1_range_errors_come_before_name_errors() {
    let mut l = legacy();
    l.name = "Bad Name".into();
    let ranges = vec![(target("BR5E_00"), vec![[3, 1]])];
    let err = adapt_format_1(l, Overrides::new(), ranges, vec![]).unwrap_err();
    assert!(matches!(err, Error::ManifestSyntax(_)));
    let mut l = legacy();
    l.name = "Bad Name".into();
    let err = adapt_format_1(l, Overrides::new(), vec![], vec![]).unwrap_err();
    assert_eq!(err, Error::Invalid("name: may only contain a-z, 0-9, '_' and '-'".into()));
}

#[test]
fn error_messages() {
    assert_eq!(Error::UnsupportedFormat(3).message(), "unsupported manifest format 3");
    assert_eq!(Error::Invalid("x".into()).message(), "invalid manifest: x");
    assert_eq!(Error::ManifestSyntax("y".into()).message(), "manifest syntax error: y");
    assert_eq!(
        Error::ManifestSerialize("z".into()).message(),
        "manifest serialization error: z"
    );
}

#[test]
fn whitespace_matches_std() {
    for c in char::MIN..=char::MAX {
        assert_eq!(tangopatch::text::is_whitespace(c), c.is_whitespace(), "{c:?}");
    }
}

#[test]
fn validation_covers_overrides() {
    let a = target("BR5E_00");
    let b = target("BR6E_00");
    let ranged = |r: Vec<[usize; 2]>| Overrides {
        language: None,
        charset: None,
        legal_chip_ranges: Some(r),
    };
    let mut m = minimal();
    m.rom_overrides = vec![(a, ranged(vec![[1, 2]])), (b, Overrides::new())];
    assert!(m.validate().is_ok());
    assert!(m.check().is_ok());
    m.rom_overrides = vec![(b, Overrides::new()), (a, Overrides::new())];
    assert!(m.validate().is_ok());
    assert_eq!(
        m.check(),
        Err(Error::Invalid(
            "rom_overrides: each target must be listed once, in target order".into()
        ))
    );
    m.rom_overrides = vec![(a, Overrides::new()), (a, Overrides::new())];
    assert!(m.check().is_err());
    m.rom_overrides = vec![(a, ranged(vec![[1, 2]])), (b, ranged(vec![[9, 3], [8, 1]]))];
    assert!(m.validate().is_ok());
    assert_eq!(
        m.check(),
        Err(Error::Invalid(
            "rom_overrides.BR6E_00.legal_chip_ranges: range start 9 exceeds end 3".into()
        ))
    );
    let mut m = minimal();
    m.format = 1;
    assert_eq!(m.check(), Err(Error::UnsupportedFormat(1)));
    assert!(m.validate().is_ok());
}

#[test]
fn the_current_reader_checks_the_format_first() {
    let mut called = false;
    let r = Manifest::parse(Ok(3), || {
        called = true;
        Ok(minimal())
    });
    assert_eq!(r, Err(Error::UnsupportedFormat(3)));
    assert!(!called);
    let r = Manifest::parse(Err(Error::ManifestSyntax("bad".into())), || Ok(minimal()));
    assert_eq!(r, Err(Error::ManifestSyntax("bad".into())));
    assert_eq!(Manifest::parse(Ok(2), || Ok(minimal())), Ok(minimal()));
    let r = Manifest::parse(Ok(2), || Err(Error::ManifestSyntax("x".into())));
    assert_eq!(r, Err(Error::ManifestSyntax("x".into())));
    let mut bad = minimal();
    bad.title = "  ".into();
    assert_eq!(
        Manifest::parse(Ok(2), || Ok(bad)),
        Err(Error::Invalid("title: must not be empty".into()))
    );
}

fn parts(ranges: Vec<(RomTarget, Vec<[usize; 2]>)>) -> Format1Parts {
    Format1Parts { manifest: legacy(), common: Overrides::new(), ranges }
}

#[test]
fn the_compatible_reader_dispatches_by_format() {
    let a = target("BR5E_00");
    let r = compat::parse(Ok(2), || Ok(minimal()), || -> Result<Format1Parts, Error> { panic!() }, vec![a]);
    assert_eq!(r, Ok(minimal()));
    let r = compat::parse(Ok(1), || -> Result<Manifest, Error> { panic!() }, || Ok(parts(vec![(a, vec![[1, 2]])])), vec![a]);
    let m = r.unwrap();
    assert_eq!(m.format, FORMAT);
    assert_eq!(m.rom_override(&a).unwrap().legal_chip_ranges.as_deref(), Some([[1, 2]].as_slice()));
    let r = compat::parse(Ok(7), || Ok(minimal()), || Ok(parts(vec![])), vec![]);
    assert_eq!(r, Err(Error::UnsupportedFormat(7)));
    let r = compat::parse(Ok(1), || Ok(minimal()), || Ok(parts(vec![(a, vec![[202, 1]])])), vec![a]);
    assert!(matches!(r, Err(Error::ManifestSyntax(_))));
    let b = target("BR6E_00");
    let r = compat::parse(Ok(1), || Ok(minimal()), || Ok(parts(vec![(b, vec![]), (a, vec![])])), vec![]);
    assert_eq!(
        r,
        Err(Error::ManifestSyntax(
            "rom_overrides: legal_chip_ranges must list each target once, in target order".into()
        ))
    );
}

#[test]
fn rom_overrides_are_keyed_by_exact_target() {
    let gregar = target("BR5E_00");
    let falzar = target("BR6E_00");
    let mut decoded = minimal();
    decoded.rom_overrides = vec![
        (
            gregar,
            Overrides {
                language: Some("en-US".into()),
                charset: None,
                legal_chip_ranges: Some(vec![[1, 202], [301, 305]]),
            },
        ),
        (
            falzar,
            Overrides { language: None, charset: None, legal_chip_ranges: Some(vec![[1, 202], [306, 310]]) },
        ),
    ];
    let manifest = Manifest::parse(Ok(2), || Ok(decoded)).unwrap();
    assert_eq!(manifest.rom_overrides.len(), 2);
    assert_eq!(
        manifest.rom_override(&target("BR5E_00")).unwrap().legal_chip_ranges.as_deref(),
        Some([[1, 202], [301, 305]].as_slice())
    );
    assert_eq!(
        manifest.rom_override(&falzar).unwrap().legal_chip_ranges.as_deref(),
        Some([[1, 202], [306, 310]].as_slice())
    );
    assert!(manifest.rom_override(&target("BR5E_01")).is_none());
}

#[test]
fn the_current_reader_refuses_what_check_refuses() {
    let a = target("BR5E_00");
    let mut decoded = minimal();
    decoded.rom_overrides = vec![(
        a,
        Overrides { language: None, charset: None, legal_chip_ranges: Some(vec![[3, 2]]) },
    )];
    assert_eq!(
        Manifest::parse(Ok(2), || Ok(decoded)),
        Err(Error::Invalid(
            "rom_overrides.BR5E_00.legal_chip_ranges: range start 3 exceeds end 2".into()
        ))
    );
    let mut decoded = minimal();
    decoded.format = 1;
    assert_eq!(
        Manifest::parse(Ok(2), || Ok(decoded)),
        Err(Error::ManifestSyntax(
            "format: the decoded manifest disagrees with its format key".into()
        ))
    );
}

#[test]
fn version_validity_matches_semver() {
    for s in [
        "", "rc.1", "alpha", "0", "01", "0a", "a.01", "a..b", ".a", "a.", "x-y.7", "00", "1.0.0",
        "a_b", "a+b", "é", "-", "0.-", "10",
    ] {
        let pre = Version { major: 1, minor: 0, patch: 0, pre: s.into(), build: String::new() };
        assert_eq!(pre.is_valid(), semver::Prerelease::new(s).is_ok(), "pre {s:?}");
        let build = Version { major: 1, minor: 0, patch: 0, pre: String::new(), build: s.into() };
        assert_eq!(build.is_valid(), semver::BuildMetadata::new(s).is_ok(), "build {s:?}");
    }
}
