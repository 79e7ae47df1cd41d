use tangopatch::error::Error;
use tangopatch::manifest::Compatibility;

#[test]
fn compatibility_round_trips_through_strings() {
    for c in [
        Compatibility::Isolated,
        Compatibility::Vanilla,
        Compatibility::Group("bn6allstars".into()),
    ] {
        assert_eq!(c.as_str().parse::<Compatibility>().unwrap(), c);
    }
}

#[test]
fn bad_netplay_values_are_rejected() {
    for bad in ["", "group:", "Vanilla", "group:has spaces", "bn6"] {
        assert!(
            bad.parse::<Compatibility>().is_err(),
            "{bad:?} should not parse as a compatibility"
        );
    }
}

#[test]
fn compatibility_strings_are_exact() {
    assert_eq!(Compatibility::Isolated.as_str(), "isolated");
    assert_eq!(Compatibility::Vanilla.as_str(), "vanilla");
    assert_eq!(Compatibility::Group("bn6allstars".into()).as_str(), "group:bn6allstars");
}

#[test]
fn default_compatibility_is_isolated() {
    let c = Compatibility::default();
    assert_eq!(c, Compatibility::Isolated);
    assert!(c.is_default());
    assert!(!Compatibility::Vanilla.is_default());
    assert!(!Compatibility::Group("g".into()).is_default());
}

#[test]
fn bad_group_name_error_names_the_rule() {
    match Compatibility::parse("group:has spaces") {
        Err(Error::Invalid(m)) => {
            assert_eq!(m, "netplay group: may only contain a-z, 0-9, '_' and '-'")
        }
        other => panic!("unexpected {other:?}"),
    }
    match Compatibility::parse("group:") {
        Err(Error::Invalid(m)) => assert_eq!(m, "netplay group: must not be empty"),
        other => panic!("unexpected {other:?}"),
    }
    let long = format!("group:{}", "a".repeat(65));
    match Compatibility::parse(&long) {
        Err(Error::Invalid(m)) => {
            assert_eq!(m, "netplay group: must be at most 64 characters long")
        }
        other => panic!("unexpected {other:?}"),
    }
    let longest = format!("group:{}", "a".repeat(64));
    assert!(Compatibility::parse(&longest).is_ok());
}

#[test]
fn unknown_netplay_error_quotes_the_input() {
    match Compatibility::parse("Vanilla") {
        Err(Error::Invalid(m)) => assert_eq!(
            m,
            "netplay: expected \"isolated\", \"vanilla\", or \"group:NAME\", got \"Vanilla\""
        ),
        other => panic!("unexpected {other:?}"),
    }
    match Compatibility::parse("a\"b") {
        Err(Error::Invalid(m)) => assert!(m.ends_with("got \"a\\\"b\"")),
        other => panic!("unexpected {other:?}"),
    }
}

#[test]
fn group_names_keep_their_text() {
    assert_eq!(
        Compatibility::parse("group:bn6_all-stars").unwrap(),
        Compatibility::Group("bn6_all-stars".into())
    );
    assert!(Compatibility::parse("group:BN6").is_err());
    assert!(Compatibility::parse("groupbn6").is_err());
    assert!(Compatibility::parse("isolated ").is_err());
}
