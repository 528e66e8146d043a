//! Tests of the dialect configuration decoder.

use rewargs::{
    parse_dialect, parse_dialect_string, Dialect, Gnu, LongOptionArgumentFormat,
    PositionalArgumentsMode,
};

#[test]
fn bare_name_gives_the_defaults() {
    let d = parse_dialect("gnu").unwrap();
    assert_eq!(d, Dialect::Gnu(Gnu::default()));

    // A trailing colon with no arguments changes nothing either.
    let d = parse_dialect("gnu:").unwrap();
    assert_eq!(d, Dialect::Gnu(Gnu::default()));
}

#[test]
fn enumerated_fields_take_values() {
    let d = parse_dialect("gnu:positional=free").unwrap();
    assert_eq!(
        d,
        Dialect::Gnu(Gnu { positional: PositionalArgumentsMode::Free, ..Gnu::default() })
    );

    let d = parse_dialect("gnu:positional=forbidden,long_arg=space").unwrap();
    assert_eq!(
        d,
        Dialect::Gnu(Gnu {
            positional: PositionalArgumentsMode::Forbidden,
            long_arg: LongOptionArgumentFormat::Space,
            ..Gnu::default()
        })
    );
}

#[test]
fn boolean_fields_go_by_presence() {
    let d = parse_dialect("gnu:grouping").unwrap();
    assert_eq!(d, Dialect::Gnu(Gnu::default()));

    let d = parse_dialect("gnu:-grouping,-explicit_positional").unwrap();
    assert_eq!(
        d,
        Dialect::Gnu(Gnu { grouping: false, explicit_positional: false, ..Gnu::default() })
    );
}

#[test]
fn later_arguments_win() {
    let d = parse_dialect("gnu:positional=free,positional=explicit").unwrap();
    assert_eq!(d, Dialect::Gnu(Gnu::default()));
}

#[test]
fn bad_configurations_are_rejected() {
    // An unknown dialect name
    let err = parse_dialect("posix").unwrap_err();
    assert!(err.message().contains("Unknown dialect"));

    // An unknown field
    let err = parse_dialect("gnu:color=red").unwrap_err();
    assert!(err.message().contains("unknown field"));

    // An unknown value for an enumerated field
    let err = parse_dialect("gnu:positional=sometimes").unwrap_err();
    assert!(err.message().contains("unknown value"));

    // A value handed to a boolean field
    let err = parse_dialect("gnu:grouping=yes").unwrap_err();
    assert!(err.message().contains("no value is expected"));

    // A missing value for an enumerated field
    let err = parse_dialect("gnu:positional").unwrap_err();
    assert!(err.message().contains("a value is expected"));
}

#[test]
fn splitting_a_configuration_string() {
    let (name, args) = parse_dialect_string("gnu:a=1,b,c=");
    assert_eq!(name, "gnu");
    assert_eq!(
        args,
        vec![
            ("a".to_string(), Some("1".to_string())),
            ("b".to_string(), None),
            ("c".to_string(), Some("".to_string())),
        ]
    );

    let (name, args) = parse_dialect_string("bare");
    assert_eq!(name, "bare");
    assert!(args.is_empty());
}
