//! Tests of the Gnu grammar: parsing, generation, and their round trip.

use rewargs::gnu::split_kv;
use rewargs::{
    Gnu, Grammar, LongOptionArgumentFormat, OptName, ParsedArgs, ParsedOpt,
    PositionalArgumentsMode,
};

fn sv(xs: &[&str]) -> Vec<String> {
    xs.iter().map(|x| x.to_string()).collect()
}

fn short(c: char, vals: &[&str]) -> ParsedOpt {
    ParsedOpt { name: OptName::Short(c), values: sv(vals) }
}

fn long(n: &str, vals: &[&str]) -> ParsedOpt {
    ParsedOpt { name: OptName::Long(n.to_string()), values: sv(vals) }
}

fn parse_arr(g: &Gnu, args: &[&str]) -> Result<ParsedArgs, rewargs::GrammarError> {
    g.parse(sv(args))
}

#[test]
fn test_split_kv() {
    assert_eq!(split_kv("foo"), ("foo".to_string(), None));
    assert_eq!(split_kv("foo="), ("foo".to_string(), Some("".to_string())));
    assert_eq!(split_kv("foo=bar"), ("foo".to_string(), Some("bar".to_string())));

    // Corner cases
    assert_eq!(split_kv(""), ("".to_string(), None));
    assert_eq!(split_kv("="), ("".to_string(), Some("".to_string())));
    assert_eq!(split_kv("1=2"), ("1".to_string(), Some("2".to_string())));
}

#[test]
fn test_parse_normal() {
    let grammar = Gnu::default();

    // Without positional arguments
    let parsed = parse_arr(
        &grammar,
        &["-a", "a1", "a2", "-bc", "c1", "c2", "c3", "--foo=bar", "baz", "bug"],
    )
    .unwrap();
    assert_eq!(
        parsed.options,
        vec![
            short('a', &["a1", "a2"]),
            short('b', &[]),
            short('c', &["c1", "c2", "c3"]),
            long("foo", &["bar", "baz", "bug"]),
        ]
    );
    assert!(parsed.positional.is_empty());

    // With positional arguments
    let parsed = parse_arr(
        &grammar,
        &["-a", "a1", "a2", "-bc", "c1", "c2", "c3", "--foo=bar", "baz", "bug", "--", "pos1", "pos2"],
    )
    .unwrap();
    assert_eq!(
        parsed.options,
        vec![
            short('a', &["a1", "a2"]),
            short('b', &[]),
            short('c', &["c1", "c2", "c3"]),
            long("foo", &["bar", "baz", "bug"]),
        ]
    );
    assert_eq!(parsed.positional, sv(&["pos1", "pos2"]));

    // One short option
    let parsed = parse_arr(&grammar, &["-z"]).unwrap();
    assert_eq!(parsed.options, vec![short('z', &[])]);
    assert!(parsed.positional.is_empty());

    // One long option
    let parsed = parse_arr(&grammar, &["--z"]).unwrap();
    assert_eq!(parsed.options, vec![long("z", &[])]);
    assert!(parsed.positional.is_empty());

    // All args after -- are treated as positional
    let parsed = parse_arr(&grammar, &["-a", "arg1", "--", "-f", "--foo"]).unwrap();
    assert_eq!(parsed.options, vec![short('a', &["arg1"])]);
    assert_eq!(parsed.positional, sv(&["-f", "--foo"]));

    // Only positional arguments, starting with --
    let parsed = parse_arr(&grammar, &["--", "pos1", "pos2"]).unwrap();
    assert!(parsed.options.is_empty());
    assert_eq!(parsed.positional, sv(&["pos1", "pos2"]));
}

#[test]
fn test_parse_free() {
    let grammar = Gnu { positional: PositionalArgumentsMode::Free, ..Gnu::default() };

    // Without arguments separator
    let parsed =
        parse_arr(&grammar, &["pos1", "-a", "pos2", "-bc", "--foo=bar", "pos3", "pos4"]).unwrap();
    assert_eq!(
        parsed.options,
        vec![short('a', &[]), short('b', &[]), short('c', &[]), long("foo", &["bar"])]
    );
    assert_eq!(parsed.positional, sv(&["pos1", "pos2", "pos3", "pos4"]));

    // With argument separator (all args after -- are treated as positional)
    let parsed =
        parse_arr(&grammar, &["pos1", "-a", "-", "--", "-bc", "--foo=bar", "pos2"]).unwrap();
    assert_eq!(parsed.options, vec![short('a', &[])]);
    assert_eq!(parsed.positional, sv(&["pos1", "-", "-bc", "--foo=bar", "pos2"]));

    // Only positional arguments
    let parsed = parse_arr(&grammar, &["pos1", "pos2"]).unwrap();
    assert!(parsed.options.is_empty());
    assert_eq!(parsed.positional, sv(&["pos1", "pos2"]));

    // Only positional arguments, starting with --
    let parsed = parse_arr(&grammar, &["--", "--", "pos1", "pos2"]).unwrap();
    assert!(parsed.options.is_empty());
    assert_eq!(parsed.positional, sv(&["--", "pos1", "pos2"]));
}

#[test]
fn test_parse_empty_args() {
    let grammar = Gnu::default();
    let parsed = parse_arr(&grammar, &[]).unwrap();
    assert!(parsed.options.is_empty());
    assert!(parsed.positional.is_empty());
}

#[test]
fn test_forbidden_pos_arg_fails() {
    // Positional arguments are not forbidden, but must be explicit
    let grammar = Gnu::default();
    let err = parse_arr(&grammar, &["pos1", "-a"]).unwrap_err();
    assert!(err.message().contains("Positional arguments must be unambiguous"));

    let forbidden_grammar = Gnu { positional: PositionalArgumentsMode::Forbidden, ..Gnu::default() };
    let err = parse_arr(&forbidden_grammar, &["pos1", "-a"]).unwrap_err();
    assert!(err.message().contains("Positional arguments are not allowed"));

    let forbidden_grammar = Gnu { positional: PositionalArgumentsMode::Forbidden, ..Gnu::default() };
    let err = parse_arr(&forbidden_grammar, &["-a", "--"]).unwrap_err();
    assert!(err.message().contains("Positional arguments are not allowed"));
    let err = parse_arr(&forbidden_grammar, &["-a", "--", "-x"]).unwrap_err();
    assert!(err.message().contains("Positional arguments are not allowed"));
    let err = parse_arr(&forbidden_grammar, &["--"]).unwrap_err();
    assert!(err.message().contains("Positional arguments are not allowed"));
    let err = parse_arr(&forbidden_grammar, &["--", "-x"]).unwrap_err();
    assert!(err.message().contains("Positional arguments are not allowed"));
}

#[test]
fn test_parse_edge_cases() {
    let grammar = Gnu::default();

    // Empty string ("") is treated as positional and fails
    assert!(parse_arr(&grammar, &["", "-a"]).is_err());

    // "-" has no option name and is therefore treated as positional (and fails)
    assert!(parse_arr(&grammar, &["", "-a"]).is_err());

    // 1st argument   "-o"  treated as option
    // 2nd argument   ""    treated as 1st (main) option argument
    // 3rd argument   "-"   treated as 2nd option argument
    // 4th argument   "--"  treated as argument separator (and ignored)
    // 5th argument   "--"  separator already encountered, so it is treated as positional
    let parsed = parse_arr(&grammar, &["-o", "", "-", "--", "--"]).unwrap();
    assert_eq!(parsed.options, vec![short('o', &["", "-"])]);
    assert_eq!(parsed.positional, sv(&["--"]));

    // Only an argument separator
    let parsed = parse_arr(&grammar, &["--"]).unwrap();
    assert!(parsed.options.is_empty());
    assert!(parsed.positional.is_empty());

    // Option arguments and an argument separator without positional arguments
    let parsed = parse_arr(&grammar, &["--foo", "-f", "bar", "--"]).unwrap();
    assert_eq!(parsed.options, vec![long("foo", &[]), short('f', &["bar"])]);
    assert!(parsed.positional.is_empty());
}

#[test]
fn test_parse_free_edge_cases() {
    let grammar = Gnu { positional: PositionalArgumentsMode::Free, ..Gnu::default() };

    // 1st argument   ""    an empty string (treated as positional)
    // 2nd argument   "-"   treated as positional (no option name)
    // 3rd argument   "--"  treated as argument separator (and ignored)
    // 4th argument   "--"  separator already encountered, so it is treated as positional
    let parsed = parse_arr(&grammar, &["", "-", "--", "--"]).unwrap();
    assert!(parsed.options.is_empty());
    assert_eq!(parsed.positional, sv(&["", "-", "--"]));

    // Only an argument separator
    let parsed = parse_arr(&grammar, &["--"]).unwrap();
    assert!(parsed.options.is_empty());
    assert!(parsed.positional.is_empty());
}

#[test]
fn test_parse_no_grouping() {
    let grammar = Gnu { grouping: false, ..Gnu::default() };

    // Ok: no grouping
    let parsed = parse_arr(&grammar, &["-a", "arg1", "--foo", "-b"]).unwrap();
    assert_eq!(parsed.options, vec![short('a', &["arg1"]), long("foo", &[]), short('b', &[])]);
    assert!(parsed.positional.is_empty());

    // Fail: no grouping
    let err = parse_arr(&grammar, &["-ab"]).unwrap_err();
    assert!(err.message().contains("cannot be grouped"));
}

#[test]
fn test_generate_explicit() {
    let equals_grammar = Gnu::default();

    // Positional args, long option with single argument, short option with no arguments
    let result = equals_grammar
        .generate_vec(ParsedArgs {
            options: vec![long("long1", &["42"]), short('s', &[])],
            positional: sv(&["pos1", "pos2"]),
        })
        .unwrap();
    assert_eq!(result, sv(&["--long1=42", "-s", "--", "pos1", "pos2"]));

    // No positional args, long option with no arguments, short option with single argument,
    // another short option with no arguments.
    let result = equals_grammar
        .generate_vec(ParsedArgs {
            options: vec![long("foo", &[]), short('a', &["42"]), short('b', &[])],
            positional: vec![],
        })
        .unwrap();
    assert_eq!(result, sv(&["--foo", "-a", "42", "-b"]));

    let result = equals_grammar
        .generate_vec(ParsedArgs {
            options: vec![short('a', &["a", "b", "c"]), long("foo", &["1", "2"])],
            positional: sv(&["x"]),
        })
        .unwrap();
    assert_eq!(result, sv(&["-a", "a", "b", "c", "--foo=1", "2", "--", "x"]));
}

#[test]
fn test_generate_explicit_with_spaces() {
    let equals_grammar = Gnu { long_arg: LongOptionArgumentFormat::Space, ..Gnu::default() };

    // Positional args, long option with single argument, short option with no arguments
    let result = equals_grammar
        .generate_vec(ParsedArgs {
            options: vec![long("long1", &["42"]), short('s', &[])],
            positional: sv(&["pos1", "pos2"]),
        })
        .unwrap();
    assert_eq!(result, sv(&["--long1", "42", "-s", "--", "pos1", "pos2"]));

    // No positional args, long option with no arguments, short option with single argument,
    // another short option with no arguments.
    let result = equals_grammar
        .generate_vec(ParsedArgs {
            options: vec![long("foo", &[]), short('a', &["42"]), short('b', &[])],
            positional: vec![],
        })
        .unwrap();
    assert_eq!(result, sv(&["--foo", "-a", "42", "-b"]));

    let result = equals_grammar
        .generate_vec(ParsedArgs {
            options: vec![short('a', &["a", "b", "c"]), long("foo", &["1", "2"])],
            positional: sv(&["x"]),
        })
        .unwrap();
    assert_eq!(result, sv(&["-a", "a", "b", "c", "--foo", "1", "2", "--", "x"]));
}

#[test]
fn test_generate_not_explicit() {
    let grammar = Gnu { explicit_positional: false, ..Gnu::default() };

    let result = grammar
        .generate_vec(ParsedArgs {
            options: vec![long("long1", &["42"]), short('s', &[])],
            positional: sv(&["pos1", "pos2"]),
        })
        .unwrap();
    assert_eq!(result, sv(&["--long1=42", "-s", "pos1", "pos2"]));

    let result = grammar
        .generate_vec(ParsedArgs {
            options: vec![short('a', &["a", "b", "c"]), long("foo", &["1", "2"])],
            positional: sv(&["x"]),
        })
        .unwrap();
    assert_eq!(result, sv(&["-a", "a", "b", "c", "--foo=1", "2", "x"]));
}

#[test]
fn test_generate_edge_cases() {
    let grammar = Gnu::default();

    // Empty arguments
    let result = grammar.generate_vec(ParsedArgs::default()).unwrap();
    assert!(result.is_empty());

    // Just positional arguments
    let result = grammar
        .generate_vec(ParsedArgs { options: vec![], positional: sv(&["Hello", "New World!"]) })
        .unwrap();
    assert_eq!(result, sv(&["--", "Hello", "New World!"]));

    // 1-character long options (non-standard in GNU)
    let result = grammar
        .generate_vec(ParsedArgs {
            options: vec![short('z', &[]), long("z", &[]), short('z', &[])],
            positional: vec![],
        })
        .unwrap();
    assert_eq!(result, sv(&["-z", "--z", "-z"]));
}

#[test]
fn round_trip_explicit_equals() {
    // Parsing, regenerating and re-parsing under the default configuration
    // (explicit positional mode, grouping on, equals format).
    let grammar = Gnu::default();
    let tokens =
        sv(&["-a", "a1", "a2", "-bc", "c1", "c2", "c3", "--foo=bar", "baz", "bug", "--", "pos1", "pos2"]);
    let parsed = grammar.parse(tokens).unwrap();
    assert_eq!(
        parsed.options,
        vec![
            short('a', &["a1", "a2"]),
            short('b', &[]),
            short('c', &["c1", "c2", "c3"]),
            long("foo", &["bar", "baz", "bug"]),
        ]
    );
    assert_eq!(parsed.positional, sv(&["pos1", "pos2"]));

    // Multi-value options re-emit their extra values as bare follow-on
    // tokens; with grouping undone, the stream is token-equivalent.
    let regenerated = grammar
        .generate_vec(ParsedArgs {
            options: parsed.options.clone(),
            positional: parsed.positional.clone(),
        })
        .unwrap();
    assert_eq!(
        regenerated,
        sv(&["-a", "a1", "a2", "-b", "-c", "c1", "c2", "c3", "--foo=bar", "baz", "bug", "--", "pos1", "pos2"])
    );

    // Re-parsing the regenerated stream gives the same structure back.
    let reparsed = grammar.parse(regenerated).unwrap();
    assert_eq!(reparsed, parsed);
}
