//! Tests of the free-form script front-end.

use rewargs::{Command, CommandParser, FullCommandParser, OptName};

fn sv(xs: &[&str]) -> Vec<String> {
    xs.iter().map(|x| x.to_string()).collect()
}

fn long(n: &str) -> OptName {
    OptName::Long(n.to_string())
}

fn short(c: char) -> OptName {
    OptName::Short(c)
}

#[test]
fn empty_parse_from_empty_args() {
    let parser = FullCommandParser;
    let result = parser.parse_from_args(&Vec::<String>::new());
    assert!(result.is_ok());
    assert!(result.unwrap().is_empty());
}

#[test]
fn empty_parse_from_empty_script() {
    let parser = FullCommandParser;
    let result = parser.parse_from_script("");
    assert!(result.is_ok());
    assert!(result.unwrap().is_empty());
}

#[test]
fn empty_parse_from_empty_script_src() {
    let parser = FullCommandParser;
    let result = parser.parse_from_script_src("".as_bytes());
    assert!(result.is_ok());
    assert!(result.unwrap().is_empty());
}

#[test]
fn parse_script_with_comments_and_quotes() {
    let parser = FullCommandParser;
    let script = "\n\
        # A comment on its own line\n\
        set test=123\n\
        \n\
          # Indented comment\n\
        append '; world ; ' foo=1 # trailing comment\n\
        append ',' foo=2\n\
        radd a=\"quoted 'here' too\"\n";
    let result = parser.parse_from_script(script).unwrap();
    assert_eq!(
        result,
        vec![
            Command::SetLast { option: long("test"), values: sv(&["123"]) },
            Command::Append {
                option: long("foo"),
                delimiter: "; world ; ".to_string(),
                items: sv(&["1"]),
            },
            Command::Append { option: long("foo"), delimiter: ",".to_string(), items: sv(&["2"]) },
            Command::RepeatedAdd { option: short('a'), values: sv(&["quoted 'here' too"]) },
        ]
    );
}

#[test]
fn parse_mixed_whitespace_around_equals() {
    let parser = FullCommandParser;
    let result = parser.parse_from_script(" \t set a \t= \t bar\t\t# Mixed whitespace").unwrap();
    assert_eq!(result, vec![Command::SetLast { option: short('a'), values: sv(&["bar"]) }]);
}

#[test]
fn parse_multiple_sets_from_args() {
    let parser = FullCommandParser;
    let input = sv(&["set ignore=foo", "set ignore", "set a=1 2 three", "set b", "set long=abc def"]);
    let result = parser.parse_from_args(&input).unwrap();
    assert_eq!(
        result,
        vec![
            Command::SetLast { option: long("ignore"), values: sv(&["foo"]) },
            Command::SetLast { option: long("ignore"), values: sv(&[]) },
            Command::SetLast { option: short('a'), values: sv(&["1", "2", "three"]) },
            Command::SetLast { option: short('b'), values: sv(&[]) },
            Command::SetLast { option: long("long"), values: sv(&["abc", "def"]) },
        ]
    );
}

#[test]
fn parse_remove_and_add() {
    let parser = FullCommandParser;
    let result = parser.parse_from_args(&sv(&["remove foo", "add b=1", "radd xs=1 2"])).unwrap();
    assert_eq!(
        result,
        vec![
            Command::Remove { option: long("foo") },
            Command::Add { option: short('b'), values: sv(&["1"]) },
            Command::RepeatedAdd { option: long("xs"), values: sv(&["1", "2"]) },
        ]
    );
}

#[test]
fn parse_append_without_delimiter() {
    let parser = FullCommandParser;
    let result = parser.parse_from_args(&sv(&["append foo=a b"])).unwrap();
    assert_eq!(
        result,
        vec![Command::Append {
            option: long("foo"),
            delimiter: String::new(),
            items: sv(&["a", "b"]),
        }]
    );
}

#[test]
fn parse_escapes_in_double_quotes() {
    let parser = FullCommandParser;
    let result = parser.parse_from_args(&sv(&["set a=\"x \\\" \\\\ y\""])).unwrap();
    assert_eq!(
        result,
        vec![Command::SetLast { option: short('a'), values: sv(&["x \" \\ y"]) }]
    );
}

#[test]
fn parse_errors() {
    let parser = FullCommandParser;

    // An unknown command word
    let err = parser.parse_from_args(&sv(&["frobnicate a=1"])).unwrap_err();
    assert!(err.message().contains("unknown command"));

    // An empty option name
    let err = parser.parse_from_args(&sv(&["set ''=1"])).unwrap_err();
    assert!(err.message().contains("Option name cannot be empty"));

    // A missing '=' between name and values
    let err = parser.parse_from_args(&sv(&["set a b"])).unwrap_err();
    assert!(err.message().contains("'='"));

    // An unterminated quote
    let err = parser.parse_from_args(&sv(&["set a='oops"])).unwrap_err();
    assert!(err.message().contains("unterminated"));

    // A blank line is no command when one is required
    let err = parser.parse_from_args(&sv(&["   # only a comment"])).unwrap_err();
    assert!(err.message().contains("No command found"));

    // remove takes exactly a name
    let err = parser.parse_from_args(&sv(&["remove a b"])).unwrap_err();
    assert!(err.message().contains("remove"));
}

#[test]
fn parse_from_script_src_rejects_bad_utf8() {
    let parser = FullCommandParser;
    let err = parser.parse_from_script_src(&[0x66u8, 0xffu8]).unwrap_err();
    assert!(err.message().contains("UTF-8"));

    let ok = parser.parse_from_script_src("set a=1".as_bytes()).unwrap();
    assert_eq!(ok, vec![Command::SetLast { option: short('a'), values: sv(&["1"]) }]);
}
