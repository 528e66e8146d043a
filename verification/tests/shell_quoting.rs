//! Tests of the shell-quoting layer.

use rewargs::shell::{quote, should_be_quoted};

#[test]
fn plain_tokens_pass_through() {
    assert_eq!(quote("abc"), "abc");
    assert_eq!(quote("--foo=bar"), "--foo=bar");
    assert_eq!(quote("-x"), "-x");
}

#[test]
fn an_empty_token_becomes_empty_quotes() {
    assert_eq!(quote(""), "\"\"");
}

#[test]
fn special_characters_force_quoting() {
    assert_eq!(quote("a b"), "\"a b\"");
    assert_eq!(quote("a|b"), "\"a|b\"");
    assert_eq!(quote("don't"), "\"don't\"");
    assert_eq!(quote("x#y"), "\"x#y\"");
    assert_eq!(quote("100%"), "\"100%\"");
    assert_eq!(quote("tab\there"), "\"tab\there\"");
}

#[test]
fn escapable_characters_get_backslashes() {
    assert_eq!(quote("a$b"), "\"a\\$b\"");
    assert_eq!(quote("a`b"), "\"a\\`b\"");
    assert_eq!(quote("a\"b"), "\"a\\\"b\"");
    assert_eq!(quote("a\\b"), "\"a\\\\b\"");
    assert_eq!(quote("$`\"\\"), "\"\\$\\`\\\"\\\\\"");
}

#[test]
fn the_special_set_is_exact() {
    for c in "|&;<>()$*?[#~% \"`\\'\t\r\n".chars() {
        assert!(should_be_quoted(c));
    }
    for c in "abcXYZ019_-=./:,{}]!^+".chars() {
        assert!(!should_be_quoted(c));
    }
}
