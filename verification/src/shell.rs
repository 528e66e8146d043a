//! Shell quoting for emitted tokens: a token holding a character the shell
//! treats specially is wrapped in double quotes, with `$`, backquote, `"`
//! and `\` backslash-escaped inside; an empty token is emitted as `""`.

use vstd::prelude::*;
use vstd::string::{StrSliceExecFns, StringExecFns};

use crate::strings::push_char;

verus! {

/// Whether a character forces the token to be quoted.
pub open spec fn spec_should_be_quoted(c: char) -> bool {
    c == '|' || c == '&' || c == ';' || c == '<' || c == '>' || c == '(' || c == ')' || c == '$'
        || c == '*' || c == '?' || c == '[' || c == '#' || c == '~' || c == '%' || c == ' ' || c
        == '"' || c == '`' || c == '\\' || c == '\'' || c == '\t' || c == '\r' || c == '\n'
}

/// Whether a character is backslash-escaped inside double quotes.
pub open spec fn spec_escape_in_quotes(c: char) -> bool {
    c == '$' || c == '`' || c == '"' || c == '\\'
}

/// A character as written inside double quotes.
pub open spec fn spec_escaped_char(c: char) -> Seq<char> {
    if spec_escape_in_quotes(c) {
        seq!['\\', c]
    } else {
        seq![c]
    }
}

/// A whole string as written inside double quotes.
pub open spec fn spec_escaped(s: Seq<char>) -> Seq<char>
    decreases s.len(),
{
    if s.len() == 0 {
        Seq::empty()
    } else {
        spec_escaped(s.drop_last()) + spec_escaped_char(s.last())
    }
}

/// The token as it is written to the shell: `""` when empty, quoted and
/// escaped when any character calls for it, verbatim otherwise.
pub open spec fn spec_quote(s: Seq<char>) -> Seq<char> {
    if s.len() == 0 {
        seq!['"', '"']
    } else if exists|i: int| 0 <= i < s.len() && spec_should_be_quoted(#[trigger] s[i]) {
        seq!['"'] + spec_escaped(s) + seq!['"']
    } else {
        s
    }
}

/// Whether the shell treats the character specially (see
/// [`spec_should_be_quoted`]).
pub fn should_be_quoted(c: char) -> (r: bool)
    ensures
        r == spec_should_be_quoted(c),
{
    c == '|' || c == '&' || c == ';' || c == '<' || c == '>' || c == '(' || c == ')' || c == '$'
        || c == '*' || c == '?' || c == '[' || c == '#' || c == '~' || c == '%' || c == ' ' || c
        == '"' || c == '`' || c == '\\' || c == '\'' || c == '\t' || c == '\r' || c == '\n'
}

/// Quotes one token for the shell, exactly as [`spec_quote`] says.
pub fn quote(in_str: &str) -> (r: String)
    ensures
        r@ == spec_quote(in_str@),
{
    let n = in_str.unicode_len();
    if n == 0 {
        let r = String::from_str("\"\"");
        proof {
            reveal_strlit("\"\"");
            assert(r@ =~= seq!['"', '"']);
        }
        return r;
    }
    let mut needs: bool = false;
    let mut i: usize = 0;
    while i < n
        invariant
            i <= n,
            n == in_str@.len(),
            needs == exists|j: int|
                0 <= j < i && spec_should_be_quoted(#[trigger] in_str@[j]),
        decreases n - i,
    {
        if should_be_quoted(in_str.get_char(i)) {
            needs = true;
        }
        i = i + 1;
    }
    if !needs {
        return in_str.to_owned();
    }
    let mut out = String::from_str("\"");
    proof {
        reveal_strlit("\"");
        assert(in_str@.subrange(0, 0) =~= Seq::<char>::empty());
        assert(out@ =~= seq!['"'] + spec_escaped(in_str@.subrange(0, 0)));
    }
    let mut k: usize = 0;
    while k < n
        invariant
            k <= n,
            n == in_str@.len(),
            out@ == seq!['"'] + spec_escaped(in_str@.subrange(0, k as int)),
        decreases n - k,
    {
        let c = in_str.get_char(k);
        if c == '$' || c == '`' || c == '"' || c == '\\' {
            push_char(&mut out, '\\');
        }
        push_char(&mut out, c);
        proof {
            assert(in_str@.subrange(0, k + 1).drop_last() =~= in_str@.subrange(0, k as int));
            assert(in_str@.subrange(0, k + 1).last() == in_str@[k as int]);
            assert(out@ =~= seq!['"'] + spec_escaped(in_str@.subrange(0, k + 1)));
        }
        k = k + 1;
    }
    push_char(&mut out, '"');
    proof {
        assert(in_str@.subrange(0, n as int) =~= in_str@);
        assert(out@ =~= seq!['"'] + spec_escaped(in_str@) + seq!['"']);
    }
    out
}

} // verus!
