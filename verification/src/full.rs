//! The free-form script front-end: reads edit commands from a small
//! line-oriented language.
//!
//! Each non-blank line holds one command:
//!
//! ```text
//! set   NAME[=VALUE...]      overwrite the last occurrence of NAME
//! add   NAME[=VALUE...]      append a new occurrence
//! radd  NAME[=VALUE...]      append one occurrence per value
//! remove NAME                delete every occurrence
//! append [DELIM] NAME[=VALUE...]   extend the last occurrence
//! ```
//!
//! Whitespace may surround the `=`. A value is a bare word, a raw
//! single-quoted string, or a double-quoted string in which a backslash
//! escapes the next character; a bare word ends at whitespace, `=`, `#` or
//! a quote, so a value holding one of those is written quoted. `#` outside
//! quotes starts a comment running to the end of the line. The delimiter of
//! `append` is recognized by being quoted.

use vstd::prelude::*;
use vstd::string::{StrSliceExecFns, StringExecFns};

use crate::commands::{cmd_wf, cmds_wf, Command, CommandError, CommandParser};
use crate::parsed_args::OptName;
use crate::strings::{decode_utf8, find_char, push_char, str_eq};

verus! {

/// The syntax front-end for the free-form script language.
#[derive(Debug)]
pub struct FullCommandParser;

impl Default for FullCommandParser {
    /// The parser is stateless.
    fn default() -> (r: Self) {
        FullCommandParser
    }
}

/// One token of a command line, with whether it was quoted: a quoted token
/// never acts as an `=` separator or as a delimiter marker.
struct Token {
    text: String,
    quoted: bool,
}

/// Whether a character ends a bare (unquoted) word.
fn ends_bare_word(c: char) -> bool {
    c == ' ' || c == '\t' || c == '\r' || c == '=' || c == '#' || c == '\'' || c == '"'
}

/// Splits one line into tokens; an empty line has none.
fn tokenize(line: &str) -> (r: Result<Vec<Token>, CommandError>)
    ensures
        line@.len() == 0 ==> (r matches Ok(toks) && toks@.len() == 0),
{
    let n = line.unicode_len();
    let mut toks: Vec<Token> = Vec::new();
    let mut i: usize = 0;
    proof {
        assert(line@.len() == 0 ==> toks@.len() == 0);
    }
    while i < n
        invariant
            i <= n,
            n == line@.len(),
            n == 0 ==> toks@.len() == 0,
        decreases n - i,
    {
        let c = line.get_char(i);
        if c == ' ' || c == '\t' || c == '\r' {
            i = i + 1;
        } else if c == '#' {
            break ;
        } else if c == '=' {
            toks.push(Token { text: String::from_str("="), quoted: false });
            i = i + 1;
        } else if c == '\'' {
            let mut j = i + 1;
            while j < n && line.get_char(j) != '\''
                invariant
                    i + 1 <= j <= n,
                    n == line@.len(),
                decreases n - j,
            {
                j = j + 1;
            }
            if j >= n {
                return Err(CommandError::new(String::from_str("unterminated quoted string")));
            }
            toks.push(Token { text: line.substring_char(i + 1, j).to_owned(), quoted: true });
            i = j + 1;
        } else if c == '"' {
            let mut j = i + 1;
            let mut text = String::new();
            let mut closed = false;
            while j < n && !closed
                invariant
                    i + 1 <= j <= n,
                    n == line@.len(),
                decreases n - j,
            {
                let cj = line.get_char(j);
                if cj == '"' {
                    closed = true;
                    j = j + 1;
                } else if cj == '\\' {
                    if j + 1 >= n {
                        return Err(
                            CommandError::new(
                                String::from_str("a backslash must be followed by a character"),
                            ),
                        );
                    }
                    push_char(&mut text, line.get_char(j + 1));
                    j = j + 2;
                } else {
                    push_char(&mut text, cj);
                    j = j + 1;
                }
            }
            if !closed {
                return Err(CommandError::new(String::from_str("unterminated quoted string")));
            }
            toks.push(Token { text, quoted: true });
            i = j;
        } else {
            let mut j = i + 1;
            while j < n && !ends_bare_word(line.get_char(j))
                invariant
                    i + 1 <= j <= n,
                    n == line@.len(),
                decreases n - j,
            {
                j = j + 1;
            }
            toks.push(Token { text: line.substring_char(i, j).to_owned(), quoted: false });
            i = j;
        }
    }
    Ok(toks)
}

/// Reads an option name from a token; an empty token is no name.
fn expect_name(tok: &Token) -> (r: Result<OptName, CommandError>)
    ensures
        r matches Ok(n) ==> crate::commands::name_wf(n@),
{
    match OptName::try_from_str(tok.text.as_str()) {
        Some(n) => Ok(n),
        None => Err(CommandError::new(String::from_str("Option name cannot be empty"))),
    }
}

/// Reads `NAME[=VALUE...]` from the tokens at `start` to the line's end.
fn expect_name_values(toks: &Vec<Token>, start: usize) -> (r: Result<
    (OptName, Vec<String>),
    CommandError,
>)
    ensures
        r matches Ok(nv) ==> crate::commands::name_wf(nv.0@),
{
    if start >= toks.len() {
        return Err(CommandError::new(String::from_str("an option name is expected")));
    }
    let name = match expect_name(&toks[start]) {
        Ok(n) => n,
        Err(e) => {
            return Err(e);
        },
    };
    let mut values: Vec<String> = Vec::new();
    if start + 1 >= toks.len() {
        return Ok((name, values));
    }
    let sep = &toks[start + 1];
    if sep.quoted || !str_eq(sep.text.as_str(), "=") {
        return Err(CommandError::new(String::from_str("'=' is expected after the option name")));
    }
    let mut j = start + 2;
    while j < toks.len()
        invariant
            j <= toks.len(),
        decreases toks.len() - j,
    {
        values.push(toks[j].text.clone());
        j = j + 1;
    }
    Ok((name, values))
}

/// Reads one line: no command at all on a blank or comment line, one
/// command otherwise.
fn parse_line(line: &str) -> (r: Result<Option<Command>, CommandError>)
    ensures
        line@.len() == 0 ==> (r matches Ok(c) && c is None),
        match r {
            Ok(c) => match c {
                Some(cmd) => cmd_wf(cmd@),
                None => true,
            },
            Err(_) => true,
        },
{
    let toks = match tokenize(line) {
        Ok(toks) => toks,
        Err(e) => {
            return Err(e);
        },
    };
    if toks.len() == 0 {
        return Ok(None);
    }
    let verb = &toks[0];
    if verb.quoted {
        return Err(CommandError::new(String::from_str("a command name cannot be quoted")));
    }
    if str_eq(verb.text.as_str(), "remove") {
        if toks.len() != 2 {
            return Err(
                CommandError::new(String::from_str("'remove' takes exactly an option name")),
            );
        }
        let name = match expect_name(&toks[1]) {
            Ok(n) => n,
            Err(e) => {
                return Err(e);
            },
        };
        Ok(Some(Command::Remove { option: name }))
    } else if str_eq(verb.text.as_str(), "set") {
        match expect_name_values(&toks, 1) {
            Ok((option, values)) => Ok(Some(Command::SetLast { option, values })),
            Err(e) => Err(e),
        }
    } else if str_eq(verb.text.as_str(), "add") {
        match expect_name_values(&toks, 1) {
            Ok((option, values)) => Ok(Some(Command::Add { option, values })),
            Err(e) => Err(e),
        }
    } else if str_eq(verb.text.as_str(), "radd") {
        match expect_name_values(&toks, 1) {
            Ok((option, values)) => Ok(Some(Command::RepeatedAdd { option, values })),
            Err(e) => Err(e),
        }
    } else if str_eq(verb.text.as_str(), "append") {
        let has_delim = toks.len() >= 2 && toks[1].quoted;
        let delimiter = if has_delim {
            toks[1].text.clone()
        } else {
            String::new()
        };
        let start: usize = if has_delim {
            2
        } else {
            1
        };
        match expect_name_values(&toks, start) {
            Ok((option, items)) => Ok(Some(Command::Append { option, delimiter, items })),
            Err(e) => Err(e),
        }
    } else {
        Err(CommandError::new(String::from_str("unknown command '").concat(
            verb.text.as_str(),
        ).concat("'")))
    }
}

/// Reads every line of a script, appending the commands found.
fn parse_script_lines(script: &str, acc: &mut Vec<Command>) -> (r: Result<(), CommandError>)
    ensures
        r is Ok ==> {
            &&& final(acc)@.len() >= old(acc)@.len()
            &&& final(acc)@.subrange(0, old(acc)@.len() as int) == old(acc)@
            &&& forall|i: int|
                old(acc)@.len() <= i < final(acc)@.len() ==> cmd_wf((#[trigger] final(acc)@[i])@)
            &&& (script@.len() == 0 ==> final(acc)@.len() == old(acc)@.len())
        },
    decreases script@.len(),
{
    proof {
        crate::strings::lemma_first_index_of_range(script@, '\n');
    }
    let n = script.unicode_len();
    match find_char(script, '\n') {
        None => {
            match parse_line(script) {
                Ok(Some(cmd)) => {
                    acc.push(cmd);
                    proof {
                        assert(acc@.subrange(0, old(acc)@.len() as int) =~= old(acc)@);
                    }
                    Ok(())
                },
                Ok(None) => {
                    proof {
                        assert(acc@.subrange(0, old(acc)@.len() as int) =~= old(acc)@);
                    }
                    Ok(())
                },
                Err(e) => Err(e),
            }
        },
        Some(p) => {
            let head = script.substring_char(0, p);
            let tail = script.substring_char(p + 1, n);
            match parse_line(head) {
                Ok(Some(cmd)) => {
                    acc.push(cmd);
                },
                Ok(None) => {},
                Err(e) => {
                    return Err(e);
                },
            }
            let ghost mid = acc@;
            let r = parse_script_lines(tail, acc);
            proof {
                if r is Ok {
                    assert(mid.subrange(0, old(acc)@.len() as int) =~= old(acc)@);
                    assert forall|k: int| 0 <= k < old(acc)@.len() implies acc@[k] == old(
                        acc,
                    )@[k] by {
                        assert(acc@.subrange(0, mid.len() as int)[k] == acc@[k]);
                        assert(mid.subrange(0, old(acc)@.len() as int)[k] == mid[k]);
                    }
                    assert(acc@.subrange(0, old(acc)@.len() as int) =~= old(acc)@);
                    assert forall|i: int|
                        old(acc)@.len() <= i < acc@.len() implies cmd_wf(
                        (#[trigger] acc@[i])@,
                    ) by {
                        if i < mid.len() {
                            assert(acc@.subrange(0, mid.len() as int)[i] == acc@[i]);
                            assert(acc@[i] == mid[i]);
                        }
                    }
                }
            }
            r
        },
    }
}

impl CommandParser for FullCommandParser {
    fn parse_from_script_src(&self, script: &[u8]) -> (r: Result<Vec<Command>, CommandError>)
        ensures
            match r {
                Ok(cmds) => cmds_wf(cmds@) && (script@.len() == 0 ==> cmds@.len() == 0),
                Err(_) => true,
            },
    {
        match decode_utf8(script) {
            Some(text) => self.parse_from_script(text.as_str()),
            None => Err(CommandError::new(String::from_str("the script is not valid UTF-8"))),
        }
    }

    fn parse_from_script(&self, script: &str) -> (r: Result<Vec<Command>, CommandError>)
        ensures
            match r {
                Ok(cmds) => cmds_wf(cmds@) && (script@.len() == 0 ==> cmds@.len() == 0),
                Err(_) => true,
            },
    {
        let mut cmds: Vec<Command> = Vec::new();
        match parse_script_lines(script, &mut cmds) {
            Ok(()) => Ok(cmds),
            Err(e) => Err(e),
        }
    }

    fn parse_from_args(&self, commands: &Vec<String>) -> (r: Result<Vec<Command>, CommandError>)
        ensures
            match r {
                Ok(cmds) => cmds_wf(cmds@) && cmds@.len() == commands@.len(),
                Err(_) => true,
            },
    {
        let mut cmds: Vec<Command> = Vec::new();
        let mut i: usize = 0;
        while i < commands.len()
            invariant
                i <= commands.len(),
                cmds@.len() == i,
                cmds_wf(cmds@),
            decreases commands.len() - i,
        {
            match parse_line(commands[i].as_str()) {
                Ok(Some(cmd)) => {
                    cmds.push(cmd);
                },
                Ok(None) => {
                    return Err(
                        CommandError::new(
                            String::from_str("No command found in input: ").concat(
                                commands[i].as_str(),
                            ),
                        ),
                    );
                },
                Err(e) => {
                    return Err(e);
                },
            }
            i = i + 1;
        }
        Ok(cmds)
    }
}

} // verus!
