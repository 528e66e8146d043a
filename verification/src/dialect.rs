//! The closed set of dialects, and the decoder that turns a configuration
//! string of the form `name:key1=val1,key2,...` into a typed dialect.
//!
//! The decoder is a small dedicated mapper from flat key/value pairs to the
//! configuration's fields. A key for a boolean field is given bare and means
//! true; with a leading `-` it means false; a key for an enumerated field
//! carries its value after `=`.

use vstd::prelude::*;
use vstd::string::{StrSliceExecFns, StringExecFns};

use crate::gnu::{Gnu, LongOptionArgumentFormat, PositionalArgumentsMode};
use crate::grammar::{
    generate_result_view, parse_result_view, Grammar, GrammarError, GrammarErrorV,
};
use crate::parsed_args::{ArgsV, ParsedArgs};
use crate::strings::{find_char, first_index_of, str_eq};

verus! {

/// A named set of argument-syntax rules; the extension point for future
/// dialects.
#[derive(Clone, Copy, Debug, PartialEq, Eq, Structural)]
pub enum Dialect {
    Gnu(Gnu),
}

impl Grammar for Dialect {
    open spec fn parse_spec(&self, tokens: Seq<Seq<char>>) -> Result<ArgsV, GrammarErrorV> {
        match self {
            Dialect::Gnu(g) => g.parse_spec(tokens),
        }
    }

    open spec fn generate_spec(&self, args: ArgsV) -> Result<Seq<Seq<char>>, GrammarErrorV> {
        match self {
            Dialect::Gnu(g) => g.generate_spec(args),
        }
    }

    fn parse(&self, args: Vec<String>) -> (r: Result<ParsedArgs, GrammarError>)
        ensures
            parse_result_view(r) == self.parse_spec(args.deep_view()),
    {
        match self {
            Dialect::Gnu(g) => g.parse(args),
        }
    }

    fn generate_vec(&self, args: ParsedArgs) -> (r: Result<Vec<String>, GrammarError>)
        ensures
            generate_result_view(r) == self.generate_spec(args@),
    {
        match self {
            Dialect::Gnu(g) => g.generate_vec(args),
        }
    }
}

/// A failure to decode a configuration string, with a human-readable cause.
#[derive(Debug)]
pub struct SimpleError {
    message: String,
}

impl SimpleError {
    /// The human-readable cause.
    pub fn message(&self) -> &str {
        self.message.as_str()
    }
}

/// One `key[=value]` argument as split at its first `=`.
pub open spec fn spec_pair(s: Seq<char>) -> (Seq<char>, Option<Seq<char>>) {
    let p = first_index_of(s, '=');
    if !(0 <= p < s.len()) {
        (s, None)
    } else {
        (s.take(p), Some(s.skip(p + 1)))
    }
}

/// The comma-separated arguments, each split at its first `=`. An empty
/// piece yields an empty key.
pub open spec fn spec_pairs(s: Seq<char>) -> Seq<(Seq<char>, Option<Seq<char>>)>
    decreases s.len(),
{
    let p = first_index_of(s, ',');
    if !(0 <= p < s.len()) {
        seq![spec_pair(s)]
    } else {
        seq![spec_pair(s.take(p))] + spec_pairs(s.skip(p + 1))
    }
}

/// A configuration string split at its first `:` into the dialect name and
/// its arguments; no arguments at all yield the empty sequence.
pub open spec fn spec_dialect_name(s: Seq<char>) -> Seq<char> {
    let p = first_index_of(s, ':');
    if !(0 <= p < s.len()) {
        s
    } else {
        s.take(p)
    }
}

/// The argument pairs of a configuration string (see [`spec_dialect_name`]).
pub open spec fn spec_dialect_pairs(s: Seq<char>) -> Seq<(Seq<char>, Option<Seq<char>>)> {
    let p = first_index_of(s, ':');
    if !(0 <= p < s.len()) {
        Seq::empty()
    } else if s.skip(p + 1).len() == 0 {
        Seq::empty()
    } else {
        spec_pairs(s.skip(p + 1))
    }
}

/// The positional mode a value names, if any.
pub open spec fn spec_mode_of(v: Seq<char>) -> Option<PositionalArgumentsMode> {
    if v == "forbidden"@ {
        Some(PositionalArgumentsMode::Forbidden)
    } else if v == "free"@ {
        Some(PositionalArgumentsMode::Free)
    } else if v == "explicit"@ {
        Some(PositionalArgumentsMode::Explicit)
    } else {
        None
    }
}

/// The long-argument format a value names, if any.
pub open spec fn spec_format_of(v: Seq<char>) -> Option<LongOptionArgumentFormat> {
    if v == "equals"@ {
        Some(LongOptionArgumentFormat::Equals)
    } else if v == "space"@ {
        Some(LongOptionArgumentFormat::Space)
    } else {
        None
    }
}

/// One argument applied to a configuration: enumerated fields take their
/// value after `=`; boolean fields are set by bare presence, or cleared by
/// a leading `-`; anything else fails.
pub open spec fn spec_apply_arg(g: Gnu, key: Seq<char>, val: Option<Seq<char>>) -> Option<Gnu> {
    let neg = val is None && key.len() >= 1 && key[0] == '-';
    let k = if neg {
        key.skip(1)
    } else {
        key
    };
    if k == "positional"@ {
        match val {
            Some(v) => match spec_mode_of(v) {
                Some(m) => Some(Gnu { positional: m, ..g }),
                None => None,
            },
            None => None,
        }
    } else if k == "explicit_positional"@ {
        if val is None {
            Some(Gnu { explicit_positional: !neg, ..g })
        } else {
            None
        }
    } else if k == "grouping"@ {
        if val is None {
            Some(Gnu { grouping: !neg, ..g })
        } else {
            None
        }
    } else if k == "long_arg"@ {
        match val {
            Some(v) => match spec_format_of(v) {
                Some(f) => Some(Gnu { long_arg: f, ..g }),
                None => None,
            },
            None => None,
        }
    } else {
        None
    }
}

/// The argument pairs folded, left to right, over a configuration.
pub open spec fn spec_decode_gnu(
    pairs: Seq<(Seq<char>, Option<Seq<char>>)>,
    g: Gnu,
) -> Option<Gnu>
    decreases pairs.len(),
{
    if pairs.len() == 0 {
        Some(g)
    } else {
        match spec_apply_arg(g, pairs[0].0, pairs[0].1) {
            Some(g2) => spec_decode_gnu(pairs.skip(1), g2),
            None => None,
        }
    }
}

/// The default Gnu configuration.
pub open spec fn spec_gnu_default() -> Gnu {
    Gnu {
        positional: PositionalArgumentsMode::Explicit,
        explicit_positional: true,
        grouping: true,
        long_arg: LongOptionArgumentFormat::Equals,
    }
}

/// The dialect a configuration string decodes to, if any: the name before
/// the first `:` picks the dialect, and the comma-separated arguments after
/// it are folded over that dialect's defaults.
pub open spec fn spec_parse_dialect(s: Seq<char>) -> Option<Dialect> {
    if spec_dialect_name(s) == "gnu"@ {
        match spec_decode_gnu(spec_dialect_pairs(s), spec_gnu_default()) {
            Some(g) => Some(Dialect::Gnu(g)),
            None => None,
        }
    } else {
        None
    }
}

/// Splits a configuration string into its dialect name and its `key[=value]`
/// argument pairs.
pub fn parse_dialect_string(value: &str) -> (r: (String, Vec<(String, Option<String>)>))
    ensures
        r.0@ == spec_dialect_name(value@),
        r.1.deep_view() == spec_dialect_pairs(value@),
{
    proof {
        crate::strings::lemma_first_index_of_range(value@, ':');
    }
    let n = value.unicode_len();
    match find_char(value, ':') {
        None => {
            let empty: Vec<(String, Option<String>)> = Vec::new();
            proof {
                assert(empty.deep_view() =~= Seq::<(Seq<char>, Option<Seq<char>>)>::empty());
            }
            (value.to_owned(), empty)
        },
        Some(p) => {
            let name = value.substring_char(0, p).to_owned();
            let args = value.substring_char(p + 1, n);
            if args.unicode_len() == 0 {
                let empty: Vec<(String, Option<String>)> = Vec::new();
                proof {
                    assert(empty.deep_view() =~= Seq::<(Seq<char>, Option<Seq<char>>)>::empty());
                }
                return (name, empty);
            }
            let mut pairs: Vec<(String, Option<String>)> = Vec::new();
            split_pairs(args, &mut pairs);
            proof {
                assert(pairs.deep_view() =~= spec_pairs(args@));
            }
            (name, pairs)
        },
    }
}

/// Appends the `key[=value]` pairs of a comma-separated argument string.
fn split_pairs(args: &str, acc: &mut Vec<(String, Option<String>)>)
    ensures
        final(acc).deep_view() == old(acc).deep_view() + spec_pairs(args@),
    decreases args@.len(),
{
    proof {
        crate::strings::lemma_first_index_of_range(args@, ',');
    }
    let n = args.unicode_len();
    match find_char(args, ',') {
        None => {
            acc.push(split_pair(args));
            proof {
                assert(acc.deep_view() =~~= old(acc).deep_view() + spec_pairs(args@));
            }
        },
        Some(p) => {
            let head = args.substring_char(0, p);
            let tail = args.substring_char(p + 1, n);
            acc.push(split_pair(head));
            let ghost mid = acc.deep_view();
            split_pairs(tail, acc);
            proof {
                assert(acc.deep_view() =~~= old(acc).deep_view() + spec_pairs(args@));
            }
        },
    }
}

/// Splits one argument at its first `=` into key and optional value.
fn split_pair(s: &str) -> (r: (String, Option<String>))
    ensures
        (r.0@, match r.1 {
            Some(v) => Some(v@),
            None => None,
        }) == spec_pair(s@),
{
    proof {
        crate::strings::lemma_first_index_of_range(s@, '=');
    }
    let n = s.unicode_len();
    match find_char(s, '=') {
        None => (s.to_owned(), None),
        Some(p) => {
            let key = s.substring_char(0, p).to_owned();
            let val = s.substring_char(p + 1, n).to_owned();
            (key, Some(val))
        },
    }
}

/// Applies one `key[=value]` argument to a configuration, exactly as
/// [`spec_apply_arg`] says; the error names the offending key.
fn apply_arg(g: Gnu, key: &str, val: &Option<String>) -> (r: Result<Gnu, SimpleError>)
    ensures
        match spec_apply_arg(
            g,
            key@,
            match val {
                Some(v) => Some(v@),
                None => None,
            },
        ) {
            Some(g2) => r matches Ok(got) && got == g2,
            None => r is Err,
        },
{
    let neg = val.is_none() && key.unicode_len() >= 1 && key.get_char(0) == '-';
    let k: &str = if neg {
        key.substring_char(1, key.unicode_len())
    } else {
        key
    };
    proof {
        if neg {
            assert(k@ =~= key@.skip(1));
        }
    }
    if str_eq(k, "positional") {
        match val {
            Some(v) => {
                if str_eq(v.as_str(), "forbidden") {
                    Ok(Gnu { positional: PositionalArgumentsMode::Forbidden, ..g })
                } else if str_eq(v.as_str(), "free") {
                    Ok(Gnu { positional: PositionalArgumentsMode::Free, ..g })
                } else if str_eq(v.as_str(), "explicit") {
                    Ok(Gnu { positional: PositionalArgumentsMode::Explicit, ..g })
                } else {
                    Err(SimpleError { message: unknown_value_message(v.as_str()) })
                }
            },
            None => Err(SimpleError { message: missing_value_message(k) }),
        }
    } else if str_eq(k, "explicit_positional") {
        match val {
            Some(_) => Err(SimpleError { message: not_boolean_message(k) }),
            None => Ok(Gnu { explicit_positional: !neg, ..g }),
        }
    } else if str_eq(k, "grouping") {
        match val {
            Some(_) => Err(SimpleError { message: not_boolean_message(k) }),
            None => Ok(Gnu { grouping: !neg, ..g }),
        }
    } else if str_eq(k, "long_arg") {
        match val {
            Some(v) => {
                if str_eq(v.as_str(), "equals") {
                    Ok(Gnu { long_arg: LongOptionArgumentFormat::Equals, ..g })
                } else if str_eq(v.as_str(), "space") {
                    Ok(Gnu { long_arg: LongOptionArgumentFormat::Space, ..g })
                } else {
                    Err(SimpleError { message: unknown_value_message(v.as_str()) })
                }
            },
            None => Err(SimpleError { message: missing_value_message(k) }),
        }
    } else {
        Err(SimpleError { message: unknown_field_message(k) })
    }
}

fn unknown_field_message(key: &str) -> String {
    String::from_str("unknown field '").concat(key).concat("'")
}

fn unknown_value_message(v: &str) -> String {
    String::from_str("unknown value '").concat(v).concat("'")
}

fn missing_value_message(key: &str) -> String {
    String::from_str("a value is expected for '").concat(key).concat("'")
}

fn not_boolean_message(key: &str) -> String {
    String::from_str("no value is expected for '").concat(key).concat("'")
}

/// Decodes a configuration string into a dialect, exactly as
/// [`spec_parse_dialect`] says: `Ok` exactly when the string names a known
/// dialect and every argument fits its configuration.
pub fn parse_dialect(value: &str) -> (r: Result<Dialect, SimpleError>)
    ensures
        match spec_parse_dialect(value@) {
            Some(d) => r matches Ok(got) && got == d,
            None => r is Err,
        },
{
    let (name, args) = parse_dialect_string(value);
    if !str_eq(name.as_str(), "gnu") {
        return Err(
            SimpleError {
                message: String::from_str("Unknown dialect ").concat(name.as_str()),
            },
        );
    }
    let ghost pairs = args.deep_view();
    let mut g = Gnu::default();
    let mut i: usize = 0;
    proof {
        assert(pairs.skip(0) =~= pairs);
    }
    while i < args.len()
        invariant
            i <= args.len(),
            pairs == args.deep_view(),
            pairs == spec_dialect_pairs(value@),
            spec_dialect_name(value@) == "gnu"@,
            spec_decode_gnu(pairs.skip(i as int), g) == spec_decode_gnu(
                pairs,
                spec_gnu_default(),
            ),
        decreases args.len() - i,
    {
        let pair = &args[i];
        proof {
            assert(pairs.skip(i as int)[0] == pairs[i as int]);
            assert(pairs.skip(i as int).skip(1) =~= pairs.skip(i + 1));
        }
        proof {
            let pv = pairs[i as int];
            assert(pv.0 == pair.0@);
            assert(pv.1 == (match pair.1 {
                Some(v) => Some(v@),
                None => None::<Seq<char>>,
            }));
        }
        match apply_arg(g, pair.0.as_str(), &pair.1) {
            Ok(g2) => {
                g = g2;
            },
            Err(e) => {
                proof {
                    assert(spec_decode_gnu(pairs.skip(i as int), g) is None);
                    assert(spec_decode_gnu(pairs, spec_gnu_default()) is None);
                    assert(spec_dialect_name(value@) == "gnu"@);
                    assert(spec_parse_dialect(value@) is None);
                }
                return Err(e);
            },
        }
        i = i + 1;
    }
    proof {
        assert(pairs.skip(args@.len() as int) =~= Seq::<(Seq<char>, Option<Seq<char>>)>::empty());
    }
    Ok(Dialect::Gnu(g))
}

} // verus!
