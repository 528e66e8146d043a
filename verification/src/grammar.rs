//! The grammar capability: the parse/generate contract a dialect implements.
//!
//! A dialect turns raw argument tokens into a [`ParsedArgs`] and back. Each
//! implementation names its exact token mapping as two spec functions, and
//! its executable methods are proved to follow them.

use vstd::prelude::*;
use vstd::string::StringExecFns;

use crate::parsed_args::{ArgsV, ParsedArgs};

verus! {

/// A grammar-level parse failure: a dialect rule ruled the token out.
/// Each variant carries the offending token.
#[derive(Debug)]
pub enum GrammarError {
    /// A positional argument appeared under the forbidding mode.
    PositionalNotAllowed { token: String },
    /// A leading unmarked argument appeared without a disambiguating
    /// separator under the explicit mode.
    PositionalNotExplicit { token: String },
    /// Several short options shared one token while grouping was off.
    GroupingNotAllowed { token: String },
}

/// The mathematical value of a [`GrammarError`].
#[verifier::ext_equal]
pub enum GrammarErrorV {
    PositionalNotAllowed { token: Seq<char> },
    PositionalNotExplicit { token: Seq<char> },
    GroupingNotAllowed { token: Seq<char> },
}

impl View for GrammarError {
    type V = GrammarErrorV;

    open spec fn view(&self) -> GrammarErrorV {
        match self {
            GrammarError::PositionalNotAllowed { token } => GrammarErrorV::PositionalNotAllowed {
                token: token@,
            },
            GrammarError::PositionalNotExplicit { token } => {
                GrammarErrorV::PositionalNotExplicit { token: token@ }
            },
            GrammarError::GroupingNotAllowed { token } => GrammarErrorV::GroupingNotAllowed {
                token: token@,
            },
        }
    }
}

impl GrammarError {
    /// A human-readable cause, with the offending token.
    pub fn message(&self) -> String {
        match self {
            GrammarError::PositionalNotAllowed { token } => String::from_str(
                "Positional arguments are not allowed: '",
            ).concat(token.as_str()).concat("'"),
            GrammarError::PositionalNotExplicit { token } => String::from_str(
                "Positional arguments must be unambiguous. Add a '--' before specifying positional arguments: '",
            ).concat(token.as_str()).concat("'"),
            GrammarError::GroupingNotAllowed { token } => String::from_str(
                "Short options cannot be grouped together: '",
            ).concat(token.as_str()).concat("'"),
        }
    }
}

/// What a parse returned, as a mathematical value.
pub open spec fn parse_result_view(r: Result<ParsedArgs, GrammarError>) -> Result<
    ArgsV,
    GrammarErrorV,
> {
    match r {
        Ok(a) => Ok(a@),
        Err(e) => Err(e@),
    }
}

/// What a generation returned, as a mathematical value.
pub open spec fn generate_result_view(r: Result<Vec<String>, GrammarError>) -> Result<
    Seq<Seq<char>>,
    GrammarErrorV,
> {
    match r {
        Ok(v) => Ok(v.deep_view()),
        Err(e) => Err(e@),
    }
}

/// The parse/generate contract, polymorphic over dialect variants. A
/// dialect states its exact behaviour in `parse_spec` and `generate_spec`,
/// and its executable methods return exactly that.
pub trait Grammar: Sized {
    /// The dialect's exact token-to-structure mapping.
    spec fn parse_spec(&self, tokens: Seq<Seq<char>>) -> Result<ArgsV, GrammarErrorV>;

    /// The dialect's exact structure-to-token mapping.
    spec fn generate_spec(&self, args: ArgsV) -> Result<Seq<Seq<char>>, GrammarErrorV>;

    /// Parses a whole token sequence, left to right, with no backtracking;
    /// consumes the whole input, with no partial result on success.
    fn parse(&self, args: Vec<String>) -> (r: Result<ParsedArgs, GrammarError>)
        ensures
            parse_result_view(r) == self.parse_spec(args.deep_view()),
    ;

    /// Emits the token sequence for an argument list, options first, then
    /// positional arguments.
    fn generate_vec(&self, args: ParsedArgs) -> (r: Result<Vec<String>, GrammarError>)
        ensures
            generate_result_view(r) == self.generate_spec(args@),
    ;
}

} // verus!
