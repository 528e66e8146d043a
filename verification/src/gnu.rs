//! The Gnu dialect: a configurable state machine that parses raw tokens
//! into a [`ParsedArgs`] and regenerates tokens from one.
//!
//! Parsing is a single left-to-right pass. Its exact behaviour is stated by
//! [`gnu_parse_spec`]; generation's by [`gnu_generate_spec`].

use vstd::prelude::*;
use vstd::string::{StrSliceExecFns, StringExecFns};

use crate::grammar::{
    generate_result_view, parse_result_view, Grammar, GrammarError, GrammarErrorV,
};
use crate::parsed_args::{ArgsV, OptName, OptNameV, OptV, ParsedArgs, ParsedOpt};
use crate::strings::{find_char, first_index_of, push_char};

verus! {

broadcast use vstd::seq::group_seq_axioms;

/// Where positional arguments may appear.
#[derive(Clone, Copy, Debug, PartialEq, Eq, Structural)]
pub enum PositionalArgumentsMode {
    /// Positional arguments are rejected; so is a `--` separator, even with
    /// nothing after it.
    Forbidden,
    /// Positional arguments are allowed anywhere, including before the first
    /// option; every unmarked token is positional.
    Free,
    /// Positional arguments are allowed only after an explicit `--`; an
    /// unmarked token before it binds to the preceding option.
    Explicit,
}

/// How a long option's argument is written.
#[derive(Clone, Copy, Debug, PartialEq, Eq, Structural)]
pub enum LongOptionArgumentFormat {
    /// As one token, `--option=argument`.
    Equals,
    /// As a separate token, `--option argument`.
    Space,
}

/// The Gnu grammar's configuration.
#[derive(Clone, Copy, Debug, PartialEq, Eq, Structural)]
pub struct Gnu {
    pub positional: PositionalArgumentsMode,
    /// Whether generation puts a `--` separator before positional
    /// arguments (generation only).
    pub explicit_positional: bool,
    /// Whether several short options may share one token (`-abc`).
    pub grouping: bool,
    /// How generation writes a long option's first argument.
    pub long_arg: LongOptionArgumentFormat,
}

impl Default for PositionalArgumentsMode {
    fn default() -> (r: Self)
        ensures
            r == PositionalArgumentsMode::Explicit,
    {
        PositionalArgumentsMode::Explicit
    }
}

impl Default for LongOptionArgumentFormat {
    fn default() -> (r: Self)
        ensures
            r == LongOptionArgumentFormat::Equals,
    {
        LongOptionArgumentFormat::Equals
    }
}

impl Default for Gnu {
    fn default() -> (r: Self)
        ensures
            r == (Gnu {
                positional: PositionalArgumentsMode::Explicit,
                explicit_positional: true,
                grouping: true,
                long_arg: LongOptionArgumentFormat::Equals,
            }),
    {
        Gnu {
            positional: PositionalArgumentsMode::Explicit,
            explicit_positional: true,
            grouping: true,
            long_arg: LongOptionArgumentFormat::Equals,
        }
    }
}

/// The `--` separator token.
pub open spec fn double_dash() -> Seq<char> {
    seq!['-', '-']
}

/// The parser's state after some prefix of the input.
#[verifier::ext_equal]
pub struct PStateV {
    pub options: Seq<OptV>,
    pub positional: Seq<Seq<char>>,
    pub all_positional: bool,
}

/// The state before any token: nothing parsed, separator not yet seen.
pub open spec fn initial_state() -> PStateV {
    PStateV { options: Seq::empty(), positional: Seq::empty(), all_positional: false }
}

/// The option occurrence denoted by a long-option token body (after `--`):
/// split at the first `=`, the left part the name, the right part, when an
/// `=` occurs, its single initial value.
pub open spec fn spec_long_opt(rest: Seq<char>) -> OptV {
    let p = first_index_of(rest, '=');
    if p == rest.len() {
        OptV { name: OptNameV::Long(rest), values: Seq::empty() }
    } else {
        OptV { name: OptNameV::Long(rest.take(p)), values: seq![rest.skip(p + 1)] }
    }
}

/// A zero-value short option.
pub open spec fn spec_short_opt(c: char) -> OptV {
    OptV { name: OptNameV::Short(c), values: Seq::empty() }
}

/// One zero-value short option per character, in order.
pub open spec fn spec_short_opts(rest: Seq<char>) -> Seq<OptV>
    decreases rest.len(),
{
    if rest.len() == 0 {
        Seq::empty()
    } else {
        seq![spec_short_opt(rest[0])] + spec_short_opts(rest.skip(1))
    }
}

/// [`spec_short_opts`] yields one occurrence per character, in order, each
/// zero-valued.
pub proof fn lemma_short_opts(rest: Seq<char>)
    ensures
        spec_short_opts(rest).len() == rest.len(),
        forall|i: int|
            0 <= i < rest.len() ==> spec_short_opts(rest)[i] == (OptV {
                name: OptNameV::Short(rest[i]),
                values: Seq::<Seq<char>>::empty(),
            }),
    decreases rest.len(),
{
    if rest.len() == 0 {
    } else {
        lemma_short_opts(rest.skip(1));
        assert forall|i: int| 0 <= i < rest.len() implies spec_short_opts(rest)[i] == (OptV {
            name: OptNameV::Short(rest[i]),
            values: Seq::<Seq<char>>::empty(),
        }) by {
            if i > 0 {
                assert(spec_short_opts(rest)[i] == spec_short_opts(rest.skip(1))[i - 1]);
                assert(rest.skip(1)[i - 1] == rest[i]);
            }
        }
    }
}

/// How one unmarked token (no leading dash) is resolved: positional under
/// the free mode; a value of the most recent option otherwise, when one
/// exists; an error otherwise.
pub open spec fn gnu_unmarked(g: Gnu, st: PStateV, tok: Seq<char>) -> Result<
    PStateV,
    GrammarErrorV,
> {
    if g.positional == PositionalArgumentsMode::Free {
        Ok(PStateV { positional: st.positional.push(tok), ..st })
    } else if st.options.len() > 0 {
        let i = st.options.len() - 1;
        Ok(
            PStateV {
                options: st.options.update(
                    i,
                    OptV { name: st.options[i].name, values: st.options[i].values.push(tok) },
                ),
                ..st
            },
        )
    } else if g.positional == PositionalArgumentsMode::Forbidden {
        Err(GrammarErrorV::PositionalNotAllowed { token: tok })
    } else {
        Err(GrammarErrorV::PositionalNotExplicit { token: tok })
    }
}

/// How one token advances the parser: everything after a consumed `--` is
/// positional; a first `--` is the separator (rejected outright under the
/// forbidding mode); `--name[=value]` is a long option; `-cs...` is one or
/// more short options; anything else, a bare `-` included, is unmarked.
pub open spec fn gnu_step(g: Gnu, st: PStateV, tok: Seq<char>) -> Result<PStateV, GrammarErrorV> {
    if st.all_positional {
        Ok(PStateV { positional: st.positional.push(tok), ..st })
    } else if tok == double_dash() {
        if g.positional == PositionalArgumentsMode::Forbidden {
            Err(GrammarErrorV::PositionalNotAllowed { token: tok })
        } else {
            Ok(PStateV { all_positional: true, ..st })
        }
    } else if tok.len() > 2 && tok[0] == '-' && tok[1] == '-' {
        Ok(PStateV { options: st.options.push(spec_long_opt(tok.skip(2))), ..st })
    } else if tok.len() >= 2 && tok[0] == '-' {
        if !g.grouping && tok.len() > 2 {
            Err(GrammarErrorV::GroupingNotAllowed { token: tok })
        } else {
            Ok(PStateV { options: st.options + spec_short_opts(tok.skip(1)), ..st })
        }
    } else {
        gnu_unmarked(g, st, tok)
    }
}

/// The parser run over a whole token sequence, stopping at the first error.
pub open spec fn gnu_run(g: Gnu, st: PStateV, toks: Seq<Seq<char>>) -> Result<
    PStateV,
    GrammarErrorV,
>
    decreases toks.len(),
{
    if toks.len() == 0 {
        Ok(st)
    } else {
        match gnu_step(g, st, toks[0]) {
            Ok(st2) => gnu_run(g, st2, toks.skip(1)),
            Err(e) => Err(e),
        }
    }
}

/// The exact result of parsing a token sequence under a configuration.
pub open spec fn gnu_parse_spec(g: Gnu, toks: Seq<Seq<char>>) -> Result<ArgsV, GrammarErrorV> {
    match gnu_run(g, initial_state(), toks) {
        Ok(st) => Ok(ArgsV { options: st.options, positional: st.positional }),
        Err(e) => Err(e),
    }
}

/// A lone `--` separator is itself rejected under the forbidding mode,
/// even though no positional token follows it; under the free and explicit
/// modes it parses to an empty argument list.
pub proof fn lemma_lone_separator(g: Gnu)
    ensures
        g.positional == PositionalArgumentsMode::Forbidden ==> gnu_parse_spec(
            g,
            seq![double_dash()],
        ) == Err::<ArgsV, GrammarErrorV>(
            GrammarErrorV::PositionalNotAllowed { token: double_dash() },
        ),
        g.positional != PositionalArgumentsMode::Forbidden ==> (gnu_parse_spec(
            g,
            seq![double_dash()],
        ) matches Ok(a) && a.options.len() == 0 && a.positional.len() == 0),
{
    let toks = seq![double_dash()];
    assert(toks[0] == double_dash());
    assert(toks.skip(1) =~= Seq::<Seq<char>>::empty());
    if g.positional != PositionalArgumentsMode::Forbidden {
        let st = PStateV { all_positional: true, ..initial_state() };
        assert(gnu_run(g, initial_state(), toks) == gnu_run(g, st, toks.skip(1)));
    }
}

/// A long option's leading token, without any value: `--name`.
pub open spec fn long_token(name: Seq<char>) -> Seq<char> {
    double_dash() + name
}

/// The tokens one option occurrence generates: its leading token, then
/// every remaining value as its own bare token. Under the equals format a
/// long option's first value rides in the leading token.
pub open spec fn opt_tokens(g: Gnu, o: OptV) -> Seq<Seq<char>> {
    match o.name {
        OptNameV::Short(c) => seq![seq!['-', c]] + o.values,
        OptNameV::Long(n) => if g.long_arg == LongOptionArgumentFormat::Equals && o.values.len()
            > 0 {
            seq![long_token(n) + seq!['='] + o.values[0]] + o.values.skip(1)
        } else {
            seq![long_token(n)] + o.values
        },
    }
}

/// The tokens a sequence of option occurrences generates, in order.
pub open spec fn gen_opts(g: Gnu, opts: Seq<OptV>) -> Seq<Seq<char>>
    decreases opts.len(),
{
    if opts.len() == 0 {
        Seq::empty()
    } else {
        gen_opts(g, opts.drop_last()) + opt_tokens(g, opts.last())
    }
}

/// The exact token sequence generated for an argument list: option tokens
/// in order, then — only when positional arguments exist — an optional `--`
/// separator and the positional arguments.
pub open spec fn gnu_generate_spec(g: Gnu, a: ArgsV) -> Seq<Seq<char>> {
    let pos = if a.positional.len() == 0 {
        Seq::<Seq<char>>::empty()
    } else if g.explicit_positional {
        seq![double_dash()] + a.positional
    } else {
        a.positional
    };
    gen_opts(g, a.options) + pos
}

/// Running the parser over concatenated token sequences is running it over
/// the first part, then — unless that failed — over the second.
pub proof fn lemma_run_append(g: Gnu, st: PStateV, t1: Seq<Seq<char>>, t2: Seq<Seq<char>>)
    ensures
        gnu_run(g, st, t1 + t2) == (match gnu_run(g, st, t1) {
            Ok(mid) => gnu_run(g, mid, t2),
            Err(e) => Err(e),
        }),
    decreases t1.len(),
{
    if t1.len() == 0 {
        assert(t1 + t2 =~= t2);
    } else {
        assert((t1 + t2)[0] == t1[0]);
        assert((t1 + t2).skip(1) =~= t1.skip(1) + t2);
        match gnu_step(g, st, t1[0]) {
            Ok(st2) => {
                lemma_run_append(g, st2, t1.skip(1), t2);
            },
            Err(_) => {},
        }
    }
}

/// After a consumed separator, every further token goes to the positional
/// arguments verbatim.
pub proof fn lemma_run_all_positional(g: Gnu, st: PStateV, toks: Seq<Seq<char>>)
    requires
        st.all_positional,
    ensures
        gnu_run(g, st, toks) == Ok::<PStateV, GrammarErrorV>(
            PStateV { positional: st.positional + toks, ..st },
        ),
    decreases toks.len(),
{
    if toks.len() == 0 {
        assert(PStateV { positional: st.positional + toks, ..st } =~~= st);
    } else {
        let st2 = PStateV { positional: st.positional.push(toks[0]), ..st };
        lemma_run_all_positional(g, st2, toks.skip(1));
        assert(PStateV { positional: st2.positional + toks.skip(1), ..st2 } =~~= (PStateV {
            positional: st.positional + toks,
            ..st
        }));
    }
}

/// A value token that survives the round trip: it is not the separator and
/// does not look like an option.
pub open spec fn round_trip_value_ok(v: Seq<char>) -> bool {
    v != double_dash() && !(v.len() >= 2 && v[0] == '-')
}

/// An option occurrence that survives the round trip: a short name other
/// than a dash, or a non-empty long name free of `=`, with every value
/// unmistakable for an option.
pub open spec fn round_trip_opt_ok(o: OptV) -> bool {
    (match o.name {
        OptNameV::Short(c) => c != '-',
        OptNameV::Long(n) => n.len() >= 1 && first_index_of(n, '=') == n.len(),
    }) && (forall|j: int| 0 <= j < o.values.len() ==> round_trip_value_ok(#[trigger] o.values[j]))
}

/// An argument list that survives the round trip; positional arguments are
/// unrestricted, since the separator shields them.
pub open spec fn round_trip_args_ok(a: ArgsV) -> bool {
    forall|i: int| 0 <= i < a.options.len() ==> round_trip_opt_ok(#[trigger] a.options[i])
}

/// Follow-on value tokens extend the values of the most recent option in
/// place, under the explicit positional mode.
pub proof fn lemma_run_values(g: Gnu, st: PStateV, vals: Seq<Seq<char>>)
    requires
        g.positional == PositionalArgumentsMode::Explicit,
        !st.all_positional,
        st.options.len() > 0,
        forall|j: int| 0 <= j < vals.len() ==> round_trip_value_ok(#[trigger] vals[j]),
    ensures
        gnu_run(g, st, vals) == Ok::<PStateV, GrammarErrorV>(
            PStateV {
                options: st.options.update(
                    st.options.len() - 1,
                    OptV {
                        name: st.options.last().name,
                        values: st.options.last().values + vals,
                    },
                ),
                ..st
            },
        ),
    decreases vals.len(),
{
    let last = st.options.len() - 1;
    if vals.len() == 0 {
        assert(st.options.update(
            last,
            OptV { name: st.options.last().name, values: st.options.last().values + vals },
        ) =~~= st.options);
        assert((PStateV {
            options: st.options.update(
                last,
                OptV { name: st.options.last().name, values: st.options.last().values + vals },
            ),
            ..st
        }) =~~= st);
    } else {
        let v = vals[0];
        assert(round_trip_value_ok(v));
        let st2 = PStateV {
            options: st.options.update(
                last,
                OptV { name: st.options[last].name, values: st.options[last].values.push(v) },
            ),
            ..st
        };
        assert(gnu_step(g, st, v) == Ok::<PStateV, GrammarErrorV>(st2));
        lemma_run_values(g, st2, vals.skip(1));
        assert(st2.options.last() == st2.options[last]);
        assert(st.options[last].values.push(v) + vals.skip(1) =~= st.options[last].values + vals);
        assert(st2.options.update(
            last,
            OptV {
                name: st2.options.last().name,
                values: st2.options.last().values + vals.skip(1),
            },
        ) =~~= st.options.update(
            last,
            OptV { name: st.options.last().name, values: st.options.last().values + vals },
        ));
        assert((PStateV {
            options: st2.options.update(
                st2.options.len() - 1,
                OptV {
                    name: st2.options.last().name,
                    values: st2.options.last().values + vals.skip(1),
                },
            ),
            ..st2
        }) =~~= (PStateV {
            options: st.options.update(
                last,
                OptV { name: st.options.last().name, values: st.options.last().values + vals },
            ),
            ..st
        }));
    }
}

/// The tokens one well-formed option occurrence generates parse back to
/// exactly that occurrence, appended to the options.
pub proof fn lemma_run_opt(g: Gnu, st: PStateV, o: OptV)
    requires
        g.positional == PositionalArgumentsMode::Explicit,
        !st.all_positional,
        round_trip_opt_ok(o),
    ensures
        gnu_run(g, st, opt_tokens(g, o)) == Ok::<PStateV, GrammarErrorV>(
            PStateV { options: st.options.push(o), ..st },
        ),
{
    match o.name {
        OptNameV::Short(c) => {
            let lead = seq!['-', c];
            assert(opt_tokens(g, o) =~= seq![lead] + o.values);
            assert(lead.len() == 2 && lead[0] == '-' && lead[1] == c);
            assert(lead != double_dash()) by {
                if lead == double_dash() {
                    assert(lead[1] == double_dash()[1]);
                }
            }
            assert(lead.skip(1) =~= seq![c]);
            lemma_short_opts(seq![c]);
            assert(gnu_step(g, st, lead) is Ok);
            let st2 = gnu_step(g, st, lead)->Ok_0;
            assert(st2.options =~~= st.options.push(
                OptV { name: OptNameV::Short(c), values: Seq::empty() },
            ));
            lemma_run_append(g, st, seq![lead], o.values);
            assert(seq![lead].skip(1) =~= Seq::<Seq<char>>::empty());
            assert(seq![lead].len() == 1 && seq![lead][0] == lead);
            assert(gnu_run(g, st, seq![lead]) == Ok::<PStateV, GrammarErrorV>(st2)) by {
                reveal_with_fuel(gnu_run, 2);
            }
            lemma_run_values(g, st2, o.values);
            assert(st2.options.last() == (OptV { name: OptNameV::Short(c), values: Seq::empty() }));
            assert(Seq::<Seq<char>>::empty() + o.values =~= o.values);
            assert(st2.options.update(
                st2.options.len() - 1,
                OptV { name: st2.options.last().name, values: st2.options.last().values + o.values },
            ) =~~= st.options.push(o));
            assert((PStateV {
                options: st2.options.update(
                    st2.options.len() - 1,
                    OptV {
                        name: st2.options.last().name,
                        values: st2.options.last().values + o.values,
                    },
                ),
                ..st2
            }) =~~= (PStateV { options: st.options.push(o), ..st }));
        },
        OptNameV::Long(n) => {
            crate::strings::lemma_first_index_of_chars(n, '=');
            if g.long_arg == LongOptionArgumentFormat::Equals && o.values.len() > 0 {
                let v0 = o.values[0];
                let lead = long_token(n) + seq!['='] + v0;
                assert(opt_tokens(g, o) =~= seq![lead] + o.values.skip(1));
                assert(lead.len() == 3 + n.len() + v0.len());
                assert(lead[0] == '-' && lead[1] == '-');
                assert(lead != double_dash()) by {
                    if lead == double_dash() {
                        assert(lead.len() == 2);
                    }
                }
                let body = lead.skip(2);
                assert(body =~= n + (seq!['='] + v0));
                crate::strings::lemma_first_index_of(body, '=', n.len() as int);
                assert(body.take(n.len() as int) =~= n);
                assert(body.skip(n.len() as int + 1) =~= v0);
                assert(spec_long_opt(body) =~~= (OptV { name: OptNameV::Long(n), values: seq![v0] }));
                assert(gnu_step(g, st, lead) is Ok);
                let st2 = gnu_step(g, st, lead)->Ok_0;
                assert(st2.options =~~= st.options.push(
                    OptV { name: OptNameV::Long(n), values: seq![v0] },
                ));
                lemma_run_append(g, st, seq![lead], o.values.skip(1));
                assert(seq![lead].skip(1) =~= Seq::<Seq<char>>::empty());
                assert(seq![lead].len() == 1 && seq![lead][0] == lead);
                assert(gnu_run(g, st, seq![lead]) == Ok::<PStateV, GrammarErrorV>(st2)) by {
                reveal_with_fuel(gnu_run, 2);
            }
                assert(forall|j: int|
                    0 <= j < o.values.skip(1).len() ==> round_trip_value_ok(
                        #[trigger] o.values.skip(1)[j],
                    ));
                lemma_run_values(g, st2, o.values.skip(1));
                assert(st2.options.last() == (OptV { name: OptNameV::Long(n), values: seq![v0] }));
                assert(seq![v0] + o.values.skip(1) =~= o.values);
                assert(st2.options.update(
                    st2.options.len() - 1,
                    OptV {
                        name: st2.options.last().name,
                        values: st2.options.last().values + o.values.skip(1),
                    },
                ) =~~= st.options.push(o));
                assert((PStateV {
                    options: st2.options.update(
                        st2.options.len() - 1,
                        OptV {
                            name: st2.options.last().name,
                            values: st2.options.last().values + o.values.skip(1),
                        },
                    ),
                    ..st2
                }) =~~= (PStateV { options: st.options.push(o), ..st }));
            } else {
                let lead = long_token(n);
                assert(opt_tokens(g, o) =~= seq![lead] + o.values);
                assert(lead.len() == 2 + n.len());
                assert(lead[0] == '-' && lead[1] == '-');
                assert(lead != double_dash()) by {
                    if lead == double_dash() {
                        assert(lead.len() == 2);
                    }
                }
                let body = lead.skip(2);
                assert(body =~= n);
                assert(spec_long_opt(body) =~~= (OptV {
                    name: OptNameV::Long(n),
                    values: Seq::empty(),
                }));
                assert(gnu_step(g, st, lead) is Ok);
                let st2 = gnu_step(g, st, lead)->Ok_0;
                assert(st2.options =~~= st.options.push(
                    OptV { name: OptNameV::Long(n), values: Seq::empty() },
                ));
                lemma_run_append(g, st, seq![lead], o.values);
                assert(seq![lead].skip(1) =~= Seq::<Seq<char>>::empty());
                assert(seq![lead].len() == 1 && seq![lead][0] == lead);
                assert(gnu_run(g, st, seq![lead]) == Ok::<PStateV, GrammarErrorV>(st2)) by {
                reveal_with_fuel(gnu_run, 2);
            }
                lemma_run_values(g, st2, o.values);
                assert(st2.options.last() == (OptV {
                    name: OptNameV::Long(n),
                    values: Seq::empty(),
                }));
                assert(Seq::<Seq<char>>::empty() + o.values =~= o.values);
                assert(st2.options.update(
                    st2.options.len() - 1,
                    OptV {
                        name: st2.options.last().name,
                        values: st2.options.last().values + o.values,
                    },
                ) =~~= st.options.push(o));
                assert((PStateV {
                    options: st2.options.update(
                        st2.options.len() - 1,
                        OptV {
                            name: st2.options.last().name,
                            values: st2.options.last().values + o.values,
                        },
                    ),
                    ..st2
                }) =~~= (PStateV { options: st.options.push(o), ..st }));
            }
        },
    }
}

/// A short-option cluster (several characters after one `-`) parses, on
/// its own, to one zero-value option per character when grouping is on,
/// and is rejected as ungroupable when grouping is off.
pub proof fn lemma_grouping(g: Gnu, t: Seq<char>)
    requires
        t.len() > 2,
        t[0] == '-',
        t[1] != '-',
    ensures
        !g.grouping ==> gnu_parse_spec(g, seq![t]) == Err::<ArgsV, GrammarErrorV>(
            GrammarErrorV::GroupingNotAllowed { token: t },
        ),
        g.grouping ==> gnu_parse_spec(g, seq![t]) == Ok::<ArgsV, GrammarErrorV>(
            ArgsV { options: spec_short_opts(t.skip(1)), positional: Seq::empty() },
        ),
{
    let toks = seq![t];
    assert(toks[0] == t);
    assert(toks.skip(1) =~= Seq::<Seq<char>>::empty());
    assert(t != double_dash()) by {
        if t == double_dash() {
            assert(t.len() == 2);
        }
    }
    if g.grouping {
        let st2 = gnu_step(g, initial_state(), t)->Ok_0;
        assert(st2.options =~= spec_short_opts(t.skip(1)));
        assert(gnu_run(g, initial_state(), toks) == Ok::<PStateV, GrammarErrorV>(st2)) by {
            reveal_with_fuel(gnu_run, 2);
        }
    }
}

/// The tokens a well-formed option list generates parse back to exactly
/// that list, appended in order.
pub proof fn lemma_run_opts(g: Gnu, st: PStateV, opts: Seq<OptV>)
    requires
        g.positional == PositionalArgumentsMode::Explicit,
        !st.all_positional,
        forall|i: int| 0 <= i < opts.len() ==> round_trip_opt_ok(#[trigger] opts[i]),
    ensures
        gnu_run(g, st, gen_opts(g, opts)) == Ok::<PStateV, GrammarErrorV>(
            PStateV { options: st.options + opts, ..st },
        ),
    decreases opts.len(),
{
    if opts.len() == 0 {
        assert((PStateV { options: st.options + opts, ..st }) =~~= st);
    } else {
        let front = opts.drop_last();
        assert(forall|i: int| 0 <= i < front.len() ==> front[i] == (#[trigger] opts[i]));
        lemma_run_opts(g, st, front);
        let mid = PStateV { options: st.options + front, ..st };
        lemma_run_append(g, st, gen_opts(g, front), opt_tokens(g, opts.last()));
        lemma_run_opt(g, mid, opts.last());
        assert((st.options + front).push(opts.last()) =~~= st.options + opts);
        assert((PStateV { options: mid.options.push(opts.last()), ..mid }) =~~= (PStateV {
            options: st.options + opts,
            ..st
        }));
    }
}

/// The round trip: under the explicit positional mode — with the separator
/// emitted whenever positional arguments exist — generating a well-formed
/// argument list and parsing the result gives that list back, whatever the
/// grouping flag and the long-argument format. Grouped short options come
/// back as the same occurrences, one per character.
pub proof fn lemma_generate_parse_round_trip(g: Gnu, a: ArgsV)
    requires
        g.positional == PositionalArgumentsMode::Explicit,
        g.explicit_positional || a.positional.len() == 0,
        round_trip_args_ok(a),
    ensures
        gnu_parse_spec(g, gnu_generate_spec(g, a)) == Ok::<ArgsV, GrammarErrorV>(a),
{
    let toks = gnu_generate_spec(g, a);
    lemma_run_opts(g, initial_state(), a.options);
    let mid = PStateV {
        options: initial_state().options + a.options,
        ..initial_state()
    };
    assert(mid.options =~= a.options);
    if a.positional.len() == 0 {
        assert(toks =~= gen_opts(g, a.options));
        assert((ArgsV { options: mid.options, positional: mid.positional }) =~~= a);
    } else {
        let pos_toks = seq![double_dash()] + a.positional;
        assert(toks =~= gen_opts(g, a.options) + pos_toks);
        lemma_run_append(g, initial_state(), gen_opts(g, a.options), pos_toks);
        assert(pos_toks[0] == double_dash());
        assert(pos_toks.skip(1) =~= a.positional);
        let mid2 = PStateV { all_positional: true, ..mid };
        assert(gnu_step(g, mid, double_dash()) == Ok::<PStateV, GrammarErrorV>(mid2));
        lemma_run_all_positional(g, mid2, a.positional);
        assert(gnu_run(g, mid, pos_toks) == Ok::<PStateV, GrammarErrorV>(
            PStateV { positional: mid2.positional + a.positional, ..mid2 },
        ));
        assert(mid2.positional + a.positional =~= a.positional);
        assert((ArgsV {
            options: (PStateV { positional: mid2.positional + a.positional, ..mid2 }).options,
            positional: (PStateV { positional: mid2.positional + a.positional, ..mid2 }).positional,
        }) =~~= a);
    }
}

/// Splits a long-option token body at its first `=`: the name alone when no
/// `=` occurs, else the name and the value after the `=`.
pub fn split_kv(kv_arg: &str) -> (r: (String, Option<String>))
    ensures
        ({
            let p = first_index_of(kv_arg@, '=');
            if p == kv_arg@.len() {
                r.0@ == kv_arg@ && r.1 is None
            } else {
                r.0@ == kv_arg@.take(p) && (r.1 matches Some(v) && v@ == kv_arg@.skip(p + 1))
            }
        }),
{
    let n = kv_arg.unicode_len();
    match find_char(kv_arg, '=') {
        Some(i) => {
            let name = kv_arg.substring_char(0, i).to_owned();
            let value = kv_arg.substring_char(i + 1, n).to_owned();
            (name, Some(value))
        },
        None => (kv_arg.to_owned(), None),
    }
}

/// The parser's working state: the grammar, what was parsed so far, and
/// whether a `--` separator was consumed.
struct GnuParserState {
    grammar: Gnu,
    options: Vec<ParsedOpt>,
    positional: Vec<String>,
    always_treat_as_positional: bool,
}

impl View for GnuParserState {
    type V = PStateV;

    closed spec fn view(&self) -> PStateV {
        PStateV {
            options: self.options.deep_view(),
            positional: self.positional.deep_view(),
            all_positional: self.always_treat_as_positional,
        }
    }
}

impl GnuParserState {
    /// Consumes one token, advancing the state exactly as [`gnu_step`] says.
    fn parse_next(&mut self, arg: String) -> (r: Result<(), GrammarError>)
        ensures
            final(self).grammar == old(self).grammar,
            match gnu_step(old(self).grammar, old(self)@, arg@) {
                Ok(st2) => r is Ok && final(self)@ == st2,
                Err(e) => r matches Err(er) && er@ == e,
            },
    {
        if self.always_treat_as_positional {
            self.add_positional(arg);
            return Ok(());
        }
        let n = arg.as_str().unicode_len();
        if n == 2 && arg.as_str().get_char(0) == '-' && arg.as_str().get_char(1) == '-' {
            proof {
                assert(arg@ =~= double_dash());
            }
            if self.grammar.positional == PositionalArgumentsMode::Forbidden {
                return Err(GrammarError::PositionalNotAllowed { token: arg });
            }
            self.always_treat_as_positional = true;
            return Ok(());
        }
        proof {
            assert(arg@ != double_dash());
        }
        if n > 2 && arg.as_str().get_char(0) == '-' && arg.as_str().get_char(1) == '-' {
            self.add_long(arg.as_str());
            return Ok(());
        }
        if n >= 2 && arg.as_str().get_char(0) == '-' {
            return self.add_short(arg.as_str());
        }
        self.add_unmarked(arg)
    }

    /// Resolves an unmarked token (see [`gnu_unmarked`]).
    fn add_unmarked(&mut self, arg: String) -> (r: Result<(), GrammarError>)
        ensures
            final(self).grammar == old(self).grammar,
            match gnu_unmarked(old(self).grammar, old(self)@, arg@) {
                Ok(st2) => r is Ok && final(self)@ == st2,
                Err(e) => r matches Err(er) && er@ == e,
            },
    {
        if self.grammar.positional == PositionalArgumentsMode::Free {
            self.add_positional(arg);
            return Ok(());
        }
        if self.options.len() > 0 {
            let mut entry = self.options.pop().unwrap();
            entry.values.push(arg);
            self.options.push(entry);
            proof {
                let st = gnu_unmarked(old(self).grammar, old(self)@, arg@)->Ok_0;
                assert(self@.options =~~= st.options);
            }
            return Ok(());
        }
        if self.grammar.positional == PositionalArgumentsMode::Forbidden {
            Err(GrammarError::PositionalNotAllowed { token: arg })
        } else {
            Err(GrammarError::PositionalNotExplicit { token: arg })
        }
    }

    /// Appends one positional argument.
    fn add_positional(&mut self, arg: String)
        ensures
            final(self).grammar == old(self).grammar,
            final(self)@ == (PStateV { positional: old(self)@.positional.push(arg@), ..old(self)@ }),
    {
        self.positional.push(arg);
        proof {
            assert(self@.positional =~= old(self)@.positional.push(arg@));
        }
    }

    /// Consumes a short-option token (leading `-` included): every further
    /// character becomes one zero-value short option, unless grouping is off
    /// and there are several.
    fn add_short(&mut self, arg: &str) -> (r: Result<(), GrammarError>)
        requires
            arg@.len() >= 2,
        ensures
            final(self).grammar == old(self).grammar,
            if !old(self).grammar.grouping && arg@.len() > 2 {
                r matches Err(er) && er@ == (GrammarErrorV::GroupingNotAllowed { token: arg@ })
                    && final(self)@ == old(self)@
            } else {
                r is Ok && final(self)@ == (PStateV {
                    options: old(self)@.options + spec_short_opts(arg@.skip(1)),
                    ..old(self)@
                })
            },
    {
        let n = arg.unicode_len();
        if !self.grammar.grouping && n > 2 {
            return Err(GrammarError::GroupingNotAllowed { token: arg.to_owned() });
        }
        let mut i: usize = 1;
        proof {
            lemma_short_opts(arg@.subrange(1, 1));
            assert(self@.options =~~= old(self)@.options + spec_short_opts(
                arg@.subrange(1, 1),
            ));
        }
        while i < n
            invariant
                1 <= i <= n,
                n == arg@.len(),
                self.grammar == old(self).grammar,
                self@.options == old(self)@.options + spec_short_opts(arg@.subrange(1, i as int)),
                self@.positional == old(self)@.positional,
                self@.all_positional == old(self)@.all_positional,
            decreases n - i,
        {
            let ghost before = self@.options;
            self.add_short_char(arg.get_char(i));
            proof {
                lemma_short_opts(arg@.subrange(1, i as int));
                lemma_short_opts(arg@.subrange(1, i + 1));
                let elem = OptV { name: OptNameV::Short(arg@[i as int]), values: Seq::empty() };
                assert(self@.options == before.push(elem));
                assert(before.push(elem) =~~= old(self)@.options + spec_short_opts(
                    arg@.subrange(1, i + 1),
                ));
            }
            i = i + 1;
        }
        proof {
            assert(arg@.subrange(1, n as int) =~= arg@.skip(1));
        }
        Ok(())
    }

    /// Appends one zero-value short option.
    fn add_short_char(&mut self, c: char)
        ensures
            final(self).grammar == old(self).grammar,
            final(self)@ == (PStateV {
                options: old(self)@.options.push(
                    OptV { name: OptNameV::Short(c), values: Seq::empty() },
                ),
                ..old(self)@
            }),
    {
        self.options.push(ParsedOpt { name: OptName::Short(c), values: Vec::new() });
        proof {
            assert(self@.options =~~= old(self)@.options.push(
                OptV { name: OptNameV::Short(c), values: Seq::empty() },
            ));
        }
    }

    /// Consumes a long-option token (leading `--` included): splits its body
    /// at the first `=` into name and initial value.
    fn add_long(&mut self, arg: &str)
        requires
            arg@.len() > 2,
        ensures
            final(self).grammar == old(self).grammar,
            final(self)@ == (PStateV {
                options: old(self)@.options.push(spec_long_opt(arg@.skip(2))),
                ..old(self)@
            }),
    {
        let rest = arg.substring_char(2, arg.unicode_len());
        let (name, value) = split_kv(rest);
        let mut values: Vec<String> = Vec::new();
        match value {
            Some(v) => {
                values.push(v);
            },
            None => {},
        }
        self.options.push(ParsedOpt { name: OptName::Long(name), values });
        proof {
            assert(self@.options =~~= old(self)@.options.push(spec_long_opt(arg@.skip(2))));
        }
    }
}

impl Grammar for Gnu {
    open spec fn parse_spec(&self, tokens: Seq<Seq<char>>) -> Result<ArgsV, GrammarErrorV> {
        gnu_parse_spec(*self, tokens)
    }

    open spec fn generate_spec(&self, args: ArgsV) -> Result<Seq<Seq<char>>, GrammarErrorV> {
        Ok(gnu_generate_spec(*self, args))
    }

    fn parse(&self, args: Vec<String>) -> (r: Result<ParsedArgs, GrammarError>)
        ensures
            parse_result_view(r) == self.parse_spec(args.deep_view()),
    {
        let ghost toks = args.deep_view();
        let mut state = GnuParserState {
            grammar: *self,
            options: Vec::new(),
            positional: Vec::new(),
            always_treat_as_positional: false,
        };
        proof {
            assert(state@ =~~= initial_state());
            assert(toks.skip(0) =~= toks);
        }
        let mut i: usize = 0;
        while i < args.len()
            invariant
                i <= args.len(),
                toks == args.deep_view(),
                state.grammar == *self,
                gnu_run(*self, state@, toks.skip(i as int)) == gnu_run(
                    *self,
                    initial_state(),
                    toks,
                ),
            decreases args.len() - i,
        {
            let ghost pre = state@;
            let arg = args[i].clone();
            proof {
                assert(toks.skip(i as int)[0] == arg@);
                assert(toks.skip(i as int).skip(1) =~= toks.skip(i + 1));
            }
            match state.parse_next(arg) {
                Ok(()) => {},
                Err(e) => {
                    proof {
                        assert(gnu_run(*self, pre, toks.skip(i as int)) == Err::<
                            PStateV,
                            GrammarErrorV,
                        >(e@));
                    }
                    return Err(e);
                },
            }
            i = i + 1;
        }
        proof {
            assert(toks.skip(args@.len() as int) =~= Seq::<Seq<char>>::empty());
        }
        Ok(ParsedArgs { options: state.options, positional: state.positional })
    }

    fn generate_vec(&self, args: ParsedArgs) -> (r: Result<Vec<String>, GrammarError>)
        ensures
            generate_result_view(r) == self.generate_spec(args@),
    {
        let ghost opts = args@.options;
        let mut out: Vec<String> = Vec::new();
        proof {
            assert(opts.subrange(0, 0) =~= Seq::<OptV>::empty());
            assert(out.deep_view() =~= gen_opts(*self, opts.subrange(0, 0)));
        }
        let mut i: usize = 0;
        while i < args.options.len()
            invariant
                i <= args.options.len(),
                opts == args@.options,
                out.deep_view() == gen_opts(*self, opts.subrange(0, i as int)),
            decreases args.options.len() - i,
        {
            let opt = &args.options[i];
            let ghost before = out.deep_view();
            match &opt.name {
                OptName::Short(c) => {
                    let mut t = String::from_str("-");
                    push_char(&mut t, *c);
                    proof {
                        reveal_strlit("-");
                        assert(t@ =~= seq!['-', opt@.name->Short_0]);
                    }
                    out.push(t);
                    push_values(&mut out, &opt.values, 0);
                    proof {
                        assert(opt.values.deep_view().skip(0) =~= opt@.values);
                        assert(out.deep_view() =~~= before + opt_tokens(*self, opts[i as int]));
                    }
                },
                OptName::Long(name) => {
                    let lead = String::from_str("--").concat(name.as_str());
                    proof {
                        reveal_strlit("--");
                        assert(lead@ =~= long_token(opt@.name->Long_0));
                    }
                    if opt.values.len() > 0 && matches!(self.long_arg, LongOptionArgumentFormat::Equals) {
                        let first = lead.concat("=").concat(opt.values[0].as_str());
                        proof {
                            reveal_strlit("=");
                            assert(first@ =~= long_token(opt@.name->Long_0) + seq!['=']
                                + opt@.values[0]);
                        }
                        out.push(first);
                        push_values(&mut out, &opt.values, 1);
                        proof {
                            assert(out.deep_view() =~~= before + opt_tokens(
                                *self,
                                opts[i as int],
                            ));
                        }
                    } else {
                        out.push(lead);
                        push_values(&mut out, &opt.values, 0);
                        proof {
                            assert(opt.values.deep_view().skip(0) =~= opt@.values);
                            assert(out.deep_view() =~~= before + opt_tokens(
                                *self,
                                opts[i as int],
                            ));
                        }
                    }
                },
            }
            proof {
                assert(opts.subrange(0, i + 1).drop_last() =~= opts.subrange(0, i as int));
                assert(opts.subrange(0, i + 1).last() == opts[i as int]);
            }
            i = i + 1;
        }
        proof {
            assert(opts.subrange(0, opts.len() as int) =~= opts);
        }
        if args.positional.len() > 0 {
            if self.explicit_positional {
                let sep = String::from_str("--");
                proof {
                    reveal_strlit("--");
                    assert(sep@ =~= double_dash());
                }
                out.push(sep);
            }
            push_values(&mut out, &args.positional, 0);
            proof {
                assert(args.positional.deep_view().skip(0) =~= args@.positional);
            }
        }
        proof {
            assert(out.deep_view() =~~= gnu_generate_spec(*self, args@));
        }
        Ok(out)
    }
}

/// Appends clones of the values from `start` on, each as its own token.
fn push_values(out: &mut Vec<String>, values: &Vec<String>, start: usize)
    requires
        start <= values@.len(),
    ensures
        final(out).deep_view() == old(out).deep_view() + values.deep_view().skip(start as int),
{
    let mut j = start;
    proof {
        assert(values.deep_view().subrange(start as int, start as int) =~= Seq::<
            Seq<char>,
        >::empty());
        assert(out.deep_view() =~= old(out).deep_view() + values.deep_view().subrange(
            start as int,
            start as int,
        ));
    }
    while j < values.len()
        invariant
            start <= j <= values@.len(),
            out.deep_view() == old(out).deep_view() + values.deep_view().subrange(
                start as int,
                j as int,
            ),
        decreases values@.len() - j,
    {
        let ghost before = out.deep_view();
        out.push(values[j].clone());
        proof {
            assert(out.deep_view() =~~= before.push(values.deep_view()[j as int]));
            assert(before.push(values.deep_view()[j as int]) =~~= old(out).deep_view()
                + values.deep_view().subrange(start as int, j + 1));
        }
        j = j + 1;
    }
    proof {
        assert(values.deep_view().subrange(start as int, values.deep_view().len() as int)
            =~= values.deep_view().skip(start as int));
    }
}

} // verus!
