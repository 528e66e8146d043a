//! The command model: structured edit operations over a [`ParsedArgs`] and
//! their exact mutation semantics.
//!
//! Commands are applied strictly in the order supplied; each sees the
//! cumulative effect of all prior commands. Application never fails: all
//! validation happens earlier, when a front-end builds the command list.

use vstd::prelude::*;

use crate::parsed_args::{
    last_index, lemma_last_index, spec_remove_all, spec_set_last, ArgsV, OptName, OptNameV, OptV,
    ParsedArgs, ParsedOpt,
};

verus! {

/// A structured edit operation against an argument list.
#[derive(Debug, PartialEq)]
pub enum Command {
    /// Overwrite the values of the last occurrence of the option, or append
    /// a new occurrence when none exists.
    SetLast { option: OptName, values: Vec<String> },
    /// Unconditionally append a brand-new occurrence, never merging with an
    /// existing one of the same name.
    Add { option: OptName, values: Vec<String> },
    /// Delete every occurrence of the option, keeping the order of the rest.
    Remove { option: OptName },
    /// Extend the last occurrence of the option (created with one empty
    /// value when absent): with an empty delimiter the items become
    /// additional separate values; otherwise each item is concatenated onto
    /// the first value, the delimiter inserted before it.
    Append { option: OptName, delimiter: String, items: Vec<String> },
    /// Append one new occurrence per value, each holding exactly that value.
    RepeatedAdd { option: OptName, values: Vec<String> },
}

/// The mathematical value of a [`Command`].
#[verifier::ext_equal]
pub enum CommandV {
    SetLast { option: OptNameV, values: Seq<Seq<char>> },
    Add { option: OptNameV, values: Seq<Seq<char>> },
    Remove { option: OptNameV },
    Append { option: OptNameV, delimiter: Seq<char>, items: Seq<Seq<char>> },
    RepeatedAdd { option: OptNameV, values: Seq<Seq<char>> },
}

impl View for Command {
    type V = CommandV;

    open spec fn view(&self) -> CommandV {
        match self {
            Command::SetLast { option, values } => CommandV::SetLast {
                option: option@,
                values: values.deep_view(),
            },
            Command::Add { option, values } => CommandV::Add {
                option: option@,
                values: values.deep_view(),
            },
            Command::Remove { option } => CommandV::Remove { option: option@ },
            Command::Append { option, delimiter, items } => CommandV::Append {
                option: option@,
                delimiter: delimiter@,
                items: items.deep_view(),
            },
            Command::RepeatedAdd { option, values } => CommandV::RepeatedAdd {
                option: option@,
                values: values.deep_view(),
            },
        }
    }
}

/// A well-formed option name: a long name has at least two characters (one
/// character makes a short name).
pub open spec fn name_wf(n: OptNameV) -> bool {
    match n {
        OptNameV::Short(_) => true,
        OptNameV::Long(s) => s.len() >= 2,
    }
}

/// A well-formed command: its option name is well-formed.
pub open spec fn cmd_wf(c: CommandV) -> bool {
    match c {
        CommandV::SetLast { option, .. } => name_wf(option),
        CommandV::Add { option, .. } => name_wf(option),
        CommandV::Remove { option } => name_wf(option),
        CommandV::Append { option, .. } => name_wf(option),
        CommandV::RepeatedAdd { option, .. } => name_wf(option),
    }
}

/// Every command of the sequence is well-formed.
pub open spec fn cmds_wf(cmds: Seq<Command>) -> bool {
    forall|i: int| 0 <= i < cmds.len() ==> cmd_wf((#[trigger] cmds[i])@)
}

/// A failure to read a command from its textual form, with a
/// human-readable cause.
#[derive(Debug)]
pub struct CommandError {
    message: String,
}

impl CommandError {
    /// Wraps a cause.
    pub(crate) fn new(message: String) -> CommandError {
        CommandError { message }
    }

    /// The human-readable cause.
    pub fn message(&self) -> &str {
        self.message.as_str()
    }
}

/// A front-end that reads an ordered command list from a textual form. Every
/// command handed back is fully validated: the core applies them without
/// further checks.
pub trait CommandParser {
    /// Reads commands from the raw bytes of a script.
    fn parse_from_script_src(&self, script: &[u8]) -> (r: Result<Vec<Command>, CommandError>)
        ensures
            match r {
                Ok(cmds) => cmds_wf(cmds@) && (script@.len() == 0 ==> cmds@.len() == 0),
                Err(_) => true,
            },
    ;

    /// Reads commands from the text of a script, one command per line.
    fn parse_from_script(&self, script: &str) -> (r: Result<Vec<Command>, CommandError>)
        ensures
            match r {
                Ok(cmds) => cmds_wf(cmds@) && (script@.len() == 0 ==> cmds@.len() == 0),
                Err(_) => true,
            },
    ;

    /// Reads commands from a list of single-command strings, one each.
    fn parse_from_args(&self, commands: &Vec<String>) -> (r: Result<Vec<Command>, CommandError>)
        ensures
            match r {
                Ok(cmds) => cmds_wf(cmds@) && cmds@.len() == commands@.len(),
                Err(_) => true,
            },
    ;
}

/// The first value extended by every item in turn, the delimiter inserted
/// before each.
pub open spec fn spec_join(first: Seq<char>, delim: Seq<char>, items: Seq<Seq<char>>) -> Seq<char>
    decreases items.len(),
{
    if items.len() == 0 {
        first
    } else {
        spec_join(first + delim + items[0], delim, items.skip(1))
    }
}

/// The semantics of an append-style edit (see [`Command::Append`]).
pub open spec fn spec_append(
    a: ArgsV,
    name: OptNameV,
    delim: Seq<char>,
    items: Seq<Seq<char>>,
) -> ArgsV {
    let opts = match last_index(a.options, name) {
        Some(_) => a.options,
        None => a.options.push(OptV { name, values: seq![Seq::<char>::empty()] }),
    };
    let i = match last_index(a.options, name) {
        Some(i) => i,
        None => a.options.len() as int,
    };
    let entry = opts[i];
    let new_values = if delim.len() == 0 {
        entry.values + items
    } else {
        let base = if entry.values.len() == 0 {
            seq![Seq::<char>::empty()]
        } else {
            entry.values
        };
        base.update(0, spec_join(base[0], delim, items))
    };
    ArgsV {
        options: opts.update(i, OptV { name: entry.name, values: new_values }),
        positional: a.positional,
    }
}

/// The exact effect of one command on an argument list.
pub open spec fn apply_spec(c: CommandV, a: ArgsV) -> ArgsV {
    match c {
        CommandV::SetLast { option, values } => spec_set_last(a, option, values),
        CommandV::Add { option, values } => ArgsV {
            options: a.options.push(OptV { name: option, values }),
            positional: a.positional,
        },
        CommandV::Remove { option } => ArgsV {
            options: spec_remove_all(a.options, option),
            positional: a.positional,
        },
        CommandV::Append { option, delimiter, items } => spec_append(
            a,
            option,
            delimiter,
            items,
        ),
        CommandV::RepeatedAdd { option, values } => ArgsV {
            options: a.options + Seq::new(
                values.len(),
                |i: int| OptV { name: option, values: seq![values[i]] },
            ),
            positional: a.positional,
        },
    }
}

impl Command {
    /// Mutates the argument list in place, exactly as [`apply_spec`] says.
    /// Application never fails.
    pub fn apply(self, args: &mut ParsedArgs)
        ensures
            final(args)@ == apply_spec(self@, old(args)@),
    {
        match self {
            Command::SetLast { option, values } => {
                args.set_last_option(option, values);
            },
            Command::Add { option, values } => {
                let ghost name0 = option@;
                let ghost vals0 = values.deep_view();
                args.options.push(ParsedOpt { name: option, values });
                proof {
                    assert(args@.options =~= old(args)@.options.push(
                        OptV { name: name0, values: vals0 },
                    ));
                }
            },
            Command::Remove { option } => {
                args.remove_all_options(option);
            },
            Command::RepeatedAdd { option, values } => {
                let ghost vals = values.deep_view();
                let mut i: usize = 0;
                proof {
                    assert(args@.options =~= old(args)@.options + Seq::new(
                        0,
                        |k: int| OptV { name: option@, values: seq![vals[k]] },
                    ));
                }
                while i < values.len()
                    invariant
                        i <= values.len(),
                        vals == values.deep_view(),
                        args@.options == old(args)@.options + Seq::new(
                            i as nat,
                            |k: int| OptV { name: option@, values: seq![vals[k]] },
                        ),
                        args@.positional == old(args)@.positional,
                    decreases values.len() - i,
                {
                    let value = values[i].clone();
                    let ghost before = args@.options;
                    args.options.push(ParsedOpt { name: option.clone(), values: singleton(value) });
                    proof {
                        let elem = OptV { name: option@, values: seq![vals[i as int]] };
                        assert(args@.options.last() =~~= elem);
                        assert(args@.options =~~= before.push(elem));
                        assert(before.push(elem) =~~= old(args)@.options + Seq::new(
                            (i + 1) as nat,
                            |k: int| OptV { name: option@, values: seq![vals[k]] },
                        ));
                    }
                    i = i + 1;
                }
            },
            Command::Append { option, delimiter, items } => {
                append_last(args, option, delimiter, items);
            },
        }
    }
}

/// A one-element value list.
fn singleton(value: String) -> (r: Vec<String>)
    ensures
        r.deep_view() == seq![value@],
{
    let mut r: Vec<String> = Vec::new();
    r.push(value);
    proof {
        assert(r.deep_view() =~= seq![r@[0]@]);
    }
    r
}

/// Applies the append-style edit (see [`Command::Append`]) in place.
fn append_last(args: &mut ParsedArgs, option: OptName, delimiter: String, items: Vec<String>)
    ensures
        final(args)@ == spec_append(old(args)@, option@, delimiter@, items.deep_view()),
{
    let ghost name0 = option@;
    let ghost delim0 = delimiter@;
    let ghost items_all = items.deep_view();
    proof {
        lemma_last_index(old(args)@.options, option@);
    }
    let i = match args.find_last(&option) {
        Some(i) => i,
        None => {
            args.options.push(ParsedOpt { name: option, values: singleton(String::new()) });
            args.options.len() - 1
        },
    };
    let mut entry = args.options.remove(i);
    let ghost entry0 = entry@;
    if delimiter.as_str().is_empty() {
        let mut items = items;
        entry.values.append(&mut items);
        proof {
            assert(entry@.values =~= entry0.values + items_all);
        }
    } else {
        if entry.values.len() == 0 {
            entry.values.push(String::new());
            proof {
                assert(entry@.values =~= seq![Seq::<char>::empty()]);
            }
        }
        let ghost base = entry@.values;
        let ghost all_items = items_all;
        let mut s = entry.values[0].clone();
        let mut j: usize = 0;
        proof {
            assert(all_items.skip(0) =~= all_items);
        }
        while j < items.len()
            invariant
                j <= items.len(),
                all_items == items.deep_view(),
                spec_join(s@, delimiter@, all_items.skip(j as int)) == spec_join(
                    base[0],
                    delimiter@,
                    all_items,
                ),
            decreases items.len() - j,
        {
            s.append(delimiter.as_str());
            s.append(items[j].as_str());
            proof {
                assert(all_items.skip(j as int).skip(1) =~= all_items.skip(j + 1));
            }
            j = j + 1;
        }
        proof {
            assert(all_items.skip(all_items.len() as int) =~= Seq::<Seq<char>>::empty());
        }
        entry.values[0] = s;
        proof {
            assert(entry@.values =~= base.update(
                0,
                spec_join(base[0], delimiter@, all_items),
            ));
        }
    }
    args.options.insert(i, entry);
    proof {
        assert(args@.options =~~= spec_append(old(args)@, name0, delim0, items_all).options);
    }
}

} // verus!
