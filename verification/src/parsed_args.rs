//! The dialect-neutral structured representation of an argument list.
//!
//! An argument list is a sequence of option occurrences, each carrying an
//! ordered list of values, followed by a sequence of positional arguments.
//! Option order is significant: it records encounter order on parse, decides
//! which occurrence is "last" for name-based edits, and fixes emission order
//! on generate. Duplicate names are legal and meaningful.

use vstd::prelude::*;

verus! {

/// Identity of an option: a single-character short name or a
/// multi-character long name. No normalization relates the two forms.
#[derive(Debug)]
pub enum OptName {
    Long(String),
    Short(char),
}

/// The mathematical value of an [`OptName`]: the long name as its
/// character sequence, the short name as its character.
#[verifier::ext_equal]
pub enum OptNameV {
    Long(Seq<char>),
    Short(char),
}

impl View for OptName {
    type V = OptNameV;

    open spec fn view(&self) -> OptNameV {
        match self {
            OptName::Long(s) => OptNameV::Long(s@),
            OptName::Short(c) => OptNameV::Short(*c),
        }
    }
}

impl DeepView for OptName {
    type V = OptNameV;

    open spec fn deep_view(&self) -> OptNameV {
        self.view()
    }
}

impl Clone for OptName {
    fn clone(&self) -> (res: Self)
        ensures
            res == self,
    {
        match self {
            OptName::Long(s) => OptName::Long(s.clone()),
            OptName::Short(c) => OptName::Short(*c),
        }
    }
}

impl PartialEq for OptName {
    fn eq(&self, other: &Self) -> (res: bool) {
        match (self, other) {
            (OptName::Long(a), OptName::Long(b)) => a.eq(b),
            (OptName::Short(a), OptName::Short(b)) => *a == *b,
            _ => false,
        }
    }
}

impl vstd::std_specs::cmp::PartialEqSpecImpl for OptName {
    open spec fn obeys_eq_spec() -> bool {
        true
    }

    open spec fn eq_spec(&self, other: &Self) -> bool {
        self@ == other@
    }
}

impl OptName {
    /// Turns a name string into an option name: one character makes a short
    /// name, more make a long name; an empty string is no name at all.
    pub fn try_from_str(value: &str) -> (r: Option<OptName>)
        ensures
            match r {
                Some(n) => value@.len() > 0 && n@ == spec_name_of(value@),
                None => value@.len() == 0,
            },
    {
        let n = value.unicode_len();
        if n == 0 {
            None
        } else if n == 1 {
            Some(OptName::Short(value.get_char(0)))
        } else {
            Some(OptName::Long(value.to_owned()))
        }
    }
}

/// The option name denoted by a non-empty name string.
pub open spec fn spec_name_of(s: Seq<char>) -> OptNameV {
    if s.len() == 1 {
        OptNameV::Short(s[0])
    } else {
        OptNameV::Long(s)
    }
}

/// One occurrence of an option as encountered or synthesized: its name and
/// its ordered values.
#[derive(Debug, PartialEq)]
pub struct ParsedOpt {
    pub name: OptName,
    pub values: Vec<String>,
}

/// The mathematical value of a [`ParsedOpt`].
#[verifier::ext_equal]
pub struct OptV {
    pub name: OptNameV,
    pub values: Seq<Seq<char>>,
}

impl View for ParsedOpt {
    type V = OptV;

    open spec fn view(&self) -> OptV {
        OptV { name: self.name@, values: self.values.deep_view() }
    }
}

impl DeepView for ParsedOpt {
    type V = OptV;

    open spec fn deep_view(&self) -> OptV {
        self.view()
    }
}

impl Clone for ParsedOpt {
    fn clone(&self) -> (res: Self)
        ensures
            res@ == self@,
    {
        let values = self.values.clone();
        assert(values.deep_view() =~= self.values.deep_view());
        ParsedOpt { name: self.name.clone(), values }
    }
}

/// A full argument list: option occurrences in encounter order, then
/// positional arguments in encounter order.
#[derive(Debug, PartialEq)]
pub struct ParsedArgs {
    pub options: Vec<ParsedOpt>,
    pub positional: Vec<String>,
}

/// The mathematical value of a [`ParsedArgs`].
#[verifier::ext_equal]
pub struct ArgsV {
    pub options: Seq<OptV>,
    pub positional: Seq<Seq<char>>,
}

impl View for ParsedArgs {
    type V = ArgsV;

    open spec fn view(&self) -> ArgsV {
        ArgsV { options: self.options.deep_view(), positional: self.positional.deep_view() }
    }
}

impl Default for ParsedArgs {
    /// An empty argument list.
    fn default() -> (r: Self)
        ensures
            r@.options =~= Seq::<OptV>::empty(),
            r@.positional =~= Seq::<Seq<char>>::empty(),
    {
        let r = ParsedArgs { options: Vec::new(), positional: Vec::new() };
        assert(r@.options =~= Seq::<OptV>::empty());
        assert(r@.positional =~= Seq::<Seq<char>>::empty());
        r
    }
}

/// The index of the last option occurrence with the given name, if any.
pub open spec fn last_index(opts: Seq<OptV>, name: OptNameV) -> Option<int>
    decreases opts.len(),
{
    if opts.len() == 0 {
        None
    } else if opts.last().name == name {
        Some(opts.len() - 1)
    } else {
        last_index(opts.drop_last(), name)
    }
}

/// What [`last_index`] finds is a match, is the last match, and exists
/// exactly when some occurrence matches.
pub proof fn lemma_last_index(opts: Seq<OptV>, name: OptNameV)
    ensures
        match last_index(opts, name) {
            Some(i) => 0 <= i < opts.len() && opts[i].name == name && (forall|j: int|
                i < j < opts.len() ==> (#[trigger] opts[j].name) != name),
            None => forall|j: int| 0 <= j < opts.len() ==> (#[trigger] opts[j].name) != name,
        },
    decreases opts.len(),
{
    if opts.len() > 0 && opts.last().name != name {
        lemma_last_index(opts.drop_last(), name);
        assert(forall|j: int|
            0 <= j < opts.len() - 1 ==> opts.drop_last()[j] == (#[trigger] opts[j]));
    }
}

impl ParsedArgs {
    /// The index of the last option occurrence whose name matches, if any.
    pub(crate) fn find_last(&self, name: &OptName) -> (r: Option<usize>)
        ensures
            match r {
                Some(i) => last_index(self@.options, name@) == Some(i as int),
                None => last_index(self@.options, name@) is None,
            },
    {
        let mut i = self.options.len();
        proof {
            assert(self@.options.subrange(0, self@.options.len() as int) =~= self@.options);
        }
        while i > 0
            invariant
                i <= self.options.len(),
                last_index(self@.options, name@) == last_index(
                    self@.options.subrange(0, i as int),
                    name@,
                ),
            decreases i,
        {
            i = i - 1;
            if self.options[i].name.eq(&name) {
                proof {
                    let pre = self@.options.subrange(0, i + 1);
                    assert(pre.last() == self@.options[i as int]);
                }
                return Some(i);
            }
            proof {
                let pre = self@.options.subrange(0, i + 1);
                assert(pre.last() == self@.options[i as int]);
                assert(pre.drop_last() =~= self@.options.subrange(0, i as int));
            }
        }
        proof {
            assert(self@.options.subrange(0, 0) =~= Seq::<OptV>::empty());
        }
        None
    }

    /// Deletes every option occurrence whose name matches, keeping the
    /// relative order of the remainder and the positional arguments intact.
    pub fn remove_all_options(&mut self, name: OptName)
        ensures
            final(self)@.options == spec_remove_all(old(self)@.options, name@),
            final(self)@.positional == old(self)@.positional,
    {
        let mut kept: Vec<ParsedOpt> = Vec::new();
        let mut i: usize = 0;
        proof {
            reveal(Seq::filter);
            assert(old(self)@.options.subrange(0, 0) =~= Seq::<OptV>::empty());
            assert(kept.deep_view() =~= Seq::<OptV>::empty());
        }
        while i < self.options.len()
            invariant
                i <= self.options.len(),
                self == old(self),
                kept.deep_view() == spec_remove_all(
                    old(self)@.options.subrange(0, i as int),
                    name@,
                ),
            decreases self.options.len() - i,
        {
            let ghost pre = old(self)@.options.subrange(0, i as int);
            let ghost post = old(self)@.options.subrange(0, i + 1);
            proof {
                reveal(Seq::filter);
                assert(post.drop_last() =~= pre);
                assert(post.last() == old(self)@.options[i as int]);
            }
            if !self.options[i].name.eq(&name) {
                kept.push(self.options[i].clone());
                proof {
                    assert(kept.deep_view() =~= spec_remove_all(post, name@));
                }
            } else {
                proof {
                    assert(kept.deep_view() =~= spec_remove_all(post, name@));
                }
            }
            i = i + 1;
        }
        proof {
            assert(old(self)@.options.subrange(0, old(self)@.options.len() as int) =~= old(
                self,
            )@.options);
        }
        self.options = kept;
    }

    /// Hands the value list of the last option occurrence whose name
    /// matches to `update_values` and stores what it returns there; when no
    /// occurrence exists, a new one is appended, built from an empty list
    /// the same way.
    pub fn update_last_option<F: FnOnce(Vec<String>) -> Vec<String>>(
        &mut self,
        name: OptName,
        update_values: F,
    )
        requires
            forall|v: Vec<String>| #[trigger] call_requires(update_values, (v,)),
        ensures
            final(self)@.positional == old(self)@.positional,
            match last_index(old(self)@.options, name@) {
                Some(i) => exists|nv: Vec<String>|
                    {
                        &&& #[trigger] call_ensures(
                            update_values,
                            (old(self).options@[i].values,),
                            nv,
                        )
                        &&& final(self)@.options == old(self)@.options.update(
                            i,
                            OptV { name: old(self)@.options[i].name, values: nv.deep_view() },
                        )
                    },
                None => exists|w: Vec<String>, nv: Vec<String>|
                    {
                        &&& w@.len() == 0
                        &&& #[trigger] call_ensures(update_values, (w,), nv)
                        &&& final(self)@.options == old(self)@.options.push(
                            OptV { name: name@, values: nv.deep_view() },
                        )
                    },
            },
    {
        proof {
            lemma_last_index(self@.options, name@);
        }
        match self.find_last(&name) {
            Some(i) => {
                let entry = self.options.remove(i);
                let ParsedOpt { name: entry_name, values } = entry;
                let new_values = update_values(values);
                self.options.insert(i, ParsedOpt { name: entry_name, values: new_values });
                proof {
                    assert(self@.options =~~= old(self)@.options.update(
                        i as int,
                        OptV {
                            name: old(self)@.options[i as int].name,
                            values: new_values.deep_view(),
                        },
                    ));
                    assert(self@.positional =~~= old(self)@.positional);
                }
            },
            None => {
                let fresh: Vec<String> = Vec::new();
                let new_values = update_values(fresh);
                self.options.push(ParsedOpt { name, values: new_values });
                proof {
                    assert(self@.options =~~= old(self)@.options.push(
                        OptV { name: name@, values: new_values.deep_view() },
                    ));
                }
            },
        }
    }

    /// Overwrites the values of the last option occurrence whose name
    /// matches, or appends a new occurrence when none exists.
    pub fn set_last_option(&mut self, name: OptName, values: Vec<String>)
        ensures
            final(self)@ == spec_set_last(old(self)@, name@, values.deep_view()),
    {
        match self.find_last(&name) {
            Some(i) => {
                proof {
                    lemma_last_index(old(self)@.options, name@);
                }
                self.options[i].values = values;
                proof {
                    let o = old(self)@;
                    assert(final(self)@.options =~= o.options.update(
                        i as int,
                        OptV { name: o.options[i as int].name, values: values.deep_view() },
                    ));
                }
            },
            None => {
                self.options.push(ParsedOpt { name, values });
                proof {
                    let o = old(self)@;
                    assert(final(self)@.options =~= o.options.push(
                        OptV { name: name@, values: values.deep_view() },
                    ));
                }
            },
        }
    }
}

/// The option occurrences that survive deleting every occurrence of the
/// given name; relative order is kept.
pub open spec fn spec_remove_all(opts: Seq<OptV>, name: OptNameV) -> Seq<OptV> {
    opts.filter(|o: OptV| o.name != name)
}

/// The semantics of a set-style edit: overwrite the values of the last
/// occurrence of the name, or append a fresh occurrence when none exists.
pub open spec fn spec_set_last(a: ArgsV, name: OptNameV, values: Seq<Seq<char>>) -> ArgsV {
    match last_index(a.options, name) {
        Some(i) => ArgsV {
            options: a.options.update(i, OptV { name: a.options[i].name, values }),
            positional: a.positional,
        },
        None => ArgsV {
            options: a.options.push(OptV { name, values }),
            positional: a.positional,
        },
    }
}

} // verus!
