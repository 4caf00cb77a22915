//! The options that configuration files define, and how the definitions of
//! several files become one.

use aopt::opt::Action;
use vstd::prelude::*;

verus! {

/// `aopt::opt::Action`: what an option does with the values that it is
/// given. The type belongs to the command-line parser; the library carries
/// its values and does not look into them, and nothing is known here of what
/// a value holds.
#[verifier::external_type_specification]
#[verifier::external_body]
pub struct ExAction(Action);

/// The information on an option that a configuration file holds.
#[derive(Debug, Clone)]
pub struct JsonConfig {
    pub id: String,
    pub option: String,
    pub hint: Option<String>,
    pub help: Option<String>,
    pub action: Option<Action>,
    pub alias: Option<Vec<String>>,
    pub value: Option<Vec<String>>,
}

/// The first of two optional settings that is there.
pub open spec fn or_else<T>(mine: Option<T>, theirs: Option<T>) -> Option<T> {
    match mine {
        Some(_) => mine,
        None => theirs,
    }
}

/// The option text of a definition that takes over from another: its own,
/// unless it has none.
pub open spec fn merged_option(mine: String, theirs: String) -> String {
    if mine@.len() == 0 {
        theirs
    } else {
        mine
    }
}

/// The strings of an optional list.
pub open spec fn listed(list: Option<Vec<String>>) -> Option<Seq<String>> {
    match list {
        Some(values) => Some(values@),
        None => None,
    }
}

/// The values of two definitions of one option, taken together: those of the
/// first, then those of the second.
pub open spec fn merged_values(
    mine: Option<Vec<String>>,
    theirs: Option<Vec<String>>,
) -> Option<Seq<String>> {
    match mine {
        Some(own) => match theirs {
            Some(more) => Some(own@ + more@),
            None => Some(own@),
        },
        None => listed(theirs),
    }
}

/// What is left of the values of a definition once another has taken them
/// over: an empty list where both had values, else nothing.
pub open spec fn left_values(
    mine: Option<Vec<String>>,
    theirs: Option<Vec<String>>,
) -> Option<Seq<String>> {
    if mine is Some && theirs is Some {
        Some(Seq::empty())
    } else {
        None
    }
}

impl JsonConfig {
    /// Takes the option text out, leaving an empty one.
    pub fn take_option(&mut self) -> (option: String)
        ensures
            option == old(self).option,
            final(self).option@ == Seq::<char>::empty(),
            *final(self) == (JsonConfig { option: final(self).option, ..*old(self) }),
    {
        let mut option = String::new();
        std::mem::swap(&mut self.option, &mut option);
        option
    }

    /// Takes the hint out, leaving none.
    pub fn take_hint(&mut self) -> (hint: Option<String>)
        ensures
            hint == old(self).hint,
            *final(self) == (JsonConfig { hint: None, ..*old(self) }),
    {
        self.hint.take()
    }

    /// Takes the help text out, leaving none.
    pub fn take_help(&mut self) -> (help: Option<String>)
        ensures
            help == old(self).help,
            *final(self) == (JsonConfig { help: None, ..*old(self) }),
    {
        self.help.take()
    }

    /// Takes the action out, leaving none.
    pub fn take_action(&mut self) -> (action: Option<Action>)
        ensures
            action == old(self).action,
            *final(self) == (JsonConfig { action: None, ..*old(self) }),
    {
        self.action.take()
    }

    /// Takes the aliases out, leaving none.
    pub fn take_alias(&mut self) -> (alias: Option<Vec<String>>)
        ensures
            alias == old(self).alias,
            *final(self) == (JsonConfig { alias: None, ..*old(self) }),
    {
        self.alias.take()
    }

    /// Takes the values out, leaving none.
    pub fn take_value(&mut self) -> (value: Option<Vec<String>>)
        ensures
            value == old(self).value,
            *final(self) == (JsonConfig { value: None, ..*old(self) }),
    {
        self.value.take()
    }

    /// Sets the name under which the option is known.
    pub fn set_id(&mut self, id: String) -> (this: &mut Self)
        ensures
            *this == (JsonConfig { id, ..*old(self) }),
            *final(self) == *final(this),
    {
        self.id = id;
        self
    }

    /// Sets the option text.
    pub fn set_option(&mut self, option: String) -> (this: &mut Self)
        ensures
            *this == (JsonConfig { option, ..*old(self) }),
            *final(self) == *final(this),
    {
        self.option = option;
        self
    }

    /// Sets the hint.
    pub fn set_hint(&mut self, hint: Option<String>) -> (this: &mut Self)
        ensures
            *this == (JsonConfig { hint, ..*old(self) }),
            *final(self) == *final(this),
    {
        self.hint = hint;
        self
    }

    /// Sets the help text.
    pub fn set_help(&mut self, help: Option<String>) -> (this: &mut Self)
        ensures
            *this == (JsonConfig { help, ..*old(self) }),
            *final(self) == *final(this),
    {
        self.help = help;
        self
    }

    /// Sets the action.
    pub fn set_action(&mut self, action: Option<Action>) -> (this: &mut Self)
        ensures
            *this == (JsonConfig { action, ..*old(self) }),
            *final(self) == *final(this),
    {
        self.action = action;
        self
    }

    /// Sets the aliases.
    pub fn set_alias(&mut self, alias: Option<Vec<String>>) -> (this: &mut Self)
        ensures
            *this == (JsonConfig { alias, ..*old(self) }),
            *final(self) == *final(this),
    {
        self.alias = alias;
        self
    }

    /// Sets the values.
    pub fn set_value(&mut self, value: Option<Vec<String>>) -> (this: &mut Self)
        ensures
            *this == (JsonConfig { value, ..*old(self) }),
            *final(self) == *final(this),
    {
        self.value = value;
        self
    }

    /// Takes over the values of another definition of the option: they come
    /// after this definition's own, and the other is left without them.
    pub fn merge_value(&mut self, other: &mut Self) -> (this: &mut Self)
        ensures
            listed(this.value) == merged_values(old(self).value, old(other).value),
            *this == (JsonConfig { value: this.value, ..*old(self) }),
            *final(self) == *final(this),
            listed(final(other).value) == left_values(old(self).value, old(other).value),
            *final(other) == (JsonConfig { value: final(other).value, ..*old(other) }),
    {
        match self.value.as_mut() {
            Some(value) => {
                if let Some(other_value) = other.value.as_mut() {
                    value.append(other_value);
                }
            },
            None => {
                self.value = other.value.take();
            },
        }
        self
    }
}

/// `i` is the place of the first definition of the option `id`.
pub open spec fn is_first_of(opts: Seq<JsonConfig>, id: Seq<char>, i: int) -> bool {
    &&& 0 <= i < opts.len()
    &&& opts[i].id@ == id
    &&& forall|j: int| 0 <= j < i ==> (#[trigger] opts[j]).id@ != id
}

/// The place of the first definition of the option `id`, if there is one.
pub open spec fn first_of(opts: Seq<JsonConfig>, id: Seq<char>) -> Option<int> {
    if exists|i: int| is_first_of(opts, id, i) {
        Some(choose|i: int| is_first_of(opts, id, i))
    } else {
        None
    }
}

/// An option has at most one first definition; `first_of` is its place.
pub proof fn lemma_first_of_unique(opts: Seq<JsonConfig>, id: Seq<char>, i: int)
    requires
        is_first_of(opts, id, i),
    ensures
        first_of(opts, id) == Some(i),
{
    let k = choose|k: int| is_first_of(opts, id, k);
    assert(is_first_of(opts, id, k));
    if k < i {
        assert(opts[k].id@ != id);
    } else if i < k {
        assert(opts[i].id@ != id);
    }
}

/// `merged` is the definition `mine` after it took over from `theirs` what it
/// lacked: the option text, hint, help, action and aliases that it did not
/// have, and all the values.
pub open spec fn takes_over(mine: JsonConfig, theirs: JsonConfig, merged: JsonConfig) -> bool {
    &&& merged.id == mine.id
    &&& merged.option == merged_option(mine.option, theirs.option)
    &&& merged.hint == or_else(mine.hint, theirs.hint)
    &&& merged.help == or_else(mine.help, theirs.help)
    &&& merged.action == or_else(mine.action, theirs.action)
    &&& merged.alias == or_else(mine.alias, theirs.alias)
    &&& listed(merged.value) == merged_values(mine.value, theirs.value)
}

/// Whether one of the pairs is for the option `id`.
pub open spec fn names(pairs: Seq<(String, String)>, id: Seq<char>) -> bool {
    exists|k: int| 0 <= k < pairs.len() && (#[trigger] pairs[k]).0@ == id
}

/// The pair holds the name of an option and the option text of its first
/// definition.
pub open spec fn is_first_option(loaded: Seq<JsonConfig>, pair: (String, String)) -> bool {
    exists|i: int| is_first_of(loaded, pair.0@, i) && pair.1@ == loaded[i].option@
}

/// The pairs are, for each option that the definitions define, its name and
/// the option text of its first definition.
pub open spec fn are_first_options(loaded: Seq<JsonConfig>, pairs: Seq<(String, String)>) -> bool {
    &&& forall|k: int| 0 <= k < pairs.len() ==> is_first_option(loaded, #[trigger] pairs[k])
    &&& forall|i: int| 0 <= i < loaded.len() ==> names(pairs, (#[trigger] loaded[i]).id@)
    &&& forall|j: int, k: int|
        0 <= j < k < pairs.len() ==> first_of(loaded, (#[trigger] pairs[j]).0@)->0 < first_of(
            loaded,
            (#[trigger] pairs[k]).0@,
        )->0
}

/// The name and the option text of each option that the definitions define:
/// the text of its first definition, the options in the order in which they
/// are first defined. A later definition of an option adds to the first and
/// does not change what the option is.
pub fn first_options(loaded: &Vec<JsonConfig>) -> (pairs: Vec<(String, String)>)
    ensures
        are_first_options(loaded@, pairs@),
{
    let mut pairs: Vec<(String, String)> = Vec::new();
    let mut i: usize = 0;
    while i < loaded.len()
        invariant
            i <= loaded.len(),
            are_first_options(loaded@.take(i as int), pairs@),
        decreases loaded.len() - i,
    {
        let ghost seen = loaded@.take(i as int);
        let ghost upto = loaded@.take(i + 1);
        let ghost before = pairs@;
        let cfg = &loaded[i];
        let mut known = false;
        let mut k: usize = 0;
        while k < pairs.len()
            invariant
                k <= pairs.len(),
                !known ==> forall|j: int| 0 <= j < k ==> (#[trigger] pairs@[j]).0@ != cfg.id@,
                known ==> names(pairs@, cfg.id@),
            decreases pairs.len() - k,
        {
            if pairs[k].0 == cfg.id {
                known = true;
            }
            k = k + 1;
        }
        if !known {
            pairs.push((cfg.id.clone(), cfg.option.clone()));
        }
        proof {
            assert forall|n: int| 0 <= n < upto.len() implies names(
                pairs@,
                (#[trigger] upto[n]).id@,
            ) by {
                if n < i {
                    assert(seen[n] == upto[n]);
                    assert(names(before, seen[n].id@));
                    let w = choose|w: int| 0 <= w < before.len() && (#[trigger] before[w]).0@
                        == seen[n].id@;
                    assert(pairs@[w].0@ == upto[n].id@);
                } else if known {
                    let w = choose|w: int| 0 <= w < before.len() && (#[trigger] before[w]).0@
                        == cfg.id@;
                    assert(pairs@[w].0@ == upto[n].id@);
                } else {
                    assert(pairs@[before.len() as int].0@ == upto[n].id@);
                }
            }
            assert forall|w: int| 0 <= w < pairs@.len() implies is_first_option(
                upto,
                #[trigger] pairs@[w],
            ) by {
                if w < before.len() {
                    assert(is_first_option(seen, before[w]));
                    let n = choose|n: int|
                        is_first_of(seen, before[w].0@, n) && before[w].1@ == seen[n].option@;
                    assert forall|j: int| 0 <= j < n implies (#[trigger] upto[j]).id@
                        != before[w].0@ by {
                        assert(seen[j] == upto[j]);
                    }
                    assert(seen[n] == upto[n]);
                    assert(is_first_of(upto, pairs@[w].0@, n));
                } else {
                    assert forall|j: int| 0 <= j < i implies (#[trigger] upto[j]).id@
                        != cfg.id@ by {
                        assert(seen[j] == upto[j]);
                        assert(names(before, seen[j].id@));
                    }
                    assert(is_first_of(upto, pairs@[w].0@, i as int));
                }
            }
            assert forall|w: int| 0 <= w < before.len() implies first_of(
                upto,
                (#[trigger] before[w]).0@,
            ) == first_of(seen, before[w].0@) && first_of(seen, before[w].0@)->0 < i by {
                assert(is_first_option(seen, before[w]));
                let n = choose|n: int|
                    is_first_of(seen, before[w].0@, n) && before[w].1@ == seen[n].option@;
                assert forall|j: int| 0 <= j < n implies (#[trigger] upto[j]).id@
                    != before[w].0@ by {
                    assert(seen[j] == upto[j]);
                }
                assert(seen[n] == upto[n]);
                lemma_first_of_unique(seen, before[w].0@, n);
                lemma_first_of_unique(upto, before[w].0@, n);
            }
            assert forall|j: int, w: int| 0 <= j < w < pairs@.len() implies first_of(
                upto,
                (#[trigger] pairs@[j]).0@,
            )->0 < first_of(upto, (#[trigger] pairs@[w]).0@)->0 by {
                assert(pairs@[j] == before[j]);
                if w < before.len() {
                    assert(pairs@[w] == before[w]);
                } else {
                    assert forall|n: int| 0 <= n < i implies (#[trigger] upto[n]).id@
                        != cfg.id@ by {
                        assert(seen[n] == upto[n]);
                        assert(names(before, seen[n].id@));
                    }
                    lemma_first_of_unique(upto, pairs@[w].0@, i as int);
                }
            }
        }
        i = i + 1;
    }
    proof {
        assert(loaded@.take(i as int) =~= loaded@);
    }
    pairs
}

/// The options that configuration files define, one definition for each.
#[derive(Debug, Clone)]
pub struct JsonOptCollection {
    pub opts: Vec<JsonConfig>,
}

impl Default for JsonOptCollection {
    fn default() -> (collection: Self)
        ensures
            collection.opts@.len() == 0,
    {
        JsonOptCollection { opts: Vec::new() }
    }
}

impl JsonOptCollection {
    /// The place of the first definition of the option `id`.
    fn find(&self, id: &String) -> (found: Option<usize>)
        ensures
            match found {
                Some(i) => first_of(self.opts@, id@) == Some(i as int) && i < self.opts@.len(),
                None => first_of(self.opts@, id@) is None,
            },
    {
        let mut i: usize = 0;
        while i < self.opts.len()
            invariant
                i <= self.opts.len(),
                forall|j: int| 0 <= j < i ==> (#[trigger] self.opts@[j]).id@ != id@,
            decreases self.opts.len() - i,
        {
            if self.opts[i].id == *id {
                proof {
                    lemma_first_of_unique(self.opts@, id@, i as int);
                }
                return Some(i);
            }
            i = i + 1;
        }
        proof {
            if exists|k: int| is_first_of(self.opts@, id@, k) {
                let k = choose|k: int| is_first_of(self.opts@, id@, k);
                assert(self.opts@[k].id@ == id@);
            }
        }
        None
    }

    /// Adds a definition. Where the collection has one for the same option,
    /// that one takes over from the new one what it lacks, and all its
    /// values; else the new definition joins the collection as its last.
    pub fn add_json_config(&mut self, cfg: JsonConfig) -> (this: &mut Self)
        ensures
            *final(self) == *final(this),
            match first_of(old(self).opts@, cfg.id@) {
                Some(i) => {
                    &&& this.opts@.len() == old(self).opts@.len()
                    &&& takes_over(old(self).opts@[i], cfg, this.opts@[i])
                    &&& forall|j: int|
                        0 <= j < this.opts@.len() && j != i ==> this.opts@[j] == old(
                            self,
                        ).opts@[j]
                },
                None => this.opts@ == old(self).opts@.push(cfg),
            },
    {
        let mut cfg = cfg;
        match self.find(&cfg.id) {
            Some(i) => {
                let config = &mut self.opts[i];
                if config.option.as_str().is_empty() {
                    config.set_option(cfg.take_option());
                }
                if config.hint.is_none() {
                    config.set_hint(cfg.take_hint());
                }
                if config.help.is_none() {
                    config.set_help(cfg.take_help());
                }
                if config.action.is_none() {
                    config.set_action(cfg.take_action());
                }
                if config.alias.is_none() {
                    config.set_alias(cfg.take_alias());
                }
                config.merge_value(&mut cfg);
            },
            None => {
                self.opts.push(cfg);
            },
        }
        self
    }
}

} // verus!
