//! The finder: the names and extensions that are looked for, and the switches
//! of a search.

use crate::matcher::{checking_ext, name_matches};
use crate::text::{lowercase, to_lowercase};
use vstd::hash_set::StringHashSet;
use vstd::prelude::*;
use vstd::string::StringExecFns;

verus! {

/// What the command line gave for the options that every search has.
#[derive(Debug)]
pub struct Selection {
    /// The one group of names to search by, if the search is limited to one.
    pub only: Option<String>,
    /// The groups of names that are left out.
    pub exclude: Option<Vec<String>>,
    /// Extensions that are not looked for, whichever group names them.
    pub ex_exts: Option<Vec<String>>,
    /// Whole names that are not looked for.
    pub ex_whos: Option<Vec<String>>,
    /// Whole names to look for.
    pub whole: Option<Vec<String>>,
    /// Extensions to look for.
    pub extension: Option<Vec<String>>,
    /// Report each match by its absolute path.
    pub full: bool,
    /// Compare names without regard to case.
    pub igcase: bool,
    /// Stay out of directories.
    pub flat: bool,
    /// Search hidden files and directories too.
    pub hidden: bool,
    /// Report the files that do not match.
    pub invert: bool,
}

/// A group of extensions that a configuration defines, with the values that
/// the command line gave for its option.
#[derive(Debug)]
pub struct Category {
    pub id: String,
    pub values: Option<Vec<String>>,
}

/// Whether `text` is one of the strings of `list`.
pub open spec fn holds(list: Seq<String>, text: Seq<char>) -> bool {
    exists|i: int| 0 <= i < list.len() && (#[trigger] list[i])@ == text
}

/// The texts that a list holds; none where there is no list.
pub open spec fn values_of(list: Option<Vec<String>>) -> Set<Seq<char>> {
    match list {
        Some(v) => Set::new(|s: Seq<char>| holds(v@, s)),
        None => Set::empty(),
    }
}

/// Whether the group called `name`, or `short` for short, takes part in the
/// search: it does unless the search is limited to another group, or the
/// group is left out.
pub open spec fn group_enabled(selection: Selection, name: Seq<char>, short: Seq<char>) -> bool {
    &&& selection.only matches Some(only) ==> only@ == name || only@ == short
    &&& !values_of(selection.exclude).contains(name)
    &&& !values_of(selection.exclude).contains(short)
}

/// The whole names that a selection asks for, as they were written.
pub open spec fn wanted_whole_names(selection: Selection) -> Set<Seq<char>> {
    Set::new(
        |s: Seq<char>|
            {
                &&& group_enabled(selection, "whole"@, "w"@)
                &&& values_of(selection.whole).contains(s)
                &&& !values_of(selection.ex_whos).contains(s)
            },
    )
}

/// The extensions that the option for extensions asks for.
pub open spec fn option_extensions(selection: Selection) -> Set<Seq<char>> {
    Set::new(
        |s: Seq<char>|
            {
                &&& group_enabled(selection, "extension"@, "e"@)
                &&& values_of(selection.extension).contains(s)
                &&& !values_of(selection.ex_exts).contains(s)
            },
    )
}

/// The extensions that a category asks for.
pub open spec fn category_extensions(category: Category, selection: Selection) -> Set<Seq<char>> {
    Set::new(
        |s: Seq<char>|
            {
                &&& group_enabled(selection, category.id@, ""@)
                &&& values_of(category.values).contains(s)
                &&& !values_of(selection.ex_exts).contains(s)
            },
    )
}

/// The extensions that the first `n` categories ask for.
pub open spec fn categories_extensions(opts: Seq<Category>, selection: Selection, n: int) -> Set<
    Seq<char>,
> {
    Set::new(
        |s: Seq<char>|
            exists|k: int|
                0 <= k < n && k < opts.len() && category_extensions(
                    #[trigger] opts[k],
                    selection,
                ).contains(s),
    )
}

/// The extensions that a selection and the categories ask for, as they were
/// written.
pub open spec fn wanted_extensions(opts: Seq<Category>, selection: Selection) -> Set<Seq<char>> {
    option_extensions(selection).union(categories_extensions(opts, selection, opts.len() as int))
}

/// A text as the finder keeps it: in lower case when case is ignored, else
/// as it is.
pub open spec fn keep(text: Seq<char>, igcase: bool) -> Seq<char> {
    if igcase {
        lowercase(text)
    } else {
        text
    }
}

/// The texts of a set as the finder keeps them.
pub open spec fn kept(texts: Set<Seq<char>>, igcase: bool) -> Set<Seq<char>> {
    Set::new(|s: Seq<char>| exists|t: Seq<char>| texts.contains(t) && keep(t, igcase) == s)
}

/// Where case counts, the finder keeps the texts as they are.
pub proof fn kept_as_written(texts: Set<Seq<char>>)
    ensures
        kept(texts, false) == texts,
{
    assert forall|s: Seq<char>| texts.contains(s) implies kept(texts, false).contains(s) by {
        assert(keep(s, false) == s);
    }
    assert(kept(texts, false) =~= texts);
}

/// The texts of `values` that `except` does not hold.
pub open spec fn listed_except(values: Seq<String>, except: Option<Vec<String>>) -> Set<Seq<char>> {
    Set::new(|s: Seq<char>| holds(values, s) && !values_of(except).contains(s))
}

/// What a search looks for and how it goes about it.
pub struct Finder {
    full: bool,
    debug: bool,
    verb: bool,
    hidden: bool,
    reverse: bool,
    igcase: bool,
    invert: bool,
    whos: StringHashSet,
    exts: StringHashSet,
}

impl Finder {
    /// Matches are reported by their absolute path.
    pub closed spec fn full(&self) -> bool {
        self.full
    }

    /// The search tells what it does.
    pub closed spec fn debug(&self) -> bool {
        self.debug
    }

    /// More is told about the search as it goes.
    pub closed spec fn verbose(&self) -> bool {
        self.verb
    }

    /// Hidden files and directories are searched too.
    pub closed spec fn include_hidden(&self) -> bool {
        self.hidden
    }

    /// Directories are entered.
    pub closed spec fn recurse(&self) -> bool {
        self.reverse
    }

    /// Names are compared without regard to case.
    pub closed spec fn ignore_case(&self) -> bool {
        self.igcase
    }

    /// The files that do not match are the ones reported.
    pub closed spec fn invert(&self) -> bool {
        self.invert
    }

    /// The whole names that are looked for.
    pub closed spec fn whole_names(&self) -> Set<Seq<char>> {
        self.whos@
    }

    /// The extensions that are looked for.
    pub closed spec fn extensions(&self) -> Set<Seq<char>> {
        self.exts@
    }

    /// Whether a file name matches, before inversion: as it is written, or,
    /// when case is ignored, also in its lower-case form.
    pub open spec fn matched(&self, name: Seq<char>) -> bool {
        ||| name_matches(name, self.whole_names(), self.extensions())
        ||| self.ignore_case() && name_matches(
            lowercase(name),
            self.whole_names(),
            self.extensions(),
        )
    }

    /// Whether a file of this name is reported: it matches and the finder does
    /// not invert, or it does not match and the finder inverts.
    pub open spec fn selects(&self, name: Seq<char>) -> bool {
        self.matched(name) != self.invert()
    }
}

/// Where case is ignored, two spellings of a name, spellings with the same
/// lower-case form, are matched together wherever that form matches: the
/// case in which a name is written does not keep it from being found.
pub proof fn spellings_match_together(finder: Finder, name: Seq<char>, other: Seq<char>)
    requires
        finder.ignore_case(),
        lowercase(name) == lowercase(other),
        name_matches(lowercase(name), finder.whole_names(), finder.extensions()),
    ensures
        finder.matched(name),
        finder.matched(other),
        finder.selects(name) == finder.selects(other),
{
}

/// Where case is ignored, a name is matched once its lower-case form is,
/// for every name whose lower-case form is in lower case already.
pub proof fn lower_case_form_is_enough(finder: Finder, name: Seq<char>)
    requires
        finder.ignore_case(),
        lowercase(lowercase(name)) == lowercase(name),
    ensures
        finder.matched(lowercase(name)) == name_matches(
            lowercase(name),
            finder.whole_names(),
            finder.extensions(),
        ),
        finder.matched(lowercase(name)) ==> finder.matched(name),
{
}

/// Where case is ignored, a name and its lower-case form are matched alike,
/// and reported alike, for every name whose lower-case form is in lower case
/// already and which does not match as it is written unless its lower-case
/// form matches too.
pub proof fn name_and_lower_case_form_match_alike(finder: Finder, name: Seq<char>)
    requires
        finder.ignore_case(),
        lowercase(lowercase(name)) == lowercase(name),
        name_matches(name, finder.whole_names(), finder.extensions()) ==> name_matches(
            lowercase(name),
            finder.whole_names(),
            finder.extensions(),
        ),
    ensures
        finder.matched(name) == finder.matched(lowercase(name)),
        finder.selects(name) == finder.selects(lowercase(name)),
{
}

/// Where case counts, a name is matched exactly as the whole names and the
/// extensions say.
pub proof fn exact_match_where_case_counts(finder: Finder, name: Seq<char>)
    requires
        !finder.ignore_case(),
    ensures
        finder.matched(name) == name_matches(name, finder.whole_names(), finder.extensions()),
{
}

/// A finder that inverts reports exactly the files that one which does not
/// invert, and looks for the same, passes over.
pub proof fn inversion_is_complement(finder: Finder, other: Finder, name: Seq<char>)
    requires
        finder.invert(),
        !other.invert(),
        finder.ignore_case() == other.ignore_case(),
        finder.whole_names() == other.whole_names(),
        finder.extensions() == other.extensions(),
    ensures
        finder.selects(name) == !other.selects(name),
{
}

/// Whether `text` is one of the strings of `list`.
fn contains_text(list: &Vec<String>, text: &String) -> (found: bool)
    ensures
        found == holds(list@, text@),
{
    let mut i: usize = 0;
    while i < list.len()
        invariant
            i <= list.len(),
            forall|j: int| 0 <= j < i ==> (#[trigger] list@[j])@ != text@,
        decreases list.len() - i,
    {
        if list[i] == *text {
            return true;
        }
        i = i + 1;
    }
    false
}

/// Whether `text` is one of `list`.
fn listed(list: &Option<Vec<String>>, text: &String) -> (found: bool)
    ensures
        found == values_of(*list).contains(text@),
{
    match list {
        None => false,
        Some(v) => contains_text(v, text),
    }
}

/// Whether the group called `name`, or `short` for short, takes part.
fn enabled(selection: &Selection, name: &String, short: &String) -> (yes: bool)
    ensures
        yes == group_enabled(*selection, name@, short@),
{
    let limited_to_other = match &selection.only {
        Some(only) => !(*only == *name || *only == *short),
        None => false,
    };
    !limited_to_other && !listed(&selection.exclude, name) && !listed(&selection.exclude, short)
}

/// Adds to `set` the texts of `values` that `except` does not hold, each as
/// the finder keeps it.
fn add_all(
    set: &mut StringHashSet,
    values: &Vec<String>,
    except: &Option<Vec<String>>,
    igcase: bool,
)
    ensures
        final(set)@ == old(set)@.union(kept(listed_except(values@, *except), igcase)),
{
    let mut i: usize = 0;
    proof {
        assert(set@ =~= old(set)@.union(kept(listed_except(values@.take(0), *except), igcase)));
    }
    while i < values.len()
        invariant
            i <= values.len(),
            set@ == old(set)@.union(kept(listed_except(values@.take(i as int), *except), igcase)),
        decreases values.len() - i,
    {
        let ghost first = listed_except(values@.take(i as int), *except);
        let ghost next = listed_except(values@.take(i + 1), *except);
        let ghost text = values@[i as int]@;
        let skip = listed(except, &values[i]);
        if !skip {
            let entry = if igcase {
                to_lowercase(values[i].as_str())
            } else {
                values[i].clone()
            };
            set.insert(entry);
        }
        proof {
            let grown = if skip {
                kept(first, igcase)
            } else {
                kept(first, igcase).insert(keep(text, igcase))
            };
            assert forall|s: Seq<char>| kept(next, igcase).contains(s) implies grown.contains(
                s,
            ) by {
                let t = choose|t: Seq<char>| next.contains(t) && keep(t, igcase) == s;
                let k = choose|k: int|
                    0 <= k < values@.take(i + 1).len() && (#[trigger] values@.take(i + 1)[k])@ == t;
                if k < i {
                    assert(values@.take(i as int)[k]@ == t);
                    assert(first.contains(t));
                }
            }
            assert forall|s: Seq<char>| grown.contains(s) implies kept(next, igcase).contains(
                s,
            ) by {
                if kept(first, igcase).contains(s) {
                    let t = choose|t: Seq<char>| first.contains(t) && keep(t, igcase) == s;
                    let k = choose|k: int|
                        0 <= k < values@.take(i as int).len() && (#[trigger] values@.take(
                            i as int,
                        )[k])@ == t;
                    assert(values@.take(i + 1)[k]@ == t);
                    assert(next.contains(t));
                } else {
                    assert(values@.take(i + 1)[i as int]@ == text);
                    assert(next.contains(text));
                }
            }
            assert(kept(next, igcase) =~= grown);
            assert(set@ =~= old(set)@.union(kept(next, igcase)));
        }
        i = i + 1;
    }
    proof {
        assert(values@.take(i as int) =~= values@);
    }
}

/// Adds to `exts` what each category that takes part asks for.
fn add_categories(exts: &mut StringHashSet, opts: &Vec<Category>, selection: &Selection)
    ensures
        final(exts)@ == old(exts)@.union(
            kept(categories_extensions(opts@, *selection, opts@.len() as int), selection.igcase),
        ),
{
    let empty = String::from_str("");
    let igcase = selection.igcase;
    let mut i: usize = 0;
    proof {
        assert(kept(categories_extensions(opts@, *selection, 0), igcase) =~= Set::<
            Seq<char>,
        >::empty());
        assert(exts@ =~= old(exts)@.union(kept(categories_extensions(opts@, *selection, 0), igcase)));
    }
    while i < opts.len()
        invariant
            i <= opts.len(),
            empty@ == ""@,
            igcase == selection.igcase,
            exts@ == old(exts)@.union(
                kept(categories_extensions(opts@, *selection, i as int), igcase),
            ),
        decreases opts.len() - i,
    {
        let ghost before = exts@;
        let category = &opts[i];
        let ghost added = category_extensions(*category, *selection);
        let ghost below = categories_extensions(opts@, *selection, i as int);
        let ghost upto = categories_extensions(opts@, *selection, i + 1);
        let mut took = false;
        if enabled(selection, &category.id, &empty) {
            if let Some(values) = &category.values {
                add_all(exts, values, &selection.ex_exts, igcase);
                took = true;
                proof {
                    assert(added =~= listed_except(values@, selection.ex_exts));
                }
            }
        }
        proof {
            if !took {
                assert(added =~= Set::<Seq<char>>::empty());
                assert(kept(added, igcase) =~= Set::<Seq<char>>::empty());
            }
            assert(exts@ =~= before.union(kept(added, igcase)));
            assert forall|s: Seq<char>| upto.contains(s) implies below.contains(s)
                || added.contains(s) by {
                let k = choose|k: int|
                    0 <= k < i + 1 && k < opts@.len() && category_extensions(
                        #[trigger] opts@[k],
                        *selection,
                    ).contains(s);
                if k < i {
                    assert(below.contains(s));
                }
            }
            assert forall|s: Seq<char>| added.contains(s) implies upto.contains(s) by {
                assert(category_extensions(opts@[i as int], *selection).contains(s));
            }
            assert forall|s: Seq<char>| below.contains(s) implies upto.contains(s) by {
                let k = choose|k: int|
                    0 <= k < i && k < opts@.len() && category_extensions(
                        #[trigger] opts@[k],
                        *selection,
                    ).contains(s);
                assert(category_extensions(opts@[k], *selection).contains(s));
            }
            assert(upto =~= below.union(added));
            lemma_kept_union(below, added, igcase);
            assert(exts@ =~= old(exts)@.union(kept(upto, igcase)));
        }
        i = i + 1;
    }
}

/// What is kept of a union is the union of what is kept of each part.
proof fn lemma_kept_union(a: Set<Seq<char>>, b: Set<Seq<char>>, igcase: bool)
    ensures
        kept(a.union(b), igcase) == kept(a, igcase).union(kept(b, igcase)),
{
    assert forall|s: Seq<char>| kept(a.union(b), igcase).contains(s) implies kept(
        a,
        igcase,
    ).union(kept(b, igcase)).contains(s) by {
        let t = choose|t: Seq<char>| a.union(b).contains(t) && keep(t, igcase) == s;
        if a.contains(t) {
            assert(kept(a, igcase).contains(s));
        } else {
            assert(kept(b, igcase).contains(s));
        }
    }
    assert forall|s: Seq<char>| kept(a, igcase).union(kept(b, igcase)).contains(
        s,
    ) implies kept(a.union(b), igcase).contains(s) by {
        if kept(a, igcase).contains(s) {
            let t = choose|t: Seq<char>| a.contains(t) && keep(t, igcase) == s;
            assert(a.union(b).contains(t));
        } else {
            let t = choose|t: Seq<char>| b.contains(t) && keep(t, igcase) == s;
            assert(a.union(b).contains(t));
        }
    }
    assert(kept(a.union(b), igcase) =~= kept(a, igcase).union(kept(b, igcase)));
}

impl Finder {
    /// Makes the finder that a selection describes. It looks for the whole
    /// names and the extensions of the groups that take part, the categories
    /// of `opts` among them, less the names and extensions that the selection
    /// rules out; where case is ignored it keeps them all in lower case.
    pub fn new(opts: Vec<Category>, selection: Selection, debug: bool, verb: bool) -> (finder:
        Finder)
        ensures
            finder.full() == selection.full,
            finder.debug() == debug,
            finder.verbose() == verb,
            finder.include_hidden() == selection.hidden,
            finder.recurse() == !selection.flat,
            finder.ignore_case() == selection.igcase,
            finder.invert() == selection.invert,
            finder.whole_names() == kept(wanted_whole_names(selection), selection.igcase),
            finder.extensions() == kept(wanted_extensions(opts@, selection), selection.igcase),
    {
        let mut whos = StringHashSet::new();
        let mut exts = StringHashSet::new();
        let igcase = selection.igcase;
        let mut took_whole = false;
        let mut took_extension = false;
        if enabled(&selection, &String::from_str("whole"), &String::from_str("w")) {
            if let Some(whole) = &selection.whole {
                add_all(&mut whos, whole, &selection.ex_whos, igcase);
                took_whole = true;
                proof {
                    assert(wanted_whole_names(selection) =~= listed_except(
                        whole@,
                        selection.ex_whos,
                    ));
                }
            }
        }
        if enabled(&selection, &String::from_str("extension"), &String::from_str("e")) {
            if let Some(extension) = &selection.extension {
                add_all(&mut exts, extension, &selection.ex_exts, igcase);
                took_extension = true;
                proof {
                    assert(option_extensions(selection) =~= listed_except(
                        extension@,
                        selection.ex_exts,
                    ));
                }
            }
        }
        proof {
            assert(kept(Set::<Seq<char>>::empty(), igcase) =~= Set::<Seq<char>>::empty());
            if !took_whole {
                assert(wanted_whole_names(selection) =~= Set::<Seq<char>>::empty());
            }
            if !took_extension {
                assert(option_extensions(selection) =~= Set::<Seq<char>>::empty());
            }
            assert(whos@ =~= kept(wanted_whole_names(selection), igcase));
            assert(exts@ =~= kept(option_extensions(selection), igcase));
        }
        add_categories(&mut exts, &opts, &selection);
        proof {
            lemma_kept_union(
                option_extensions(selection),
                categories_extensions(opts@, selection, opts@.len() as int),
                igcase,
            );
        }
        Finder {
            full: selection.full,
            debug,
            verb,
            hidden: selection.hidden,
            reverse: !selection.flat,
            igcase,
            invert: selection.invert,
            whos,
            exts,
        }
    }

    /// Whether matches are reported by their absolute path.
    pub fn is_full(&self) -> (full: bool)
        ensures
            full == self.full(),
    {
        self.full
    }

    /// Whether the search tells what it does.
    pub fn is_debug(&self) -> (debug: bool)
        ensures
            debug == self.debug(),
    {
        self.debug
    }

    /// Whether more is told about the search as it goes.
    pub fn is_verbose(&self) -> (verbose: bool)
        ensures
            verbose == self.verbose(),
    {
        self.verb
    }

    /// Whether hidden files and directories are searched too.
    pub fn includes_hidden(&self) -> (hidden: bool)
        ensures
            hidden == self.include_hidden(),
    {
        self.hidden
    }

    /// Whether directories are entered.
    pub fn is_recursive(&self) -> (recurse: bool)
        ensures
            recurse == self.recurse(),
    {
        self.reverse
    }

    /// Whether names are compared without regard to case.
    pub fn ignores_case(&self) -> (igcase: bool)
        ensures
            igcase == self.ignore_case(),
    {
        self.igcase
    }

    /// Whether the files that do not match are the ones reported.
    pub fn is_inverted(&self) -> (invert: bool)
        ensures
            invert == self.invert(),
    {
        self.invert
    }

    /// Whether the finder looks for nothing: neither a whole name nor an
    /// extension.
    pub fn is_empty(&self) -> (empty: bool)
        ensures
            empty == (self.whole_names() == Set::<Seq<char>>::empty() && self.extensions()
                == Set::<Seq<char>>::empty()),
    {
        self.whos.is_empty() && self.exts.is_empty()
    }

    /// Whether a file of the name `file_name` is reported.
    pub fn matches(&self, file_name: &str) -> (selected: bool)
        ensures
            selected == self.selects(file_name@),
    {
        let mut matched = checking_ext(file_name, &self.whos, &self.exts);
        if !matched && self.igcase {
            let lower = to_lowercase(file_name);
            matched = checking_ext(lower.as_str(), &self.whos, &self.exts);
        }
        matched != self.invert
    }
}

} // verus!
