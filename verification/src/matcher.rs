//! Matching a file name against a set of whole names and a set of extensions.

use vstd::hash_set::StringHashSet;
use vstd::prelude::*;
use vstd::string::StrSliceExecFns;

verus! {

/// `i` is the position of the last `.` of `name`.
pub open spec fn is_last_dot(name: Seq<char>, i: int) -> bool {
    &&& 0 <= i < name.len()
    &&& name[i] == '.'
    &&& forall|j: int| i < j < name.len() ==> name[j] != '.'
}

/// The position of the last `.` of `name`, if it holds one.
pub open spec fn last_dot(name: Seq<char>) -> Option<int> {
    if exists|i: int| is_last_dot(name, i) {
        Some(choose|i: int| is_last_dot(name, i))
    } else {
        None
    }
}

/// The extension of `name`: what follows its last `.`, unless the name has
/// no `.` or its only `.` is the first character.
pub open spec fn extension(name: Seq<char>) -> Option<Seq<char>> {
    match last_dot(name) {
        Some(i) => if i > 0 {
            Some(name.subrange(i + 1, name.len() as int))
        } else {
            None
        },
        None => None,
    }
}

/// A name matches when it is one of the whole names, or when it has an
/// extension and that is one of the extensions.
pub open spec fn name_matches(
    name: Seq<char>,
    whole_names: Set<Seq<char>>,
    extensions: Set<Seq<char>>,
) -> bool {
    ||| whole_names.contains(name)
    ||| extension(name) matches Some(e) && extensions.contains(e)
}

/// A name has at most one last `.`; `last_dot` is that position.
pub proof fn lemma_last_dot_unique(name: Seq<char>, i: int)
    requires
        is_last_dot(name, i),
    ensures
        last_dot(name) == Some(i),
{
    let k = choose|k: int| is_last_dot(name, k);
    assert(is_last_dot(name, k));
    if k < i {
        assert(name[i] != '.');
    } else if i < k {
        assert(name[k] != '.');
    }
}

/// A name without any `.` has no last `.`.
pub proof fn lemma_no_dot(name: Seq<char>)
    requires
        forall|j: int| 0 <= j < name.len() ==> name[j] != '.',
    ensures
        last_dot(name) is None,
{
    if exists|i: int| is_last_dot(name, i) {
        let k = choose|k: int| is_last_dot(name, k);
        assert(name[k] == '.');
    }
}

/// A name that has no `.`, or whose only `.` is its first character, matches
/// by the whole names alone: the extensions have no say.
pub proof fn plain_name_matches_by_whole_name(
    name: Seq<char>,
    whole_names: Set<Seq<char>>,
    extensions: Set<Seq<char>>,
    other_extensions: Set<Seq<char>>,
)
    requires
        forall|j: int| 0 < j < name.len() ==> name[j] != '.',
    ensures
        name_matches(name, whole_names, extensions) == whole_names.contains(name),
        name_matches(name, whole_names, extensions) == name_matches(
            name,
            whole_names,
            other_extensions,
        ),
{
    if exists|i: int| is_last_dot(name, i) {
        let k = choose|k: int| is_last_dot(name, k);
        assert(name[k] == '.');
        assert(k == 0);
    }
    assert(extension(name) is None);
}

/// A name with a `.` after its first character matches exactly when what
/// follows its last `.` is one of the extensions, or the name itself is one
/// of the whole names.
pub proof fn dotted_name_matches_by_extension_or_whole_name(
    name: Seq<char>,
    dot: int,
    whole_names: Set<Seq<char>>,
    extensions: Set<Seq<char>>,
)
    requires
        is_last_dot(name, dot),
        dot > 0,
    ensures
        name_matches(name, whole_names, extensions) == (extensions.contains(
            name.subrange(dot + 1, name.len() as int),
        ) || whole_names.contains(name)),
{
    lemma_last_dot_unique(name, dot);
}

/// The position, counted in characters, of the last `.` of `name`, together
/// with the number of characters of `name`.
pub(crate) fn rfind_dot(name: &str) -> (r: (Option<usize>, usize))
    ensures
        r.1 == name@.len(),
        r.0 matches Some(i) ==> last_dot(name@) == Some(i as int),
        r.0 is None ==> last_dot(name@) is None,
{
    let n = name.unicode_len();
    let mut found: Option<usize> = None;
    let mut i: usize = 0;
    for c in it: name.chars()
        invariant
            it.seq() == name@,
            n == name@.len(),
            i == it.index(),
            found matches Some(k) ==> k < i && name@[k as int] == '.' && forall|j: int|
                k < j < i ==> name@[j] != '.',
            found is None ==> forall|j: int| 0 <= j < i ==> name@[j] != '.',
    {
        if c == '.' {
            found = Some(i);
        }
        i = i + 1;
    }
    proof {
        match found {
            Some(k) => {
                assert(is_last_dot(name@, k as int));
                lemma_last_dot_unique(name@, k as int);
            },
            None => {
                lemma_no_dot(name@);
            },
        }
    }
    (found, n)
}

/// Tells whether the file name `path` matches: it is one of `whos`, or it
/// has an extension (the text after its last `.`, where that `.` is not the
/// first character) and the extension is one of `exts`.
pub fn checking_ext(path: &str, whos: &StringHashSet, exts: &StringHashSet) -> (matched: bool)
    ensures
        matched == name_matches(path@, whos@, exts@),
{
    let (dot, len) = rfind_dot(path);
    match dot {
        None => whos.contains(path),
        Some(pos) => {
            if pos == 0 {
                whos.contains(path)
            } else {
                let ext = path.substring_char(pos + 1, len);
                exts.contains(ext) || whos.contains(path)
            }
        },
    }
}

} // verus!
