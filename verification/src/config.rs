//! Where the configuration of a given name is taken from.

use crate::matcher::{last_dot, rfind_dot};
use crate::text::text_of;
use vstd::prelude::*;
use vstd::string::{StrSliceExecFns, StringExecFns};

verus! {

/// A place where a configuration may lie: a directory, the path that the
/// configuration would have in it, and whether a file is there.
#[derive(Debug)]
pub struct Candidate {
    pub directory: String,
    pub path: String,
    pub is_file: bool,
}

/// The name of the file that holds the configuration called `name`.
pub open spec fn file_name_for(name: Seq<char>) -> Seq<char> {
    name + ".json"@
}

/// The directories of the first `n` candidates, each in quotes and followed
/// by a blank.
pub open spec fn quoted_directories(candidates: Seq<Candidate>, n: int) -> Seq<char>
    decreases n,
{
    if n <= 0 || n > candidates.len() {
        Seq::empty()
    } else {
        quoted_directories(candidates, n - 1) + "'"@ + candidates[n - 1].directory@ + "' "@
    }
}

/// What is said when no configuration is found: where it was looked for.
pub open spec fn not_found_message(candidates: Seq<Candidate>) -> Seq<char> {
    "Can not find configuration file in "@ + quoted_directories(
        candidates,
        candidates.len() as int,
    )
}

/// `i` is the place of the first candidate at which a file lies.
pub open spec fn is_first_file(candidates: Seq<Candidate>, i: int) -> bool {
    &&& 0 <= i < candidates.len()
    &&& candidates[i].is_file
    &&& forall|j: int| 0 <= j < i ==> !(#[trigger] candidates[j]).is_file
}

/// Where a configuration is taken from: the first candidate at which a file
/// lies; else the name itself, where that is the path of a file; else
/// nowhere.
pub open spec fn chosen(candidates: Seq<Candidate>, name: Seq<char>, name_is_file: bool) -> Option<
    Seq<char>,
> {
    if exists|i: int| is_first_file(candidates, i) {
        Some(candidates[choose|i: int| is_first_file(candidates, i)].path@)
    } else if name_is_file {
        Some(name)
    } else {
        None
    }
}

/// The name of the configuration that a file holds: the name of the file
/// without its extension, where that extension is `json`.
pub open spec fn name_of_file(file_name: Seq<char>) -> Option<Seq<char>> {
    match last_dot(file_name) {
        Some(i) => if i > 0 && file_name.subrange(i + 1, file_name.len() as int) == "json"@ {
            Some(file_name.subrange(0, i))
        } else {
            None
        },
        None => None,
    }
}

/// The name of the configuration that the file called `file_name` holds, if
/// it is a configuration file.
pub fn configuration_name(file_name: &str) -> (name: Option<String>)
    ensures
        text_of(name) == name_of_file(file_name@),
{
    let (dot, len) = rfind_dot(file_name);
    match dot {
        None => None,
        Some(pos) => {
            if pos == 0 {
                return None;
            }
            let extension = String::from_str(file_name.substring_char(pos + 1, len));
            if extension == String::from_str("json") {
                Some(String::from_str(file_name.substring_char(0, pos)))
            } else {
                None
            }
        },
    }
}

/// The name of the file that holds the configuration called `name`.
pub fn configuration_file_name(name: &str) -> (file: String)
    ensures
        file@ == file_name_for(name@),
{
    String::from_str(name).concat(".json")
}

/// Tells from which file the configuration called `name` is to be read: from
/// the first candidate at which a file lies, else from `name` itself, where
/// that is the path of a file. Where there is no such file the error says in
/// which directories the configuration was looked for.
pub fn try_to_load_configuration2(candidates: &Vec<Candidate>, name: &str, name_is_file: bool) -> (path:
    Result<String, String>)
    ensures
        match path {
            Ok(path) => chosen(candidates@, name@, name_is_file) == Some(path@),
            Err(message) => chosen(candidates@, name@, name_is_file) is None && message@
                == not_found_message(candidates@),
        },
{
    let mut i: usize = 0;
    while i < candidates.len()
        invariant
            i <= candidates.len(),
            forall|j: int| 0 <= j < i ==> !(#[trigger] candidates@[j]).is_file,
        decreases candidates.len() - i,
    {
        if candidates[i].is_file {
            proof {
                let k = choose|k: int| is_first_file(candidates@, k);
                assert(is_first_file(candidates@, i as int));
                assert(is_first_file(candidates@, k));
                if k < i {
                    assert(!candidates@[k].is_file);
                } else if i < k {
                    assert(!candidates@[i as int].is_file);
                }
            }
            return Ok(candidates[i].path.clone());
        }
        i = i + 1;
    }
    proof {
        if exists|k: int| is_first_file(candidates@, k) {
            let k = choose|k: int| is_first_file(candidates@, k);
            assert(!candidates@[k].is_file);
        }
    }
    if name_is_file {
        return Ok(String::from_str(name));
    }
    let mut message = String::from_str("Can not find configuration file in ");
    let mut k: usize = 0;
    while k < candidates.len()
        invariant
            k <= candidates.len(),
            message@ == "Can not find configuration file in "@ + quoted_directories(
                candidates@,
                k as int,
            ),
        decreases candidates.len() - k,
    {
        message.append("'");
        message.append(candidates[k].directory.as_str());
        message.append("' ");
        proof {
            assert(message@ =~= "Can not find configuration file in "@ + quoted_directories(
                candidates@,
                k + 1,
            ));
        }
        k = k + 1;
    }
    Err(message)
}

} // verus!
