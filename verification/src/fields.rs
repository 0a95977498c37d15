//! Reading single values out of the client's small text files.
//!
//! Such a file holds lines of a quoted key and a quoted value. A value is
//! found by a regular expression whose first group is the value; the search
//! itself is the work of the `regex` crate.

use vstd::prelude::*;
use crate::text::chars_of;
use crate::text::text_of;
use crate::text::texts;
use crate::text::unescape_backslashes;
use crate::text::unescaped;
use crate::text::trim;
use crate::text::trimmed;

verus! {

/// What the first group of the first match of the regular expression
/// `pattern` in `text` holds; none where the pattern is no regular
/// expression, does not match, or matches without its first group.
pub uninterp spec fn first_group(pattern: Seq<char>, text: Seq<char>) -> Option<Seq<char>>;

/// What the first group holds in each match of the regular expression
/// `pattern` in `text`, match by match from the left; none for a match
/// without its first group, and no match at all where the pattern is no
/// regular expression.
pub uninterp spec fn each_first_group(pattern: Seq<char>, text: Seq<char>) -> Seq<
    Option<Seq<char>>,
>;

/// The view of a text that may be missing.
pub open spec fn opt_text(t: Option<String>) -> Option<Seq<char>> {
    match t {
        Some(s) => Some(s@),
        None => None,
    }
}

/// The views of a list of texts of which any may be missing.
pub open spec fn opt_texts(v: Seq<Option<String>>) -> Seq<Option<Seq<char>>> {
    Seq::new(v.len(), |i: int| opt_text(v[i]))
}

/// Searches `text` for the regular expression `pattern` with
/// `regex::Regex::captures` and gives what the first group of the first
/// match holds. The result is the text named `first_group`.
#[verifier::external_body]
fn capture_first(pattern: &str, text: &str) -> (r: Option<String>)
    ensures
        opt_text(r) == first_group(pattern@, text@),
{
    let re = regex::Regex::new(pattern).ok()?;
    re.captures(text)?.get(1).map(|m| m.as_str().to_string())
}

/// Searches `text` for every match of the regular expression `pattern` with
/// `regex::Regex::captures_iter` and gives what the first group holds in
/// each. The result is the list named `each_first_group`.
#[verifier::external_body]
fn capture_each(pattern: &str, text: &str) -> (r: Vec<Option<String>>)
    ensures
        opt_texts(r@) == each_first_group(pattern@, text@),
{
    match regex::Regex::new(pattern) {
        Ok(re) => re.captures_iter(text).map(|c| c.get(1).map(|m| m.as_str().to_string())).collect(),
        Err(_) => Vec::new(),
    }
}

/// The pattern for the persona name in a profile's config file.
pub open spec fn persona_pattern() -> Seq<char> {
    "\"PersonaName\"\\s+\"([^\"]+)\""@
}

/// The pattern for the display name in a game's manifest file.
pub open spec fn name_pattern() -> Seq<char> {
    "\"name\"\\s+\"([^\"]+)\""@
}

/// The pattern for a library path in the registry of library folders.
pub open spec fn path_pattern() -> Seq<char> {
    "\"path\"\\s+\"([^\"]+)\""@
}

/// A captured value made usable: without the white space at its ends, and
/// none where nothing is left or nothing was captured.
pub open spec fn usable(capture: Option<Seq<char>>) -> Option<Seq<char>> {
    match capture {
        Some(c) => if trimmed(c).len() > 0 {
            Some(trimmed(c))
        } else {
            None
        },
        None => None,
    }
}

/// Makes a captured value usable: trims it, and drops it where nothing is
/// left.
pub fn usable_value(capture: Option<String>) -> (r: Option<String>)
    ensures
        opt_text(r) == usable(opt_text(capture)),
{
    match capture {
        Some(c) => {
            let t = trim(&chars_of(c.as_str()));
            if t.len() > 0 {
                Some(text_of(&t))
            } else {
                None
            }
        },
        None => None,
    }
}

/// The value that `pattern` finds in `content`, made usable.
pub open spec fn field_value(pattern: Seq<char>, content: Seq<char>) -> Option<Seq<char>> {
    usable(first_group(pattern, content))
}

/// Reads from `content` the first value that `pattern` finds: trimmed, and
/// none where it is empty or nothing is found.
pub fn read_field(content: &str, pattern: &str) -> (r: Option<String>)
    ensures
        opt_text(r) == field_value(pattern@, content@),
{
    usable_value(capture_first(pattern, content))
}

/// The persona name of a profile: the name in its config file where the file
/// could be read and holds one, the profile's identifier otherwise.
pub open spec fn persona_of(config: Option<Seq<char>>, user_id: Seq<char>) -> Seq<char> {
    match config {
        Some(content) => match field_value(persona_pattern(), content) {
            Some(name) => name,
            None => user_id,
        },
        None => user_id,
    }
}

/// The persona name, given what was found in the config file: the value
/// where there is one, the profile's identifier otherwise.
pub fn persona_or_id(found: Option<String>, user_id: &str) -> (r: String)
    ensures
        r@ == match found {
            Some(name) => name@,
            None => user_id@,
        },
{
    match found {
        Some(name) => name,
        None => user_id.to_owned(),
    }
}

/// The persona name of the profile `user_id`, given the content of its
/// config file, if it could be read.
pub fn get_persona_name(config: &Option<String>, user_id: &str) -> (r: String)
    ensures
        r@ == persona_of(opt_text(*config), user_id@),
{
    match config {
        Some(content) => persona_or_id(
            read_field(content.as_str(), "\"PersonaName\"\\s+\"([^\"]+)\""),
            user_id,
        ),
        None => user_id.to_owned(),
    }
}

/// The display name in the first of `manifests`, at or behind `from`, that
/// could be read and holds one.
pub open spec fn manifest_name_from(manifests: Seq<Option<Seq<char>>>, from: int) -> Option<
    Seq<char>,
>
    decreases manifests.len() - from,
{
    if from < 0 || from >= manifests.len() {
        None
    } else {
        match manifests[from] {
            Some(content) => match field_value(name_pattern(), content) {
                Some(name) => Some(name),
                None => manifest_name_from(manifests, from + 1),
            },
            None => manifest_name_from(manifests, from + 1),
        }
    }
}

/// The display name that the manifests of a game give: that of the first
/// that could be read and holds one.
pub open spec fn manifest_name(manifests: Seq<Option<Seq<char>>>) -> Option<Seq<char>> {
    manifest_name_from(manifests, 0)
}

/// Resolves a game's display name from its manifest files. `manifests` holds
/// the content of the game's manifest in each library directory, in the order
/// in which the directories are declared, and none where a directory has no
/// manifest for the game or it cannot be read.
pub fn get_game_name_from_manifest(manifests: &Vec<Option<String>>) -> (r: Option<String>)
    ensures
        opt_text(r) == manifest_name(opt_texts(manifests@)),
{
    let mut i: usize = 0;
    while i < manifests.len()
        invariant
            i <= manifests.len(),
            manifest_name(opt_texts(manifests@)) == manifest_name_from(
                opt_texts(manifests@),
                i as int,
            ),
        decreases manifests.len() - i,
    {
        assert(opt_texts(manifests@)[i as int] == opt_text(manifests@[i as int]));
        match &manifests[i] {
            Some(content) => {
                let found = read_field(content.as_str(), "\"name\"\\s+\"([^\"]+)\"");
                if found.is_some() {
                    return found;
                }
            },
            None => {},
        }
        i += 1;
    }
    None
}


/// The library paths among the first `n` values found in the registry of
/// library folders: each value that was captured, with its doubled
/// backslashes made single.
pub open spec fn declared_paths(found: Seq<Option<Seq<char>>>, n: int) -> Seq<Seq<char>>
    decreases n,
{
    if n <= 0 {
        Seq::empty()
    } else {
        match found[n - 1] {
            Some(raw) => declared_paths(found, n - 1).push(unescaped(raw)),
            None => declared_paths(found, n - 1),
        }
    }
}

/// Turns the values found in the registry of library folders into paths.
pub fn paths_of_values(found: &Vec<Option<String>>) -> (r: Vec<String>)
    ensures
        texts(r@) == declared_paths(opt_texts(found@), found@.len() as int),
{
    let mut paths: Vec<String> = Vec::new();
    assert(texts(paths@) =~= Seq::<Seq<char>>::empty());
    let mut i: usize = 0;
    while i < found.len()
        invariant
            i <= found.len(),
            texts(paths@) == declared_paths(opt_texts(found@), i as int),
        decreases found.len() - i,
    {
        assert(opt_texts(found@)[i as int] == opt_text(found@[i as int]));
        match &found[i] {
            Some(raw) => {
                let ghost before = texts(paths@);
                let path = unescape_backslashes(raw.as_str());
                paths.push(path);
                assert(texts(paths@) =~= before.push(unescaped(raw@)));
            },
            None => {},
        }
        i += 1;
    }
    paths
}

/// The library paths that the registry of library folders declares, in
/// the order in which it declares them.
pub open spec fn declared_libraries(registry: Seq<char>) -> Seq<Seq<char>> {
    declared_paths(
        each_first_group(path_pattern(), registry),
        each_first_group(path_pattern(), registry).len() as int,
    )
}

/// Reads the library paths out of the registry of library folders.
pub fn read_declared_libraries(registry: &str) -> (r: Vec<String>)
    ensures
        texts(r@) == declared_libraries(registry@),
{
    let found = capture_each("\"path\"\\s+\"([^\"]+)\"", registry);
    paths_of_values(&found)
}

} // verus!
