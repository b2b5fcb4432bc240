//! Regular expressions: what the groups of a match hold.
use crate::text::same_text;
use vstd::prelude::*;

verus! {

/// The type of compiled regular expressions of the `regex` crate.
#[verifier::external_type_specification]
#[verifier::external_body]
pub struct ExRegex(regex::Regex);

/// All that a regex was built from, text and options; for one that `Regex::new`
/// built, with the default options, the text that it was given.
pub uninterp spec fn regex_source(pattern: regex::Regex) -> Seq<char>;

/// Why `Regex::new` rejects a text, or `None` where it builds a regex from it.
pub uninterp spec fn regex_error(source: Seq<char>) -> Option<Seq<char>>;

/// The number of groups of a regex, the whole match among them, as
/// `Regex::captures_len` gives it.
pub uninterp spec fn regex_groups(source: Seq<char>) -> nat;

/// The names of the groups of a regex, in order, as `Regex::capture_names` gives
/// them.
pub uninterp spec fn regex_names(source: Seq<char>) -> Seq<Option<Seq<char>>>;

/// What the groups hold in the first match in a text, as `Regex::captures` gives
/// it.
pub uninterp spec fn regex_match(source: Seq<char>, text: Seq<char>) -> Option<
    Seq<Option<Seq<char>>>,
>;

/// What the groups hold in each match in a text, as `Regex::captures_iter` gives
/// it.
pub uninterp spec fn regex_matches(source: Seq<char>, text: Seq<char>) -> Seq<
    Seq<Option<Seq<char>>>,
>;

/// The text of an optional string.
pub open spec fn group_text(group: Option<String>) -> Option<Seq<char>> {
    match group {
        Some(s) => Some(s@),
        None => None,
    }
}

/// The texts of a list of optional strings.
pub open spec fn group_texts(groups: Seq<Option<String>>) -> Seq<Option<Seq<char>>> {
    Seq::new(groups.len(), |i: int| group_text(groups[i]))
}

/// The texts of a list of matches.
pub open spec fn match_texts(matches: Seq<Vec<Option<String>>>) -> Seq<Seq<Option<Seq<char>>>> {
    Seq::new(matches.len(), |i: int| group_texts(matches[i]@))
}

/// Calls `Regex::new`: whether it builds a regex, and the text of the error where
/// it does not, depends on the text alone.
#[verifier::external_body]
pub(crate) fn compile(source: &str) -> (r: Result<regex::Regex, String>)
    ensures
        match r {
            Ok(pattern) => regex_error(source@) is None && regex_source(pattern) == source@,
            Err(e) => regex_error(source@) == Some(e@),
        },
{
    regex::Regex::new(source).map_err(|e| e.to_string())
}

/// Calls `Regex::captures_len`. The whole match counts, so it is never zero.
#[verifier::external_body]
pub(crate) fn group_count(pattern: &regex::Regex) -> (r: usize)
    ensures
        r as nat == regex_groups(regex_source(*pattern)),
        r >= 1,
{
    pattern.captures_len()
}

/// Calls `Regex::capture_names`, which names each group or says that it has no
/// name.
#[verifier::external_body]
pub(crate) fn group_names(pattern: &regex::Regex) -> (r: Vec<Option<String>>)
    ensures
        group_texts(r@) == regex_names(regex_source(*pattern)),
        r@.len() == regex_groups(regex_source(*pattern)),
{
    pattern.capture_names().map(|name| name.map(|s| s.to_owned())).collect()
}

/// Calls `Regex::captures`: the text of each group of the first match, or that
/// the group takes no part in it.
#[verifier::external_body]
pub(crate) fn first_match(pattern: &regex::Regex, text: &str) -> (r: Option<Vec<Option<String>>>)
    ensures
        match r {
            Some(groups) => {
                &&& regex_match(regex_source(*pattern), text@) == Some(group_texts(groups@))
                &&& groups@.len() == regex_groups(regex_source(*pattern))
            },
            None => regex_match(regex_source(*pattern), text@) is None,
        },
{
    pattern.captures(text).map(
        |caps| caps.iter().map(|group| group.map(|m| m.as_str().to_owned())).collect(),
    )
}

/// Calls `Regex::captures_iter`: for each match, from the first to the last, the
/// text of each group, or that the group takes no part in it.
#[verifier::external_body]
pub(crate) fn all_matches(pattern: &regex::Regex, text: &str) -> (r: Vec<Vec<Option<String>>>)
    ensures
        match_texts(r@) == regex_matches(regex_source(*pattern), text@),
{
    pattern.captures_iter(text).map(
        |caps| caps.iter().map(|group| group.map(|m| m.as_str().to_owned())).collect(),
    ).collect()
}

/// What a group holds; nothing where there is no such group.
pub open spec fn numbered(groups: Seq<Option<Seq<char>>>, i: int) -> Option<Seq<char>> {
    if 0 <= i < groups.len() {
        groups[i]
    } else {
        None
    }
}

/// What the group with a name holds; nothing where no group has it.
pub open spec fn named(
    names: Seq<Option<Seq<char>>>,
    groups: Seq<Option<Seq<char>>>,
    name: Seq<char>,
) -> Option<Seq<char>>
    decreases names.len(),
{
    if names.len() == 0 || groups.len() == 0 {
        None
    } else if names[0] == Some(name) {
        groups[0]
    } else {
        named(names.skip(1), groups.skip(1), name)
    }
}

pub fn group_at(groups: &[Option<String>], i: usize) -> (r: Option<String>)
    ensures
        group_text(r) == numbered(group_texts(groups@), i as int),
{
    if i < groups.len() {
        match &groups[i] {
            Some(s) => Some(s.clone()),
            None => None,
        }
    } else {
        None
    }
}

pub fn group_named(names: &[Option<String>], groups: &[Option<String>], name: &str) -> (r: Option<
    String,
>)
    ensures
        group_text(r) == named(group_texts(names@), group_texts(groups@), name@),
{
    let ghost ns = group_texts(names@);
    let ghost gs = group_texts(groups@);
    let mut i: usize = 0;
    assert(ns.skip(0) =~= ns);
    assert(gs.skip(0) =~= gs);
    while i < names.len() && i < groups.len()
        invariant
            i <= names@.len(),
            i <= groups@.len(),
            ns == group_texts(names@),
            gs == group_texts(groups@),
            named(ns, gs, name@) == named(ns.skip(i as int), gs.skip(i as int), name@),
        decreases names@.len() - i,
    {
        assert(ns.skip(i as int)[0] == ns[i as int]);
        assert(gs.skip(i as int)[0] == gs[i as int]);
        assert(ns.skip(i as int).skip(1) =~= ns.skip(i + 1));
        assert(gs.skip(i as int).skip(1) =~= gs.skip(i + 1));
        if let Some(s) = &names[i] {
            if same_text(s, name) {
                return group_at(groups, i);
            }
        }
        i = i + 1;
    }
    None
}

/// What a group with a name holds is what stands at the place of the first group
/// of that name; without such a group, or such a place, it is nothing.
pub proof fn law_named_group_is_at_its_place(
    names: Seq<Option<Seq<char>>>,
    groups: Seq<Option<Seq<char>>>,
    name: Seq<char>,
    i: int,
)
    requires
        0 <= i <= names.len(),
        i < names.len() ==> names[i] == Some(name),
        forall|j: int| 0 <= j < i ==> #[trigger] names[j] != Some(name),
    ensures
        named(names, groups, name) == (if i < names.len() && i < groups.len() {
            groups[i]
        } else {
            None
        }),
    decreases i,
{
    if i > 0 && groups.len() > 0 {
        let rest = names.skip(1);
        assert(names[0] != Some(name));
        assert forall|j: int| 0 <= j < i - 1 implies #[trigger] rest[j] != Some(name) by {
            assert(rest[j] == names[j + 1]);
        }
        law_named_group_is_at_its_place(rest, groups.skip(1), name, i - 1);
    }
}

/// A group with a number holds what stands at that place.
pub proof fn law_numbered_group_is_at_its_place(groups: Seq<Option<Seq<char>>>, i: int)
    ensures
        0 <= i < groups.len() ==> numbered(groups, i) == groups[i],
        i >= groups.len() ==> numbered(groups, i) is None,
{
}

/// What groups and matches say is what each of their strings says, at its place.
pub proof fn law_groups_are_the_strings(
    groups: Seq<Option<String>>,
    matches: Seq<Vec<Option<String>>>,
    i: int,
)
    ensures
        group_texts(groups).len() == groups.len(),
        match_texts(matches).len() == matches.len(),
        0 <= i < groups.len() ==> (groups[i] matches Some(s) ==> group_texts(groups)[i] == Some(s@)),
        0 <= i < groups.len() ==> (groups[i] is None ==> group_texts(groups)[i] is None),
        0 <= i < matches.len() ==> match_texts(matches)[i] == group_texts(matches[i]@),
{
}

} // verus!
