//! What can be completed on the command line: revisions, packages, targets and
//! profiles.
use crate::bytes::utf8_lossy;
use crate::cli::CandidateKind;
use crate::git::{arguments, captured, run_capture, CommandReply, ReplyText};
use crate::json::{json_of_bytes, parse_bytes, trees, Json, JsonTree};
use crate::order::{law_text_set, set_of, text_before, text_set};
use crate::paths::joined;
use crate::patterns::{
    all_matches, compile, group_at, group_texts, match_texts, numbered, regex_error, regex_matches,
};
use crate::text::{
    chars_of, has_text, lemma_texts_push, lines, lines_of, slices, string_of, texts, trim,
    trim_text,
};
use crate::workspace::{
    has_kind, lemma_package_names, lemma_target_names, names_of_packages, package_names_in,
    target_names_in, targets_of_kind, TargetKind,
};
use vstd::prelude::*;

verus! {

/// The texts of a list that may be missing.
pub open spec fn list_text(r: Option<Vec<String>>) -> Option<Seq<Seq<char>>> {
    match r {
        Some(list) => Some(texts(list@)),
        None => None,
    }
}

// ---------------------------------------------------------------------------
// Revisions
// ---------------------------------------------------------------------------

pub open spec fn ref_args_text() -> Seq<Seq<char>> {
    seq!["for-each-ref"@, "--format=%(refname:short)"@, "refs/heads"@, "refs/tags"@]
}

/// The arguments of git that list branches and tags.
pub fn ref_args() -> (r: Vec<String>)
    ensures
        texts(r@) == ref_args_text(),
{
    let r: Vec<String> = arguments(
        &["for-each-ref", "--format=%(refname:short)", "refs/heads", "refs/tags"],
    );
    assert(texts(r@) =~= ref_args_text());
    r
}

/// The revisions that need no ref.
pub open spec fn sentinels() -> Seq<Seq<char>> {
    seq![":worktree"@, ":merge-base"@, "HEAD"@]
}

/// The sentinels, then the names on the lines, in their order and each once.
pub open spec fn revs_of(lines: Seq<Seq<char>>) -> Seq<Seq<char>>
    decreases lines.len(),
{
    if lines.len() == 0 {
        sentinels()
    } else {
        let before = revs_of(lines.drop_last());
        let name = trim_text(lines.last());
        if name.len() == 0 || before.contains(name) {
            before
        } else {
            before.push(name)
        }
    }
}

/// The revisions, out of what git printed for `ref_args`.
pub fn revs(output: &str) -> (r: Vec<String>)
    ensures
        texts(r@) == revs_of(lines_of(output@)),
{
    let chars: Vec<char> = chars_of(output);
    let all: Vec<&[char]> = lines(&chars);
    let ghost goal = slices(all@);
    let mut out: Vec<String> = arguments(&[":worktree", ":merge-base", "HEAD"]);
    assert(texts(out@) =~= sentinels());
    let n: usize = all.len();
    let mut i: usize = 0;
    while i < n
        invariant
            n == all@.len(),
            i <= n,
            goal == slices(all@),
            texts(out@) == revs_of(goal.take(i as int)),
        decreases n - i,
    {
        broadcast use lemma_texts_push;

        assert(goal.take(i + 1).drop_last() =~= goal.take(i as int));
        assert(goal.take(i + 1).last() == all@[i as int]@);
        let name: String = string_of(trim(all[i]));
        if !name.as_str().is_empty() && !has_text(&out, &name) {
            out.push(name);
        }
        i = i + 1;
    }
    assert(goal.take(n as int) =~= goal);
    out
}

proof fn lemma_sentinels_differ()
    ensures
        sentinels().no_duplicates(),
{
    reveal_strlit(":worktree");
    reveal_strlit(":merge-base");
    reveal_strlit("HEAD");
    assert(":worktree"@.len() == 9);
    assert(":merge-base"@.len() == 11);
    assert("HEAD"@.len() == 4);
}

/// The sentinels come first, no revision comes twice, and every name on a line is
/// among the revisions.
pub proof fn law_revs(lines: Seq<Seq<char>>)
    ensures
        revs_of(lines).len() >= 3,
        revs_of(lines).take(3) == sentinels(),
        revs_of(lines).no_duplicates(),
        forall|i: int|
            0 <= i < lines.len() && trim_text(#[trigger] lines[i]).len() > 0 ==> revs_of(
                lines,
            ).contains(trim_text(lines[i])),
    decreases lines.len(),
{
    let list = revs_of(lines);
    if lines.len() == 0 {
        lemma_sentinels_differ();
        assert(list.take(3) =~= sentinels());
    } else {
        let front = lines.drop_last();
        let before = revs_of(front);
        let name = trim_text(lines.last());
        law_revs(front);
        assert(list.take(3) =~= before.take(3));
        assert forall|i: int, j: int| 0 <= i < list.len() && 0 <= j < list.len() && i
            != j implies list[i] != list[j] by {
            if list.len() > before.len() {
                if i == before.len() {
                    assert(before[j] == list[j]);
                    assert(before.contains(before[j]));
                } else if j == before.len() {
                    assert(before[i] == list[i]);
                    assert(before.contains(before[i]));
                }
            }
        }
        assert forall|i: int|
            0 <= i < lines.len() && trim_text(#[trigger] lines[i]).len() > 0 implies list.contains(
            trim_text(lines[i]),
        ) by {
            if i < front.len() {
                assert(front[i] == lines[i]);
                let k = choose|k: int| 0 <= k < before.len() && before[k] == trim_text(front[i]);
                assert(list[k] == trim_text(lines[i]));
            } else if !before.contains(name) {
                assert(list[before.len() as int] == name);
            } else {
                let k = choose|k: int| 0 <= k < before.len() && before[k] == name;
                assert(list[k] == name);
            }
        }
    }
}

// ---------------------------------------------------------------------------
// Packages, targets and profiles
// ---------------------------------------------------------------------------

/// The description of the workspace, if cargo gave one.
pub open spec fn metadata_of(reply: ReplyText) -> Option<JsonTree> {
    match reply {
        ReplyText::Exited { ok, stdout, .. } => if ok {
            match json_of_bytes(stdout) {
                Ok(value) => Some(value),
                Err(_) => None,
            }
        } else {
            None
        },
        ReplyText::NotStarted(_) => None,
    }
}

/// The description of the workspace, out of cargo's reply.
pub fn metadata_json(reply: &CommandReply) -> (r: Option<Json>)
    ensures
        match r {
            Some(value) => metadata_of(reply@) == Some(value.tree()),
            None => metadata_of(reply@) is None,
        },
{
    match reply {
        CommandReply::Exited { ok, stdout, .. } => {
            if !*ok {
                return None;
            }
            match parse_bytes(stdout) {
                Ok(value) => Some(value),
                Err(_) => None,
            }
        },
        CommandReply::NotStarted(_) => None,
    }
}

/// The names of the packages, in order and each once.
pub open spec fn packages_of(value: JsonTree) -> Option<Seq<Seq<char>>> {
    match value.field_items("packages"@) {
        Some(packages) => Some(text_set(package_names_in(packages))),
        None => None,
    }
}

pub fn package_names(value: &Json) -> (r: Option<Vec<String>>)
    ensures
        list_text(r) == packages_of(value.tree()),
{
    match value.items_at("packages") {
        Some(packages) => Some(set_of(&names_of_packages(packages))),
        None => None,
    }
}

/// The targets of a kind of all packages, in their order.
pub open spec fn all_targets(packages: Seq<JsonTree>, kind: Seq<char>) -> Seq<Seq<char>>
    decreases packages.len(),
{
    if packages.len() == 0 {
        seq![]
    } else {
        let before = all_targets(packages.drop_last(), kind);
        match packages.last().field_items("targets"@) {
            Some(targets) => before + target_names_in(targets, kind),
            None => before,
        }
    }
}

/// The names of the targets of a kind, in order and each once.
pub open spec fn targets_of(value: JsonTree, kind: Seq<char>) -> Option<Seq<Seq<char>>> {
    match value.field_items("packages"@) {
        Some(packages) => Some(text_set(all_targets(packages, kind))),
        None => None,
    }
}

pub fn target_names(value: &Json, kind: TargetKind) -> (r: Option<Vec<String>>)
    ensures
        list_text(r) == targets_of(value.tree(), kind.name()),
{
    let packages: &Vec<Json> = match value.items_at("packages") {
        Some(packages) => packages,
        None => {
            return None;
        },
    };
    let ghost all = trees(packages@);
    let mut names: Vec<String> = Vec::new();
    let n: usize = packages.len();
    let mut i: usize = 0;
    assert(texts(names@) =~= all_targets(all.take(0), kind.name()));
    while i < n
        invariant
            n == packages@.len(),
            i <= n,
            all == trees(packages@),
            texts(names@) == all_targets(all.take(i as int), kind.name()),
        decreases n - i,
    {
        assert(all.take(i + 1).drop_last() =~= all.take(i as int));
        assert(all.take(i + 1).last() == packages@[i as int].tree());
        if let Some(targets) = packages[i].items_at("targets") {
            let mut more: Vec<String> = targets_of_kind(targets, kind);
            let ghost before = names@;
            let ghost added = more@;
            names.append(&mut more);
            assert(texts(names@) =~= texts(before) + texts(added));
        }
        i = i + 1;
    }
    assert(all.take(n as int) =~= all);
    Some(set_of(&names))
}

/// The manifest that may hold profiles: that of the workspace's root.
pub fn profile_manifest(reply: &CommandReply) -> (r: Option<String>)
    ensures
        match r {
            Some(path) => metadata_of(reply@) matches Some(value) && value.field_text(
                "workspace_root"@,
            ) matches Some(root) && path@ == joined(root, "Cargo.toml"@),
            None => !(metadata_of(reply@) matches Some(value) && value.field_text(
                "workspace_root"@,
            ) is Some),
        },
{
    match metadata_json(reply) {
        Some(value) => match value.text_at("workspace_root") {
            Some(root) => Some(crate::paths::join(root, "Cargo.toml")),
            None => None,
        },
        None => None,
    }
}

/// What finds the tables of profiles in a manifest.
pub open spec fn profile_pattern() -> Seq<char> {
    "(?m)^\\s*\\[profile\\.([A-Za-z0-9_-]+)\\]"@
}

pub open spec fn builtin_profiles() -> Seq<Seq<char>> {
    seq!["bench"@, "dev"@, "release"@, "test"@]
}

/// What the first group holds in each match, in their order.
pub open spec fn first_groups(matches: Seq<Seq<Option<Seq<char>>>>) -> Seq<Seq<char>>
    decreases matches.len(),
{
    if matches.len() == 0 {
        seq![]
    } else {
        let before = first_groups(matches.drop_last());
        match numbered(matches.last(), 1) {
            Some(name) => before.push(name),
            None => before,
        }
    }
}

/// The profiles: cargo's own and those of the matches, in order and each once.
pub fn profile_list(matches: &[Vec<Option<String>>]) -> (r: Vec<String>)
    ensures
        texts(r@) == text_set(builtin_profiles() + first_groups(match_texts(matches@))),
{
    let ghost all = match_texts(matches@);
    let mut names: Vec<String> = arguments(&["bench", "dev", "release", "test"]);
    let n: usize = matches.len();
    let mut i: usize = 0;
    assert(texts(names@) =~= builtin_profiles() + first_groups(all.take(0)));
    while i < n
        invariant
            n == matches@.len(),
            i <= n,
            all == match_texts(matches@),
            texts(names@) == builtin_profiles() + first_groups(all.take(i as int)),
        decreases n - i,
    {
        broadcast use lemma_texts_push;

        assert(all.take(i + 1).drop_last() =~= all.take(i as int));
        assert(all.take(i + 1).last() == group_texts(matches@[i as int]@));
        if let Some(name) = group_at(&matches[i], 1) {
            names.push(name);
            assert((builtin_profiles() + first_groups(all.take(i as int))).push(name@)
                =~= builtin_profiles() + first_groups(all.take(i as int)).push(name@));
        }
        i = i + 1;
    }
    assert(all.take(n as int) =~= all);
    set_of(&names)
}

/// The profiles of a manifest.
pub open spec fn profiles_of(manifest: Seq<char>) -> Option<Seq<Seq<char>>> {
    if regex_error(profile_pattern()) is Some {
        None
    } else {
        Some(
            text_set(
                builtin_profiles() + first_groups(regex_matches(profile_pattern(), manifest)),
            ),
        )
    }
}

pub fn profiles(manifest: &str) -> (r: Option<Vec<String>>)
    ensures
        list_text(r) == profiles_of(manifest@),
{
    match compile("(?m)^\\s*\\[profile\\.([A-Za-z0-9_-]+)\\]") {
        Ok(pattern) => Some(profile_list(&all_matches(&pattern, manifest))),
        Err(_) => None,
    }
}

/// What can be completed, out of the reply of git for revisions and of cargo for
/// everything else, and of the manifest for profiles. What failed completes
/// nothing.
pub open spec fn candidate_list(
    kind: CandidateKind,
    reply: ReplyText,
    manifest: Option<Seq<char>>,
) -> Seq<Seq<char>> {
    let found = match kind {
        CandidateKind::Revs => match captured("git"@, ref_args_text(), reply) {
            Ok(output) => Some(revs_of(lines_of(output))),
            Err(_) => None,
        },
        CandidateKind::Packages => match metadata_of(reply) {
            Some(value) => packages_of(value),
            None => None,
        },
        CandidateKind::Bins => match metadata_of(reply) {
            Some(value) => targets_of(value, TargetKind::Bin.name()),
            None => None,
        },
        CandidateKind::Benches => match metadata_of(reply) {
            Some(value) => targets_of(value, TargetKind::Bench.name()),
            None => None,
        },
        CandidateKind::Profiles => match manifest {
            Some(text) => profiles_of(text),
            None => None,
        },
    };
    match found {
        Some(list) => list,
        None => seq![],
    }
}

fn listed(found: Option<Vec<String>>) -> (r: Vec<String>)
    ensures
        texts(r@) == (match list_text(found) {
            Some(list) => list,
            None => seq![],
        }),
{
    match found {
        Some(list) => list,
        None => {
            let none: Vec<String> = Vec::new();
            assert(texts(none@) =~= seq![]);
            none
        },
    }
}

/// What can be completed. `reply` is that of git to `ref_args` for revisions,
/// else that of cargo to its request for metadata; `manifest` is what was read
/// of `profile_manifest`.
pub fn candidates(kind: CandidateKind, reply: &CommandReply, manifest: Option<&str>) -> (r: Vec<
    String,
>)
    ensures
        texts(r@) == candidate_list(
            kind,
            reply@,
            match manifest {
                Some(text) => Some(text@),
                None => None,
            },
        ),
{
    match kind {
        CandidateKind::Revs => match run_capture("git", &ref_args(), reply) {
            Ok(output) => revs(&output),
            Err(_) => listed(None),
        },
        CandidateKind::Packages => match metadata_json(reply) {
            Some(value) => listed(package_names(&value)),
            None => listed(None),
        },
        CandidateKind::Bins => match metadata_json(reply) {
            Some(value) => listed(target_names(&value, TargetKind::Bin)),
            None => listed(None),
        },
        CandidateKind::Benches => match metadata_json(reply) {
            Some(value) => listed(target_names(&value, TargetKind::Bench)),
            None => listed(None),
        },
        CandidateKind::Profiles => match manifest {
            Some(text) => listed(profiles(text)),
            None => listed(None),
        },
    }
}

/// A command that fails completes nothing: no revision, package or target.
pub proof fn law_failure_completes_nothing(
    kind: CandidateKind,
    reply: ReplyText,
    manifest: Option<Seq<char>>,
)
    requires
        reply matches ReplyText::Exited { ok, .. } ==> !ok,
        kind is Profiles ==> manifest is None,
    ensures
        candidate_list(kind, reply, manifest).len() == 0,
{
}

/// A revision is completed exactly where it is one of the three that need no ref, or
/// what a line that is not blank holds between its white space.
pub proof fn law_revs_are_the_lines(lines: Seq<Seq<char>>, rev: Seq<char>)
    ensures
        revs_of(lines).take(3) == seq![":worktree"@, ":merge-base"@, "HEAD"@],
        revs_of(lines).contains(rev) <==> {
            ||| rev == ":worktree"@
            ||| rev == ":merge-base"@
            ||| rev == "HEAD"@
            ||| rev.len() > 0 && exists|i: int|
                0 <= i < lines.len() && trim_text(#[trigger] lines[i]) == rev
        },
    decreases lines.len(),
{
    let list = revs_of(lines);
    law_revs(lines);
    assert(list[0] == list.take(3)[0] && list[1] == list.take(3)[1] && list[2] == list.take(3)[2]);
    if list.contains(rev) && lines.len() > 0 {
        let front = lines.drop_last();
        let before = revs_of(front);
        law_revs_are_the_lines(front, rev);
        let k = choose|k: int| 0 <= k < list.len() && list[k] == rev;
        if k < before.len() {
            assert(before[k] == rev);
            if exists|i: int| 0 <= i < front.len() && trim_text(#[trigger] front[i]) == rev {
                let i = choose|i: int|
                    0 <= i < front.len() && trim_text(#[trigger] front[i]) == rev;
                assert(trim_text(lines[i]) == rev);
            }
        } else {
            assert(trim_text(lines[lines.len() - 1]) == rev);
        }
    }
}

/// Every package that has a name is completed, and nothing else, in the order of the
/// names.
pub proof fn law_packages_complete(
    reply: ReplyText,
    manifest: Option<Seq<char>>,
    packages: Seq<JsonTree>,
    name: Seq<char>,
)
    requires
        reply matches ReplyText::Exited { ok, stdout, .. } && ok && (json_of_bytes(
            stdout,
        ) matches Ok(value) && value.field_items("packages"@) == Some(packages)),
    ensures
        ({
            let list = candidate_list(CandidateKind::Packages, reply, manifest);
            &&& list.contains(name) <==> exists|i: int|
                0 <= i < packages.len() && (#[trigger] packages[i]).field_text("name"@) == Some(
                    name,
                )
            &&& forall|i: int, j: int| 0 <= i < j < list.len() ==> text_before(list[i], list[j])
        }),
{
    law_text_set(package_names_in(packages));
    lemma_package_names(packages, name);
}

proof fn lemma_all_targets(packages: Seq<JsonTree>, kind: Seq<char>, name: Seq<char>)
    ensures
        all_targets(packages, kind).contains(name) <==> exists|i: int|
            0 <= i < packages.len() && ((#[trigger] packages[i]).field_items(
                "targets"@,
            ) matches Some(targets) && target_names_in(targets, kind).contains(name)),
    decreases packages.len(),
{
    let list = all_targets(packages, kind);
    if packages.len() > 0 {
        let front = packages.drop_last();
        let last = packages.last();
        let before = all_targets(front, kind);
        lemma_all_targets(front, kind, name);
        if list.contains(name) {
            let k = choose|k: int| 0 <= k < list.len() && list[k] == name;
            if k < before.len() {
                assert(before[k] == name);
                let i = choose|i: int|
                    0 <= i < front.len() && ((#[trigger] front[i]).field_items(
                        "targets"@,
                    ) matches Some(targets) && target_names_in(targets, kind).contains(name));
                assert(packages[i] == front[i]);
            } else {
                assert(packages[packages.len() - 1] == last);
                assert(target_names_in(last.field_items("targets"@)->0, kind)[k - before.len()]
                    == name);
            }
        }
        if exists|i: int|
            0 <= i < packages.len() && ((#[trigger] packages[i]).field_items(
                "targets"@,
            ) matches Some(targets) && target_names_in(targets, kind).contains(name)) {
            let i = choose|i: int|
                0 <= i < packages.len() && ((#[trigger] packages[i]).field_items(
                    "targets"@,
                ) matches Some(targets) && target_names_in(targets, kind).contains(name));
            if i < front.len() {
                assert(front[i] == packages[i]);
                let k = choose|k: int| 0 <= k < before.len() && before[k] == name;
                assert(list[k] == name);
            } else {
                let more = target_names_in(last.field_items("targets"@)->0, kind);
                let k = choose|k: int| 0 <= k < more.len() && more[k] == name;
                assert(list[before.len() + k] == name);
            }
        }
    }
}

/// A program is completed exactly where some target of some package has its name and
/// `bin` among its kinds, a benchmark where it has `bench`, in the order of the names.
pub proof fn law_targets_complete(
    bench: bool,
    reply: ReplyText,
    manifest: Option<Seq<char>>,
    packages: Seq<JsonTree>,
    name: Seq<char>,
)
    requires
        reply matches ReplyText::Exited { ok, stdout, .. } && ok && (json_of_bytes(
            stdout,
        ) matches Ok(value) && value.field_items("packages"@) == Some(packages)),
    ensures
        ({
            let list = candidate_list(
                if bench {
                    CandidateKind::Benches
                } else {
                    CandidateKind::Bins
                },
                reply,
                manifest,
            );
            &&& list.contains(name) <==> exists|i: int|
                0 <= i < packages.len() && ((#[trigger] packages[i]).field_items(
                    "targets"@,
                ) matches Some(targets) && exists|j: int|
                    0 <= j < targets.len() && (#[trigger] targets[j]).field_text("name"@) == Some(
                        name,
                    ) && (targets[j].field_items("kind"@) matches Some(kinds) && exists|k: int|
                        0 <= k < kinds.len() && (#[trigger] kinds[k]).text() == Some(
                            if bench {
                                "bench"@
                            } else {
                                "bin"@
                            },
                        )))
            &&& forall|i: int, j: int| 0 <= i < j < list.len() ==> text_before(list[i], list[j])
        }),
{
    let kind = if bench {
        "bench"@
    } else {
        "bin"@
    };
    law_text_set(all_targets(packages, kind));
    lemma_all_targets(packages, kind, name);
    assert forall|i: int| 0 <= i < packages.len() implies (((#[trigger] packages[i]).field_items(
        "targets"@,
    ) matches Some(targets) && target_names_in(targets, kind).contains(name)) <==> (
    packages[i].field_items("targets"@) matches Some(targets) && exists|j: int|
        0 <= j < targets.len() && (#[trigger] targets[j]).field_text("name"@) == Some(name)
            && has_kind(targets[j], kind))) by {
        if let Some(targets) = packages[i].field_items("targets"@) {
            lemma_target_names(targets, kind, name);
        }
    }
}

proof fn lemma_first_groups(matches: Seq<Seq<Option<Seq<char>>>>, name: Seq<char>)
    ensures
        first_groups(matches).contains(name) <==> exists|i: int|
            0 <= i < matches.len() && (#[trigger] matches[i]).len() > 1 && matches[i][1] == Some(
                name,
            ),
    decreases matches.len(),
{
    let list = first_groups(matches);
    if matches.len() > 0 {
        let front = matches.drop_last();
        let before = first_groups(front);
        lemma_first_groups(front, name);
        if list.contains(name) {
            let k = choose|k: int| 0 <= k < list.len() && list[k] == name;
            if k < before.len() {
                assert(before[k] == name);
                let i = choose|i: int|
                    0 <= i < front.len() && (#[trigger] front[i]).len() > 1 && front[i][1] == Some(
                        name,
                    );
                assert(matches[i] == front[i]);
            } else {
                assert(matches[matches.len() - 1] == matches.last());
            }
        }
        if exists|i: int|
            0 <= i < matches.len() && (#[trigger] matches[i]).len() > 1 && matches[i][1] == Some(
                name,
            ) {
            let i = choose|i: int|
                0 <= i < matches.len() && (#[trigger] matches[i]).len() > 1 && matches[i][1]
                    == Some(name);
            if i < front.len() {
                assert(front[i] == matches[i]);
                let k = choose|k: int| 0 <= k < before.len() && before[k] == name;
                assert(list[k] == name);
            } else {
                assert(list[before.len() as int] == name);
            }
        }
    }
}

/// A profile is completed exactly where it is one of cargo's own or the manifest has
/// a table for it, in the order of the names.
pub proof fn law_profiles_complete(reply: ReplyText, manifest: Seq<char>, name: Seq<char>)
    requires
        regex_error("(?m)^\\s*\\[profile\\.([A-Za-z0-9_-]+)\\]"@) is None,
    ensures
        ({
            let list = candidate_list(CandidateKind::Profiles, reply, Some(manifest));
            let tables = regex_matches("(?m)^\\s*\\[profile\\.([A-Za-z0-9_-]+)\\]"@, manifest);
            &&& list.contains(name) <==> {
                ||| name == "bench"@
                ||| name == "dev"@
                ||| name == "release"@
                ||| name == "test"@
                ||| exists|i: int|
                    0 <= i < tables.len() && (#[trigger] tables[i]).len() > 1 && tables[i][1]
                        == Some(name)
            }
            &&& forall|i: int, j: int| 0 <= i < j < list.len() ==> text_before(list[i], list[j])
        }),
{
    let tables = regex_matches(profile_pattern(), manifest);
    let own = builtin_profiles();
    let groups = first_groups(tables);
    let all = own + groups;
    law_text_set(all);
    lemma_first_groups(tables, name);
    assert(own[0] == "bench"@ && own[1] == "dev"@ && own[2] == "release"@ && own[3] == "test"@);
    assert(all[0] == own[0] && all[1] == own[1] && all[2] == own[2] && all[3] == own[3]);
    if groups.contains(name) {
        let k = choose|k: int| 0 <= k < groups.len() && groups[k] == name;
        assert(all[own.len() + k] == name);
    }
    if all.contains(name) {
        let k = choose|k: int| 0 <= k < all.len() && all[k] == name;
        if k >= own.len() {
            assert(groups[k - own.len()] == name);
        }
    }
}

/// The revisions that can be completed are those of the lines that git printed.
pub proof fn law_revs_complete(
    status: Seq<char>,
    stdout: Seq<u8>,
    stderr: Seq<u8>,
    manifest: Option<Seq<char>>,
    rev: Seq<char>,
)
    ensures
        ({
            let lines = lines_of(utf8_lossy(stdout));
            candidate_list(
                CandidateKind::Revs,
                ReplyText::Exited { ok: true, status, stdout, stderr },
                manifest,
            ).contains(rev) <==> {
                ||| rev == ":worktree"@
                ||| rev == ":merge-base"@
                ||| rev == "HEAD"@
                ||| rev.len() > 0 && exists|i: int|
                    0 <= i < lines.len() && trim_text(#[trigger] lines[i]) == rev
            }
        }),
{
    law_revs_are_the_lines(lines_of(utf8_lossy(stdout)), rev);
}

/// Git is asked for its branches and tags, by their short names.
pub proof fn law_refs_are_branches_and_tags()
    ensures
        ref_args_text() == seq![
            "for-each-ref"@,
            "--format=%(refname:short)"@,
            "refs/heads"@,
            "refs/tags"@,
        ],
{
}

} // verus!
