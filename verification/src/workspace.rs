//! The workspace that cargo describes: which package a target belongs to, and
//! where the workspace lies in the repository.
use crate::git::{captured, result_text, run_capture, CommandReply, ReplyText};
use crate::json::{json_of_text, parse_text, trees, Json, JsonTree};
use crate::order::{law_text_set, set_of, sort_texts, sorted_copy, text_before, text_set};
use crate::paths::{
    components_of, joined, law_part_below_leads_back, lies_below, part_below, same_place,
};
use crate::text::{cat2, cat4, cat5, has_text, join, join_texts, lemma_texts_push, same_text, texts};
use vstd::prelude::*;

verus! {

/// A kind of target.
#[derive(Clone, Copy)]
pub enum TargetKind {
    Bin,
    Bench,
}

impl TargetKind {
    /// The kind as cargo writes it.
    pub open spec fn name(self) -> Seq<char> {
        match self {
            TargetKind::Bin => "bin"@,
            TargetKind::Bench => "bench"@,
        }
    }

    pub fn as_str(self) -> (r: &'static str)
        ensures
            r@ == self.name(),
    {
        match self {
            TargetKind::Bin => "bin",
            TargetKind::Bench => "bench",
        }
    }
}

/// A target is of a kind: the kind is in its list of kinds.
pub open spec fn has_kind(target: JsonTree, kind: Seq<char>) -> bool {
    target.field_items("kind"@) matches Some(kinds) && exists|i: int|
        0 <= i < kinds.len() && (#[trigger] kinds[i]).text() == Some(kind)
}

pub fn target_has_kind(target: &Json, kind: TargetKind) -> (r: bool)
    ensures
        r == has_kind(target.tree(), kind.name()),
{
    match target.items_at("kind") {
        None => false,
        Some(kinds) => {
            let wanted: &'static str = kind.as_str();
            let n: usize = kinds.len();
            let mut i: usize = 0;
            while i < n
                invariant
                    n == kinds@.len(),
                    i <= n,
                    wanted@ == kind.name(),
                    target.tree().field_items("kind"@) == Some(trees(kinds@)),
                    forall|j: int|
                        0 <= j < i ==> (#[trigger] trees(kinds@)[j]).text() != Some(kind.name()),
                decreases n - i,
            {
                if let Some(text) = kinds[i].as_str() {
                    if same_text(text, wanted) {
                        assert(trees(kinds@)[i as int].text() == Some(kind.name()));
                        return true;
                    }
                }
                i = i + 1;
            }
            false
        },
    }
}

/// The names of the targets of a kind, in their order.
pub open spec fn target_names_in(targets: Seq<JsonTree>, kind: Seq<char>) -> Seq<Seq<char>>
    decreases targets.len(),
{
    if targets.len() == 0 {
        seq![]
    } else {
        let before = target_names_in(targets.drop_last(), kind);
        match targets.last().field_text("name"@) {
            Some(name) if has_kind(targets.last(), kind) => before.push(name),
            _ => before,
        }
    }
}

pub(crate) fn targets_of_kind(targets: &[Json], kind: TargetKind) -> (r: Vec<String>)
    ensures
        texts(r@) == target_names_in(trees(targets@), kind.name()),
{
    let ghost all = trees(targets@);
    let mut out: Vec<String> = Vec::new();
    let n: usize = targets.len();
    let mut i: usize = 0;
    assert(texts(out@) =~= target_names_in(all.take(0), kind.name()));
    while i < n
        invariant
            n == targets@.len(),
            i <= n,
            all == trees(targets@),
            texts(out@) == target_names_in(all.take(i as int), kind.name()),
        decreases n - i,
    {
        broadcast use lemma_texts_push;

        assert(all.take(i + 1).drop_last() =~= all.take(i as int));
        assert(all.take(i + 1).last() == targets@[i as int].tree());
        if target_has_kind(&targets[i], kind) {
            if let Some(name) = targets[i].text_at("name") {
                out.push(name.to_owned());
            }
        }
        i = i + 1;
    }
    assert(all.take(n as int) =~= all);
    out
}

/// The names of the packages, in their order.
pub open spec fn package_names_in(packages: Seq<JsonTree>) -> Seq<Seq<char>>
    decreases packages.len(),
{
    if packages.len() == 0 {
        seq![]
    } else {
        let before = package_names_in(packages.drop_last());
        match packages.last().field_text("name"@) {
            Some(name) => before.push(name),
            None => before,
        }
    }
}

pub(crate) fn names_of_packages(packages: &[Json]) -> (r: Vec<String>)
    ensures
        texts(r@) == package_names_in(trees(packages@)),
{
    let ghost all = trees(packages@);
    let mut out: Vec<String> = Vec::new();
    let n: usize = packages.len();
    let mut i: usize = 0;
    assert(texts(out@) =~= package_names_in(all.take(0)));
    while i < n
        invariant
            n == packages@.len(),
            i <= n,
            all == trees(packages@),
            texts(out@) == package_names_in(all.take(i as int)),
        decreases n - i,
    {
        broadcast use lemma_texts_push;

        assert(all.take(i + 1).drop_last() =~= all.take(i as int));
        assert(all.take(i + 1).last() == packages@[i as int].tree());
        if let Some(name) = packages[i].text_at("name") {
            out.push(name.to_owned());
        }
        i = i + 1;
    }
    assert(all.take(n as int) =~= all);
    out
}

/// The targets of a kind that a package offers; none where it has no name or no
/// list of targets.
pub open spec fn offered(package: JsonTree, kind: Seq<char>) -> Seq<Seq<char>> {
    match (package.field_text("name"@), package.field_items("targets"@)) {
        (Some(_), Some(targets)) => target_names_in(targets, kind),
        _ => seq![],
    }
}

/// A package owns a target: it has a name and offers the target.
pub open spec fn owns(package: JsonTree, kind: Seq<char>, target: Seq<char>) -> bool {
    offered(package, kind).contains(target)
}

/// The targets of a kind that the packages offer, in their order.
pub open spec fn available_targets(packages: Seq<JsonTree>, kind: Seq<char>) -> Seq<Seq<char>>
    decreases packages.len(),
{
    if packages.len() == 0 {
        seq![]
    } else {
        available_targets(packages.drop_last(), kind) + offered(packages.last(), kind)
    }
}

/// The names of the packages that own a target, in their order.
pub open spec fn owner_names(
    packages: Seq<JsonTree>,
    kind: Seq<char>,
    target: Seq<char>,
) -> Seq<Seq<char>>
    decreases packages.len(),
{
    if packages.len() == 0 {
        seq![]
    } else {
        let before = owner_names(packages.drop_last(), kind, target);
        match packages.last().field_text("name"@) {
            Some(name) if owns(packages.last(), kind, target) => before.push(name),
            _ => before,
        }
    }
}

pub open spec fn unknown_package_text(name: Seq<char>, known: Seq<Seq<char>>) -> Seq<char> {
    "package '"@ + name + "' not found in workspace; available: "@ + join_texts(
        sorted_copy(known),
        ", "@,
    )
}

pub open spec fn no_owner_text(
    kind: Seq<char>,
    target: Seq<char>,
    available: Seq<Seq<char>>,
) -> Seq<char> {
    "no package in the workspace has a "@ + kind + " target named '"@ + target + "'; available "@
        + kind + " targets: "@ + (if available.len() == 0 {
        "(none)"@
    } else {
        join_texts(available, ", "@)
    })
        + "; if the target only exists in the revision being benchmarked, pass -p <package> explicitly"@
}

pub open spec fn many_owners_text(
    kind: Seq<char>,
    target: Seq<char>,
    owners: Seq<Seq<char>>,
) -> Seq<char> {
    kind + " target '"@ + target + "' exists in multiple packages: "@ + join_texts(owners, ", "@)
        + "; disambiguate with -p <package>"@
}

/// The package to benchmark: the one that was named, if the workspace has it,
/// else the only one that owns the target.
pub open spec fn resolved_package(
    packages: Seq<JsonTree>,
    explicit: Option<Seq<char>>,
    kind: Seq<char>,
    target: Seq<char>,
) -> Result<Seq<char>, Seq<char>> {
    match explicit {
        Some(name) => if package_names_in(packages).contains(name) {
            Ok(name)
        } else {
            Err(unknown_package_text(name, package_names_in(packages)))
        },
        None => {
            let owners = text_set(owner_names(packages, kind, target));
            if owners.len() == 1 {
                Ok(owners[0])
            } else if owners.len() == 0 {
                Err(no_owner_text(kind, target, text_set(available_targets(packages, kind))))
            } else {
                Err(many_owners_text(kind, target, owners))
            }
        },
    }
}

fn offered_by(package: &Json, kind: TargetKind) -> (r: Vec<String>)
    ensures
        texts(r@) == offered(package.tree(), kind.name()),
{
    if let Some(_) = package.text_at("name") {
        if let Some(targets) = package.items_at("targets") {
            return targets_of_kind(targets, kind);
        }
    }
    let none: Vec<String> = Vec::new();
    assert(texts(none@) =~= seq![]);
    none
}

fn gather(packages: &[Json], kind: TargetKind, target: &str) -> (r: (Vec<String>, Vec<String>))
    ensures
        texts(r.0@) == owner_names(trees(packages@), kind.name(), target@),
        texts(r.1@) == available_targets(trees(packages@), kind.name()),
{
    let ghost all = trees(packages@);
    let mut owners: Vec<String> = Vec::new();
    let mut available: Vec<String> = Vec::new();
    let n: usize = packages.len();
    let mut i: usize = 0;
    assert(texts(owners@) =~= owner_names(all.take(0), kind.name(), target@));
    assert(texts(available@) =~= available_targets(all.take(0), kind.name()));
    while i < n
        invariant
            n == packages@.len(),
            i <= n,
            all == trees(packages@),
            texts(owners@) == owner_names(all.take(i as int), kind.name(), target@),
            texts(available@) == available_targets(all.take(i as int), kind.name()),
        decreases n - i,
    {
        broadcast use lemma_texts_push;

        assert(all.take(i + 1).drop_last() =~= all.take(i as int));
        assert(all.take(i + 1).last() == packages@[i as int].tree());
        let mut offers: Vec<String> = offered_by(&packages[i], kind);
        if has_text(&offers, target) {
            if let Some(name) = packages[i].text_at("name") {
                owners.push(name.to_owned());
            }
        }
        let ghost before = available@;
        let ghost added = offers@;
        available.append(&mut offers);
        assert(texts(available@) =~= texts(before) + texts(added));
        i = i + 1;
    }
    assert(all.take(n as int) =~= all);
    (owners, available)
}

/// The package to benchmark, out of the packages that cargo lists.
pub fn resolve_package(
    packages: &[Json],
    explicit: Option<&str>,
    kind: TargetKind,
    target: &str,
) -> (r: Result<String, String>)
    ensures
        result_text(r) == resolved_package(
            trees(packages@),
            match explicit {
                Some(name) => Some(name@),
                None => None,
            },
            kind.name(),
            target@,
        ),
{
    if let Some(name) = explicit {
        let names: Vec<String> = names_of_packages(packages);
        if has_text(&names, name) {
            return Ok(name.to_owned());
        }
        let known: String = join(&sort_texts(&names), ", ");
        return Err(
            cat4("package '", name, "' not found in workspace; available: ", &known),
        );
    }
    let (owner_list, target_list) = gather(packages, kind, target);
    let owners: Vec<String> = set_of(&owner_list);
    if owners.len() == 1 {
        assert(texts(owners@)[0] == owners@[0]@);
        return Ok(owners[0].clone());
    }
    let word: &'static str = kind.as_str();
    if owners.len() == 0 {
        let available: Vec<String> = set_of(&target_list);
        let shown: String = if available.len() == 0 {
            "(none)".to_owned()
        } else {
            join(&available, ", ")
        };
        let mut text: String = cat5(
            "no package in the workspace has a ",
            word,
            " target named '",
            target,
            "'; available ",
        );
        text.append(word);
        text.append(" targets: ");
        text.append(&shown);
        text.append(
            "; if the target only exists in the revision being benchmarked, pass -p <package> explicitly",
        );
        return Err(text);
    }
    let mut text: String = cat5(
        word,
        " target '",
        target,
        "' exists in multiple packages: ",
        &join(&owners, ", "),
    );
    text.append("; disambiguate with -p <package>");
    Err(text)
}

proof fn lemma_owner_names(
    packages: Seq<JsonTree>,
    kind: Seq<char>,
    target: Seq<char>,
    name: Seq<char>,
)
    ensures
        owner_names(packages, kind, target).contains(name) <==> exists|i: int|
            0 <= i < packages.len() && (#[trigger] packages[i]).field_text("name"@) == Some(name)
                && owns(packages[i], kind, target),
    decreases packages.len(),
{
    let list = owner_names(packages, kind, target);
    if packages.len() > 0 {
        let front = packages.drop_last();
        let before = owner_names(front, kind, target);
        lemma_owner_names(front, kind, target, name);
        let last = packages.last();
        if before.contains(name) {
            let i = choose|i: int|
                0 <= i < front.len() && (#[trigger] front[i]).field_text("name"@) == Some(name)
                    && owns(front[i], kind, target);
            assert(packages[i].field_text("name"@) == Some(name));
            let k = choose|k: int| 0 <= k < before.len() && before[k] == name;
            assert(list[k] == name);
        }
        if last.field_text("name"@) == Some(name) && owns(last, kind, target) {
            assert(packages[packages.len() - 1].field_text("name"@) == Some(name));
            assert(list[list.len() - 1] == name);
        }
        if list.contains(name) && !before.contains(name) {
            let k = choose|k: int| 0 <= k < list.len() && list[k] == name;
            if k < before.len() {
                assert(before[k] == name);
            }
        }
        if exists|i: int|
            0 <= i < packages.len() && (#[trigger] packages[i]).field_text("name"@) == Some(name)
                && owns(packages[i], kind, target) {
            let i = choose|i: int|
                0 <= i < packages.len() && (#[trigger] packages[i]).field_text("name"@) == Some(
                    name,
                ) && owns(packages[i], kind, target);
            if i < front.len() {
                assert(front[i].field_text("name"@) == Some(name));
            }
        }
    }
}

/// A package that was inferred owns the target, and every package that owns the
/// target has its name.
pub proof fn law_inferred_package_is_the_only_owner(
    packages: Seq<JsonTree>,
    kind: Seq<char>,
    target: Seq<char>,
    name: Seq<char>,
)
    ensures
        resolved_package(packages, None, kind, target) == Ok::<Seq<char>, Seq<char>>(name) ==> {
            &&& exists|i: int|
                0 <= i < packages.len() && (#[trigger] packages[i]).field_text("name"@) == Some(
                    name,
                ) && owns(packages[i], kind, target)
            &&& forall|i: int|
                0 <= i < packages.len() && #[trigger] owns(packages[i], kind, target)
                    ==> packages[i].field_text("name"@) == Some(name)
        },
{
    let list = owner_names(packages, kind, target);
    let owners = text_set(list);
    crate::order::law_text_set(list);
    if resolved_package(packages, None, kind, target) == Ok::<Seq<char>, Seq<char>>(name) {
        assert(owners.contains(owners[0]));
        assert(list.contains(name));
        lemma_owner_names(packages, kind, target, name);
        assert forall|i: int|
            0 <= i < packages.len() && #[trigger] owns(
                packages[i],
                kind,
                target,
            ) implies packages[i].field_text("name"@) == Some(name) by {
            let other = packages[i].field_text("name"@)->0;
            lemma_owner_names(packages, kind, target, other);
            assert(packages[i].field_text("name"@) == Some(other));
            assert(list.contains(other));
            assert(owners.contains(other));
        }
    }
}

pub(crate) proof fn lemma_target_names(targets: Seq<JsonTree>, kind: Seq<char>, target: Seq<char>)
    ensures
        target_names_in(targets, kind).contains(target) <==> exists|i: int|
            0 <= i < targets.len() && (#[trigger] targets[i]).field_text("name"@) == Some(target)
                && has_kind(targets[i], kind),
    decreases targets.len(),
{
    let list = target_names_in(targets, kind);
    if targets.len() > 0 {
        let front = targets.drop_last();
        let before = target_names_in(front, kind);
        let last = targets.last();
        lemma_target_names(front, kind, target);
        if before.contains(target) {
            let i = choose|i: int|
                0 <= i < front.len() && (#[trigger] front[i]).field_text("name"@) == Some(target)
                    && has_kind(front[i], kind);
            assert(targets[i].field_text("name"@) == Some(target));
            let k = choose|k: int| 0 <= k < before.len() && before[k] == target;
            assert(list[k] == target);
        }
        if last.field_text("name"@) == Some(target) && has_kind(last, kind) {
            assert(targets[targets.len() - 1].field_text("name"@) == Some(target));
            assert(list[list.len() - 1] == target);
        }
        if list.contains(target) && !before.contains(target) {
            let k = choose|k: int| 0 <= k < list.len() && list[k] == target;
            if k < before.len() {
                assert(before[k] == target);
            }
        }
        if exists|i: int|
            0 <= i < targets.len() && (#[trigger] targets[i]).field_text("name"@) == Some(target)
                && has_kind(targets[i], kind) {
            let i = choose|i: int|
                0 <= i < targets.len() && (#[trigger] targets[i]).field_text("name"@) == Some(
                    target,
                ) && has_kind(targets[i], kind);
            if i < front.len() {
                assert(front[i].field_text("name"@) == Some(target));
            }
        }
    }
}

/// A package owns a target exactly where it has a name and some entry of its list
/// of targets, at any place, has the target's name and, at any place of its list of
/// kinds, the kind.
pub proof fn law_any_entry_makes_an_owner(package: JsonTree, kind: Seq<char>, target: Seq<char>)
    ensures
        owns(package, kind, target) <==> {
            &&& package.field_text("name"@) is Some
            &&& package.field_items("targets"@) matches Some(targets)
            &&& exists|i: int|
                0 <= i < targets.len() && (#[trigger] targets[i]).field_text("name"@) == Some(
                    target,
                ) && (targets[i].field_items("kind"@) matches Some(kinds) && exists|j: int|
                    0 <= j < kinds.len() && (#[trigger] kinds[j]).text() == Some(kind))
        },
{
    if let Some(targets) = package.field_items("targets"@) {
        lemma_target_names(targets, kind, target);
    }
}

/// Where a package owns the target, and all that do have one name, the package of
/// that name is inferred; and only then is one inferred. Where none does, or two of
/// different names do, it is an error.
pub proof fn law_only_owner_is_inferred(
    packages: Seq<JsonTree>,
    kind: Seq<char>,
    target: Seq<char>,
    name: Seq<char>,
)
    ensures
        resolved_package(packages, None, kind, target) == Ok::<Seq<char>, Seq<char>>(name) <==> {
            &&& exists|i: int|
                0 <= i < packages.len() && (#[trigger] packages[i]).field_text("name"@) == Some(
                    name,
                ) && owns(packages[i], kind, target)
            &&& forall|i: int|
                0 <= i < packages.len() && #[trigger] owns(packages[i], kind, target)
                    ==> packages[i].field_text("name"@) == Some(name)
        },
        resolved_package(packages, None, kind, target) is Err <==> {
            ||| forall|i: int|
                0 <= i < packages.len() ==> !(#[trigger] owns(packages[i], kind, target))
            ||| exists|i: int, j: int|
                0 <= i < packages.len() && 0 <= j < packages.len() && #[trigger] owns(
                    packages[i],
                    kind,
                    target,
                ) && #[trigger] owns(packages[j], kind, target) && packages[i].field_text("name"@)
                    != packages[j].field_text("name"@)
        },
{
    let list = owner_names(packages, kind, target);
    let owners = text_set(list);
    crate::order::law_text_set(list);
    assert forall|x: Seq<char>| #[trigger] list.contains(x) <==> exists|i: int|
        0 <= i < packages.len() && (#[trigger] packages[i]).field_text("name"@) == Some(x)
            && owns(packages[i], kind, target) by {
        lemma_owner_names(packages, kind, target, x);
    }
    law_inferred_package_is_the_only_owner(packages, kind, target, name);
    assert forall|i: int|
        0 <= i < packages.len() && #[trigger] owns(packages[i], kind, target) implies exists|
        x: Seq<char>,
    |
        packages[i].field_text("name"@) == Some(x) && #[trigger] owners.contains(x) by {
        let x = packages[i].field_text("name"@)->0;
        assert(packages[i].field_text("name"@) == Some(x));
        assert(list.contains(x));
        assert(owners.contains(x));
    }
    if (exists|i: int|
        0 <= i < packages.len() && (#[trigger] packages[i]).field_text("name"@) == Some(name)
            && owns(packages[i], kind, target)) && (forall|i: int|
        0 <= i < packages.len() && #[trigger] owns(packages[i], kind, target)
            ==> packages[i].field_text("name"@) == Some(name)) {
        assert(list.contains(name));
        assert(owners.contains(name));
        assert forall|k: int| 0 <= k < owners.len() implies owners[k] == name by {
            assert(owners.contains(owners[k]));
            assert(list.contains(owners[k]));
        }
        if owners.len() > 1 {
            assert(crate::order::text_before(owners[0], owners[1]));
            crate::order::lemma_before_irreflexive(name);
        }
    }
    if owners.len() > 1 {
        assert(crate::order::text_before(owners[0], owners[1]));
        if owners[0] == owners[1] {
            crate::order::lemma_before_irreflexive(owners[0]);
        }
        assert(owners.contains(owners[0]) && owners.contains(owners[1]));
        assert(list.contains(owners[0]) && list.contains(owners[1]));
        let i = choose|i: int|
            0 <= i < packages.len() && (#[trigger] packages[i]).field_text("name"@) == Some(
                owners[0],
            ) && owns(packages[i], kind, target);
        let j = choose|j: int|
            0 <= j < packages.len() && (#[trigger] packages[j]).field_text("name"@) == Some(
                owners[1],
            ) && owns(packages[j], kind, target);
        assert(owns(packages[i], kind, target) && owns(packages[j], kind, target));
    }
    if owners.len() == 1 {
        assert(owners.contains(owners[0]));
        assert(list.contains(owners[0]));
        let i = choose|i: int|
            0 <= i < packages.len() && (#[trigger] packages[i]).field_text("name"@) == Some(
                owners[0],
            ) && owns(packages[i], kind, target);
        assert(owns(packages[i], kind, target));
    }
}

pub(crate) proof fn lemma_package_names(packages: Seq<JsonTree>, name: Seq<char>)
    ensures
        package_names_in(packages).contains(name) <==> exists|i: int|
            0 <= i < packages.len() && (#[trigger] packages[i]).field_text("name"@) == Some(name),
    decreases packages.len(),
{
    let list = package_names_in(packages);
    if packages.len() > 0 {
        let front = packages.drop_last();
        let before = package_names_in(front);
        lemma_package_names(front, name);
        if before.contains(name) {
            let i = choose|i: int|
                0 <= i < front.len() && (#[trigger] front[i]).field_text("name"@) == Some(name);
            assert(packages[i].field_text("name"@) == Some(name));
            let k = choose|k: int| 0 <= k < before.len() && before[k] == name;
            assert(list[k] == name);
        }
        if packages.last().field_text("name"@) == Some(name) {
            assert(packages[packages.len() - 1].field_text("name"@) == Some(name));
            assert(list[list.len() - 1] == name);
        }
        if list.contains(name) && !before.contains(name) {
            let k = choose|k: int| 0 <= k < list.len() && list[k] == name;
            if k < before.len() {
                assert(before[k] == name);
            }
        }
        if exists|i: int|
            0 <= i < packages.len() && (#[trigger] packages[i]).field_text("name"@) == Some(
                name,
            ) {
            let i = choose|i: int|
                0 <= i < packages.len() && (#[trigger] packages[i]).field_text("name"@) == Some(
                    name,
                );
            if i < front.len() {
                assert(front[i].field_text("name"@) == Some(name));
            }
        }
    }
}

/// A package that was named is taken exactly where some package of the workspace
/// has that name, whatever targets it has.
pub proof fn law_any_package_can_be_named(
    packages: Seq<JsonTree>,
    named: Seq<char>,
    kind: Seq<char>,
    target: Seq<char>,
)
    ensures
        resolved_package(packages, Some(named), kind, target) == (if exists|i: int|
            0 <= i < packages.len() && (#[trigger] packages[i]).field_text("name"@) == Some(
                named,
            ) {
            Ok::<Seq<char>, Seq<char>>(named)
        } else {
            Err(
                "package '"@ + named + "' not found in workspace; available: "@ + join_texts(
                    sorted_copy(package_names_in(packages)),
                    ", "@,
                ),
            )
        }),
{
    lemma_package_names(packages, named);
}

/// A workspace is placed in a worktree where it lies in the repository: its place
/// below the repository's root leads to its root. Its package is the one that its
/// packages, the name given and the target come to.
pub proof fn law_workspace_is_placed(
    value: JsonTree,
    repo_root: Seq<char>,
    explicit: Option<Seq<char>>,
    kind: Seq<char>,
    target: Seq<char>,
    ws_rel: Seq<char>,
    package: Seq<char>,
)
    requires
        repo_root.len() > 0,
        workspace_of(value, repo_root, explicit, kind, target) == Ok::<
            (Seq<char>, Seq<char>),
            Seq<char>,
        >((ws_rel, package)),
    ensures
        value.field_text("workspace_root"@) matches Some(root) && same_place(
            joined(repo_root, ws_rel),
            root,
        ),
        value.field_items("packages"@) matches Some(packages) && resolved_package(
            packages,
            explicit,
            kind,
            target,
        ) == Ok::<Seq<char>, Seq<char>>(package),
{
    law_part_below_leads_back(value.field_text("workspace_root"@)->0, repo_root);
}

/// A package that was named is taken as it was named, or not at all.
pub proof fn law_named_package_is_kept(
    packages: Seq<JsonTree>,
    named: Seq<char>,
    kind: Seq<char>,
    target: Seq<char>,
)
    ensures
        resolved_package(packages, Some(named), kind, target) matches Ok(name) ==> name == named,
        resolved_package(packages, Some(named), kind, target) is Ok
            <==> package_names_in(packages).contains(named),
{
}

/// The order in which cargo lists the packages does not matter for which package
/// is inferred.
pub proof fn law_package_order_is_irrelevant(
    a: Seq<JsonTree>,
    b: Seq<JsonTree>,
    kind: Seq<char>,
    target: Seq<char>,
)
    requires
        forall|p: JsonTree| a.contains(p) <==> b.contains(p),
    ensures
        resolved_package(a, None, kind, target) is Ok <==> resolved_package(
            b,
            None,
            kind,
            target,
        ) is Ok,
        resolved_package(a, None, kind, target) matches Ok(name) ==> resolved_package(
            b,
            None,
            kind,
            target,
        ) == Ok::<Seq<char>, Seq<char>>(name),
{
    let la = owner_names(a, kind, target);
    let lb = owner_names(b, kind, target);
    assert forall|x: Seq<char>| la.contains(x) <==> lb.contains(x) by {
        lemma_owner_names(a, kind, target, x);
        lemma_owner_names(b, kind, target, x);
        if la.contains(x) {
            let i = choose|i: int|
                0 <= i < a.len() && (#[trigger] a[i]).field_text("name"@) == Some(x) && owns(
                    a[i],
                    kind,
                    target,
                );
            assert(a.contains(a[i]));
            let k = choose|k: int| 0 <= k < b.len() && b[k] == a[i];
            assert(b[k].field_text("name"@) == Some(x));
        }
        if lb.contains(x) {
            let i = choose|i: int|
                0 <= i < b.len() && (#[trigger] b[i]).field_text("name"@) == Some(x) && owns(
                    b[i],
                    kind,
                    target,
                );
            assert(b.contains(b[i]));
            let k = choose|k: int| 0 <= k < a.len() && a[k] == b[i];
            assert(a[k].field_text("name"@) == Some(x));
        }
    }
    crate::order::law_text_set_members(la, lb);
}

// ---------------------------------------------------------------------------
// The workspace
// ---------------------------------------------------------------------------

/// Where the workspace lies in the repository, and the package to benchmark.
#[derive(Debug)]
pub struct WorkspaceInfo {
    pub ws_rel: String,
    pub package: String,
}

pub open spec fn metadata_args_text() -> Seq<Seq<char>> {
    seq!["metadata"@, "--format-version"@, "1"@, "--no-deps"@]
}

/// The arguments of cargo that ask for the description of the workspace.
pub fn metadata_args() -> (r: Vec<String>)
    ensures
        texts(r@) == metadata_args_text(),
{
    let r: Vec<String> = crate::git::arguments(&["metadata", "--format-version", "1", "--no-deps"]);
    assert(texts(r@) =~= metadata_args_text());
    r
}

/// Where the workspace lies in the repository and the package to benchmark, or
/// why they cannot be told.
pub open spec fn workspace_of(
    value: JsonTree,
    repo_root: Seq<char>,
    explicit: Option<Seq<char>>,
    kind: Seq<char>,
    target: Seq<char>,
) -> Result<(Seq<char>, Seq<char>), Seq<char>> {
    match (value.field_text("workspace_root"@), value.field_items("packages"@)) {
        (None, _) => Err("cargo metadata did not contain workspace_root"@),
        (_, None) => Err("cargo metadata did not contain packages"@),
        (Some(root), Some(packages)) => match resolved_package(packages, explicit, kind, target) {
            Err(e) => Err(e),
            Ok(package) => if lies_below(root, repo_root) {
                Ok((part_below(root, repo_root), package))
            } else {
                Err(
                    "cargo workspace root "@ + root + " is not inside git repo "@ + repo_root,
                )
            },
        },
    }
}

/// What a description of the workspace says, or why there is none.
pub open spec fn loaded(
    reply: ReplyText,
    repo_root: Seq<char>,
    explicit: Option<Seq<char>>,
    kind: Seq<char>,
    target: Seq<char>,
) -> Result<(Seq<char>, Seq<char>), Seq<char>> {
    match captured("cargo"@, metadata_args_text(), reply) {
        Err(e) => Err(e),
        Ok(raw) => match json_of_text(raw) {
            Err(e) => Err("failed to parse cargo metadata: "@ + e),
            Ok(value) => workspace_of(value, repo_root, explicit, kind, target),
        },
    }
}

pub open spec fn info_text(r: Result<WorkspaceInfo, String>) -> Result<
    (Seq<char>, Seq<char>),
    Seq<char>,
> {
    match r {
        Ok(info) => Ok((info.ws_rel@, info.package@)),
        Err(e) => Err(e@),
    }
}

/// Reads the description of the workspace.
pub fn read_workspace(
    value: &Json,
    repo_root: &str,
    package: Option<&str>,
    kind: TargetKind,
    target: &str,
) -> (r: Result<WorkspaceInfo, String>)
    ensures
        info_text(r) == workspace_of(
            value.tree(),
            repo_root@,
            match package {
                Some(name) => Some(name@),
                None => None,
            },
            kind.name(),
            target@,
        ),
{
    let root: &str = match value.text_at("workspace_root") {
        Some(root) => root,
        None => {
            return Err("cargo metadata did not contain workspace_root".to_owned());
        },
    };
    let packages: &Vec<Json> = match value.items_at("packages") {
        Some(packages) => packages,
        None => {
            return Err("cargo metadata did not contain packages".to_owned());
        },
    };
    match resolve_package(packages, package, kind, target) {
        Err(e) => Err(e),
        Ok(package) => match crate::paths::strip_prefix(root, repo_root) {
            Some(ws_rel) => Ok(WorkspaceInfo { ws_rel, package }),
            None => Err(
                cat4("cargo workspace root ", root, " is not inside git repo ", repo_root),
            ),
        },
    }
}

/// Loads the workspace out of cargo's reply to `metadata_args`.
pub fn load(
    reply: &CommandReply,
    repo_root: &str,
    package: Option<&str>,
    kind: TargetKind,
    target: &str,
) -> (r: Result<WorkspaceInfo, String>)
    ensures
        info_text(r) == loaded(
            reply@,
            repo_root@,
            match package {
                Some(name) => Some(name@),
                None => None,
            },
            kind.name(),
            target@,
        ),
{
    match run_capture("cargo", &metadata_args(), reply) {
        Err(e) => Err(e),
        Ok(raw) => match parse_text(&raw) {
            Err(e) => Err(cat2("failed to parse cargo metadata: ", &e)),
            Ok(value) => read_workspace(&value, repo_root, package, kind, target),
        },
    }
}

impl WorkspaceInfo {
    /// The root of the workspace in a worktree.
    pub fn worktree_ws_root(&self, worktree: &str) -> (r: String)
        ensures
            r@ == joined(worktree@, self.ws_rel@),
    {
        crate::paths::join(worktree, &self.ws_rel)
    }
}

proof fn lemma_available_targets(packages: Seq<JsonTree>, kind: Seq<char>, target: Seq<char>)
    ensures
        available_targets(packages, kind).contains(target) <==> exists|i: int|
            0 <= i < packages.len() && #[trigger] owns(packages[i], kind, target),
    decreases packages.len(),
{
    let list = available_targets(packages, kind);
    if packages.len() > 0 {
        let front = packages.drop_last();
        let before = available_targets(front, kind);
        let more = offered(packages.last(), kind);
        lemma_available_targets(front, kind, target);
        if list.contains(target) {
            let k = choose|k: int| 0 <= k < list.len() && list[k] == target;
            if k < before.len() {
                assert(before[k] == target);
                let i = choose|i: int|
                    0 <= i < front.len() && #[trigger] owns(front[i], kind, target);
                assert(owns(packages[i], kind, target));
            } else {
                assert(more[k - before.len()] == target);
                assert(owns(packages[packages.len() - 1], kind, target));
            }
        }
        if exists|i: int| 0 <= i < packages.len() && #[trigger] owns(packages[i], kind, target) {
            let i = choose|i: int|
                0 <= i < packages.len() && #[trigger] owns(packages[i], kind, target);
            if i < front.len() {
                assert(owns(front[i], kind, target));
                let k = choose|k: int| 0 <= k < before.len() && before[k] == target;
                assert(list[k] == target);
            } else {
                let k = choose|k: int| 0 <= k < more.len() && more[k] == target;
                assert(list[before.len() + k] == target);
            }
        }
    }
}

/// Where no package owns the target, the targets of its kind that any package owns are
/// told, each once and in order, or that there are none. Where several own it, they
/// are told in the same way.
pub proof fn law_unclear_targets_are_told(
    packages: Seq<JsonTree>,
    kind: Seq<char>,
    target: Seq<char>,
) -> (r: (Seq<Seq<char>>, Seq<Seq<char>>))
    ensures
        forall|t: Seq<char>| #[trigger]
            r.0.contains(t) <==> exists|i: int|
                0 <= i < packages.len() && #[trigger] owns(packages[i], kind, t),
        forall|i: int, j: int| 0 <= i < j < r.0.len() ==> text_before(r.0[i], r.0[j]),
        forall|name: Seq<char>| #[trigger]
            r.1.contains(name) <==> exists|i: int|
                0 <= i < packages.len() && (#[trigger] packages[i]).field_text("name"@) == Some(
                    name,
                ) && owns(packages[i], kind, target),
        forall|i: int, j: int| 0 <= i < j < r.1.len() ==> text_before(r.1[i], r.1[j]),
        r.1.len() == 0 ==> resolved_package(packages, None, kind, target) == Err::<
            Seq<char>,
            Seq<char>,
        >(
            "no package in the workspace has a "@ + kind + " target named '"@ + target
                + "'; available "@ + kind + " targets: "@ + (if r.0.len() == 0 {
                "(none)"@
            } else {
                join_texts(r.0, ", "@)
            })
                + "; if the target only exists in the revision being benchmarked, pass -p <package> explicitly"@,
        ),
        r.1.len() > 1 ==> resolved_package(packages, None, kind, target) == Err::<
            Seq<char>,
            Seq<char>,
        >(
            kind + " target '"@ + target + "' exists in multiple packages: "@ + join_texts(
                r.1,
                ", "@,
            ) + "; disambiguate with -p <package>"@,
        ),
{
    let targets = available_targets(packages, kind);
    let owners = owner_names(packages, kind, target);
    law_text_set(targets);
    law_text_set(owners);
    assert forall|t: Seq<char>| #[trigger] targets.contains(t) <==> exists|i: int|
        0 <= i < packages.len() && #[trigger] owns(packages[i], kind, t) by {
        lemma_available_targets(packages, kind, t);
    }
    assert forall|name: Seq<char>| #[trigger] owners.contains(name) <==> exists|i: int|
        0 <= i < packages.len() && (#[trigger] packages[i]).field_text("name"@) == Some(name)
            && owns(packages[i], kind, target) by {
        lemma_owner_names(packages, kind, target, name);
    }
    (text_set(targets), text_set(owners))
}

/// Cargo is asked for the packages of the workspace alone. What it describes counts;
/// where it fails, cannot be read or lacks what is needed, or where the workspace does
/// not lie in the repository, that is told.
pub proof fn law_unknown_workspaces_are_told(
    reply: ReplyText,
    repo_root: Seq<char>,
    explicit: Option<Seq<char>>,
    kind: Seq<char>,
    target: Seq<char>,
)
    ensures
        metadata_args_text() == seq!["metadata"@, "--format-version"@, "1"@, "--no-deps"@],
        ({
            let result = loaded(reply, repo_root, explicit, kind, target);
            match captured(
                "cargo"@,
                seq!["metadata"@, "--format-version"@, "1"@, "--no-deps"@],
                reply,
            ) {
                Err(e) => result == Err::<(Seq<char>, Seq<char>), Seq<char>>(e),
                Ok(raw) => match json_of_text(raw) {
                    Err(e) => result == Err::<(Seq<char>, Seq<char>), Seq<char>>(
                        "failed to parse cargo metadata: "@ + e,
                    ),
                    Ok(value) => {
                        let root = value.field_text("workspace_root"@);
                        let packages = value.field_items("packages"@);
                        &&& root is None ==> result == Err::<(Seq<char>, Seq<char>), Seq<char>>(
                            "cargo metadata did not contain workspace_root"@,
                        )
                        &&& root is Some && packages is None ==> result == Err::<
                            (Seq<char>, Seq<char>),
                            Seq<char>,
                        >("cargo metadata did not contain packages"@)
                        &&& root is Some && packages is Some ==> {
                            let package = resolved_package(packages->0, explicit, kind, target);
                            let below = components_of(repo_root).len() <= components_of(
                                root->0,
                            ).len() && forall|i: int|
                                0 <= i < components_of(repo_root).len() ==> components_of(
                                    root->0,
                                )[i] == components_of(repo_root)[i];
                            &&& package matches Err(e) ==> result == Err::<
                                (Seq<char>, Seq<char>),
                                Seq<char>,
                            >(e)
                            &&& package is Ok && !below ==> result == Err::<
                                (Seq<char>, Seq<char>),
                                Seq<char>,
                            >(
                                "cargo workspace root "@ + root->0 + " is not inside git repo "@
                                    + repo_root,
                            )
                            &&& package matches Ok(name) ==> (below ==> (result matches Ok(found)
                                && found.1 == name))
                        }
                    },
                },
            }
        }),
{
    if let Ok(raw) = captured("cargo"@, metadata_args_text(), reply) {
        if let Ok(value) = json_of_text(raw) {
            if let Some(root) = value.field_text("workspace_root"@) {
                let a = components_of(root);
                let b = components_of(repo_root);
                if b.len() <= a.len() {
                    if a.take(b.len() as int) == b {
                        assert forall|i: int| 0 <= i < b.len() implies a[i] == b[i] by {
                            assert(a.take(b.len() as int)[i] == b[i]);
                        }
                    }
                    if forall|i: int| 0 <= i < b.len() ==> a[i] == b[i] {
                        assert(a.take(b.len() as int) =~= b);
                    }
                }
            }
        }
    }
}

} // verus!
