//! Commands and what they print; revisions, snapshots and worktrees of a git
//! repository.
use crate::bytes::{lossy, utf8_lossy};
use crate::numbers::{
    decimal, decimal_string, digit_char, hex_digits, lemma_hex_digits_len, push_hex_digits,
};
use crate::paths::{
    components_of, is_name, joined, law_child_components, law_children_are_apart, name_of,
    same_place,
};
use crate::text::{
    begins_with, behind, cat2, cat3, cat4, cat5, chars_of, is_white_space, join, join_texts,
    law_only_blanks_trim_to_nothing, lemma_texts_push, lines, lines_of, replace_char,
    replace_text, same_text, slices, string_of, strings_of, strip_prefix, texts, trim_text,
    trimmed,
};
use vstd::prelude::*;
use vstd::slice::slice_subrange;

verus! {

// ---------------------------------------------------------------------------
// Commands
// ---------------------------------------------------------------------------

/// How a command went.
pub enum CommandReply {
    /// It could not be started, for the reason given.
    NotStarted(String),
    /// It ran: whether it succeeded, its exit status in words, what it printed.
    Exited { ok: bool, status: String, stdout: Vec<u8>, stderr: Vec<u8> },
}

/// What a `CommandReply` says.
pub ghost enum ReplyText {
    NotStarted(Seq<char>),
    Exited { ok: bool, status: Seq<char>, stdout: Seq<u8>, stderr: Seq<u8> },
}

impl View for CommandReply {
    type V = ReplyText;

    open spec fn view(&self) -> ReplyText {
        match *self {
            CommandReply::NotStarted(text) => ReplyText::NotStarted(text@),
            CommandReply::Exited { ok, status, stdout, stderr } => ReplyText::Exited {
                ok,
                status: status@,
                stdout: stdout@,
                stderr: stderr@,
            },
        }
    }
}

/// What a list of replies says.
pub open spec fn replies(list: Seq<CommandReply>) -> Seq<ReplyText> {
    Seq::new(list.len(), |i: int| list[i]@)
}

/// The text of a string or of an error.
pub open spec fn result_text(r: Result<String, String>) -> Result<Seq<char>, Seq<char>> {
    match r {
        Ok(s) => Ok(s@),
        Err(e) => Err(e@),
    }
}

/// The texts of a list of literals.
pub open spec fn words_text(list: Seq<&str>) -> Seq<Seq<char>> {
    Seq::new(list.len(), |i: int| list[i]@)
}

/// Arguments out of texts.
pub fn arguments(list: &[&str]) -> (r: Vec<String>)
    ensures
        texts(r@) == words_text(list@),
{
    let mut out: Vec<String> = Vec::new();
    let n: usize = list.len();
    let mut i: usize = 0;
    while i < n
        invariant
            n == list@.len(),
            i <= n,
            texts(out@) == words_text(list@).take(i as int),
        decreases n - i,
    {
        broadcast use lemma_texts_push;

        out.push(list[i].to_owned());
        assert(words_text(list@).take(i as int).push(list@[i as int]@) =~= words_text(list@).take(
            i + 1,
        ));
        i = i + 1;
    }
    assert(words_text(list@).take(n as int) =~= words_text(list@));
    out
}

/// A program and its arguments, with blanks between.
pub open spec fn command_text(program: Seq<char>, args: Seq<Seq<char>>) -> Seq<char> {
    join_texts(seq![program] + args, " "@)
}

pub fn command_line(program: &str, args: &[String]) -> (r: String)
    ensures
        r@ == command_text(program@, texts(args@)),
{
    let mut all: Vec<String> = Vec::new();
    all.push(program.to_owned());
    let n: usize = args.len();
    let mut i: usize = 0;
    assert(texts(all@) =~= seq![program@] + texts(args@).take(0));
    while i < n
        invariant
            n == args@.len(),
            i <= n,
            texts(all@) == seq![program@] + texts(args@).take(i as int),
        decreases n - i,
    {
        broadcast use lemma_texts_push;

        all.push(args[i].clone());
        assert((seq![program@] + texts(args@).take(i as int)).push(args@[i as int]@) =~= seq![
            program@,
        ] + texts(args@).take(i + 1));
        i = i + 1;
    }
    assert(texts(args@).take(n as int) =~= texts(args@));
    join(&all, " ")
}

/// The last `n` lines of a text, or all where there are fewer.
pub open spec fn tail_text(s: Seq<char>, n: nat) -> Seq<char> {
    let all = lines_of(s);
    join_texts(
        all.skip(
            if all.len() > n {
                all.len() - n
            } else {
                0
            },
        ),
        "\n"@,
    )
}

pub fn tail_lines(s: &str, n: usize) -> (r: String)
    ensures
        r@ == tail_text(s@, n as nat),
{
    let chars: Vec<char> = chars_of(s);
    let all: Vec<String> = strings_of(&lines(&chars));
    let start: usize = if all.len() > n {
        all.len() - n
    } else {
        0
    };
    let rest: &[String] = slice_subrange(&all, start, all.len());
    assert(texts(rest@) =~= lines_of(s@).skip(start as int));
    join(rest, "\n")
}

/// The first `n` lines of a text, or all where there are fewer.
pub open spec fn head_text(s: Seq<char>, n: nat) -> Seq<char> {
    let all = lines_of(s);
    join_texts(
        all.take(
            if all.len() > n {
                n as int
            } else {
                all.len() as int
            },
        ),
        "\n"@,
    )
}

pub fn head_lines(s: &str, n: usize) -> (r: String)
    ensures
        r@ == head_text(s@, n as nat),
{
    let chars: Vec<char> = chars_of(s);
    let all: Vec<String> = strings_of(&lines(&chars));
    let end: usize = if all.len() > n {
        n
    } else {
        all.len()
    };
    let rest: &[String] = slice_subrange(&all, 0, end);
    assert(texts(rest@) =~= lines_of(s@).take(end as int));
    join(rest, "\n")
}

/// What is said of a command that failed.
pub open spec fn failure_text(
    program: Seq<char>,
    args: Seq<Seq<char>>,
    status: Seq<char>,
    stderr: Seq<u8>,
) -> Seq<char> {
    "command failed: "@ + command_text(program, args) + "\nstatus: "@ + status
        + "\nstderr (last 20 lines):\n"@ + tail_text(utf8_lossy(stderr), 20)
}

pub fn output_error(program: &str, args: &[String], status: &str, stderr: &[u8]) -> (r: String)
    ensures
        r@ == failure_text(program@, texts(args@), status@, stderr@),
{
    let mut out: String = cat4(
        "command failed: ",
        &command_line(program, args),
        "\nstatus: ",
        status,
    );
    out.append("\nstderr (last 20 lines):\n");
    out.append(&tail_lines(&lossy(stderr), 20));
    out
}

/// What a command printed, or why it failed.
pub open spec fn captured(
    program: Seq<char>,
    args: Seq<Seq<char>>,
    reply: ReplyText,
) -> Result<Seq<char>, Seq<char>> {
    match reply {
        ReplyText::NotStarted(text) => Err("failed to run "@ + program + ": "@ + text),
        ReplyText::Exited { ok, status, stdout, stderr } => if ok {
            Ok(utf8_lossy(stdout))
        } else {
            Err(failure_text(program, args, status, stderr))
        },
    }
}

pub fn run_capture(program: &str, args: &[String], reply: &CommandReply) -> (r: Result<
    String,
    String,
>)
    ensures
        result_text(r) == captured(program@, texts(args@), reply@),
{
    match reply {
        CommandReply::NotStarted(text) => Err(cat4("failed to run ", program, ": ", text)),
        CommandReply::Exited { ok, status, stdout, stderr } => {
            if *ok {
                Ok(lossy(stdout))
            } else {
                Err(output_error(program, args, status, stderr))
            }
        },
    }
}

/// What a git command printed, without white space at its ends, or why it failed.
pub open spec fn git_answer(args: Seq<Seq<char>>, reply: ReplyText) -> Result<
    Seq<char>,
    Seq<char>,
> {
    match captured("git"@, args, reply) {
        Ok(text) => Ok(trim_text(text)),
        Err(e) => Err(e),
    }
}

fn answer(args: &[String], reply: &CommandReply) -> (r: Result<String, String>)
    ensures
        result_text(r) == git_answer(texts(args@), reply@),
{
    match run_capture("git", args, reply) {
        Ok(text) => Ok(trimmed(&text)),
        Err(e) => Err(e),
    }
}

pub open spec fn root_args() -> Seq<Seq<char>> {
    seq!["rev-parse"@, "--show-toplevel"@]
}

/// The arguments of git that ask for the root of the repository.
pub fn repo_root_args() -> (r: Vec<String>)
    ensures
        texts(r@) == root_args(),
{
    let r: Vec<String> = arguments(&["rev-parse", "--show-toplevel"]);
    assert(texts(r@) =~= root_args());
    r
}

/// The root of the repository, out of the reply to `repo_root_args`.
pub fn repo_root(reply: &CommandReply) -> (r: Result<String, String>)
    ensures
        result_text(r) == git_answer(root_args(), reply@),
{
    answer(&repo_root_args(), reply)
}

pub open spec fn status_args_text() -> Seq<Seq<char>> {
    seq!["status"@, "--porcelain"@]
}

/// The arguments of git that ask for local changes.
pub fn status_args() -> (r: Vec<String>)
    ensures
        texts(r@) == status_args_text(),
{
    let r: Vec<String> = arguments(&["status", "--porcelain"]);
    assert(texts(r@) =~= status_args_text());
    r
}

/// Whether there are local changes: git printed something but white space.
pub open spec fn dirtiness(reply: ReplyText) -> Result<bool, Seq<char>> {
    match git_answer(status_args_text(), reply) {
        Ok(text) => Ok(text.len() > 0),
        Err(e) => Err(e),
    }
}

/// There are local changes exactly where git, asked for them, succeeds and prints
/// anything but white space, whatever it says of them: an untracked file counts.
/// Without git's answer nothing is known.
pub proof fn law_anything_printed_is_a_change(reply: ReplyText)
    ensures
        dirtiness(reply) is Ok <==> (reply matches ReplyText::Exited { ok, .. } && ok),
        match reply {
            ReplyText::Exited { ok, stdout, .. } => ok ==> dirtiness(reply) == Ok::<
                bool,
                Seq<char>,
            >(
                exists|i: int|
                    0 <= i < utf8_lossy(stdout).len() && !is_white_space(
                        #[trigger] utf8_lossy(stdout)[i],
                    ),
            ),
            ReplyText::NotStarted(_) => true,
        },
{
    if let ReplyText::Exited { ok, stdout, .. } = reply {
        law_only_blanks_trim_to_nothing(utf8_lossy(stdout));
    }
}

/// Whether there are local changes, out of the reply to `status_args`.
pub fn is_dirty(reply: &CommandReply) -> (r: Result<bool, String>)
    ensures
        match r {
            Ok(dirty) => dirtiness(reply@) == Ok::<bool, Seq<char>>(dirty),
            Err(e) => dirtiness(reply@) == Err::<bool, Seq<char>>(e@),
        },
        match reply@ {
            ReplyText::Exited { ok, stdout, .. } => if ok {
                r matches Ok(dirty) && dirty == (exists|i: int|
                    0 <= i < utf8_lossy(stdout).len() && !is_white_space(
                        #[trigger] utf8_lossy(stdout)[i],
                    ))
            } else {
                r is Err
            },
            ReplyText::NotStarted(_) => r is Err,
        },
{
    proof {
        law_anything_printed_is_a_change(reply@);
    }
    match answer(&status_args(), reply) {
        Ok(text) => Ok(!text.as_str().is_empty()),
        Err(e) => Err(e),
    }
}

// ---------------------------------------------------------------------------
// Revisions
// ---------------------------------------------------------------------------

/// A revision: how it was asked for, its commit, and the commit's short name.
pub struct ResolvedRev {
    pub spec: String,
    pub sha: String,
    pub short: String,
}

/// What a `ResolvedRev` holds.
pub ghost struct RevText {
    pub spec: Seq<char>,
    pub sha: Seq<char>,
    pub short: Seq<char>,
}

impl View for ResolvedRev {
    type V = RevText;

    open spec fn view(&self) -> RevText {
        RevText { spec: self.spec@, sha: self.sha@, short: self.short@ }
    }
}

/// The next thing to do on the way to a revision.
pub enum RevStep {
    /// Run git in the repository, on another index where one is named.
    Git { args: Vec<String>, index: Option<String> },
    /// Remove the file `to`, then copy `from` to it if `from` exists.
    CopyIndex { from: String, to: String },
    /// Remove the file.
    RemoveIndex(String),
    /// Nothing: this is the revision, or why there is none.
    Done(Result<ResolvedRev, String>),
}

/// What a `RevStep` asks for.
pub ghost enum RevAsk {
    Git(Seq<Seq<char>>, Option<Seq<char>>),
    CopyIndex(Seq<char>, Seq<char>),
    RemoveIndex(Seq<char>),
    Done(Result<RevText, Seq<char>>),
}

impl View for RevStep {
    type V = RevAsk;

    open spec fn view(&self) -> RevAsk {
        match *self {
            RevStep::Git { args, index } => RevAsk::Git(
                texts(args@),
                match index {
                    Some(path) => Some(path@),
                    None => None,
                },
            ),
            RevStep::CopyIndex { from, to } => RevAsk::CopyIndex(from@, to@),
            RevStep::RemoveIndex(path) => RevAsk::RemoveIndex(path@),
            RevStep::Done(Ok(rev)) => RevAsk::Done(Ok(rev@)),
            RevStep::Done(Err(e)) => RevAsk::Done(Err(e@)),
        }
    }
}

pub open spec fn short_args_text(sha: Seq<char>) -> Seq<Seq<char>> {
    seq!["rev-parse"@, "--short"@, sha]
}

fn short_args(sha: &str) -> (r: Vec<String>)
    ensures
        texts(r@) == short_args_text(sha@),
{
    let r: Vec<String> = arguments(&["rev-parse", "--short", sha]);
    assert(texts(r@) =~= short_args_text(sha@));
    r
}

fn ask(args: Vec<String>) -> (r: RevStep)
    ensures
        r@ == RevAsk::Git(texts(args@), None),
{
    RevStep::Git { args, index: None }
}

fn fail(e: String) -> (r: RevStep)
    ensures
        r@ == RevAsk::Done(Err(e@)),
{
    RevStep::Done(Err(e))
}

/// The last question for a known commit: its short name.
pub open spec fn short_step(spec: Seq<char>, sha: Seq<char>, seen: Seq<ReplyText>) -> RevAsk {
    if seen.len() == 0 {
        RevAsk::Git(short_args_text(sha), None)
    } else {
        match git_answer(short_args_text(sha), seen[0]) {
            Ok(short) => RevAsk::Done(Ok(RevText { spec, sha, short })),
            Err(e) => RevAsk::Done(Err(e)),
        }
    }
}

fn name_commit(spec: String, sha: String, seen: &[CommandReply]) -> (r: RevStep)
    ensures
        r@ == short_step(spec@, sha@, replies(seen@)),
{
    let args: Vec<String> = short_args(&sha);
    if seen.len() == 0 {
        return ask(args);
    }
    assert(replies(seen@)[0] == seen@[0]@);
    match answer(&args, &seen[0]) {
        Ok(short) => RevStep::Done(Ok(ResolvedRev { spec, sha, short })),
        Err(e) => fail(e),
    }
}

pub open spec fn verify_args_text(spec: Seq<char>) -> Seq<Seq<char>> {
    seq!["rev-parse"@, "--verify"@, "--quiet"@, spec + "^{commit}"@]
}

pub open spec fn not_found_text(root: Seq<char>, spec: Seq<char>) -> Seq<char> {
    "revision '"@ + spec + "' not found in "@ + root + " (tried `git rev-parse "@ + spec
        + "^{commit}`)"@
}

/// Resolving a revision that git knows: the commit first, then its short name.
pub open spec fn rev_step(root: Seq<char>, spec: Seq<char>, seen: Seq<ReplyText>) -> RevAsk {
    if seen.len() == 0 {
        RevAsk::Git(verify_args_text(spec), None)
    } else {
        match seen[0] {
            ReplyText::NotStarted(e) => RevAsk::Done(Err("failed to run git rev-parse: "@ + e)),
            ReplyText::Exited { ok, stdout, .. } => if !ok {
                RevAsk::Done(Err(not_found_text(root, spec)))
            } else {
                short_step(spec, trim_text(utf8_lossy(stdout)), seen.skip(1))
            },
        }
    }
}

fn rest(seen: &[CommandReply], n: usize) -> (r: &[CommandReply])
    requires
        n <= seen@.len(),
    ensures
        replies(r@) == replies(seen@).skip(n as int),
{
    let r: &[CommandReply] = slice_subrange(seen, n, seen.len());
    assert(replies(r@) =~= replies(seen@).skip(n as int));
    r
}

/// What follows on the replies seen so far, on the way to the revision `spec`.
pub fn resolve_rev(repo_root: &str, spec: &str, seen: &[CommandReply]) -> (r: RevStep)
    ensures
        r@ == rev_step(repo_root@, spec@, replies(seen@)),
{
    if seen.len() == 0 {
        let verify: String = cat2(spec, "^{commit}");
        let args: Vec<String> = arguments(&["rev-parse", "--verify", "--quiet", &verify]);
        assert(texts(args@) =~= verify_args_text(spec@));
        return ask(args);
    }
    assert(replies(seen@)[0] == seen@[0]@);
    match &seen[0] {
        CommandReply::NotStarted(e) => fail(cat2("failed to run git rev-parse: ", e)),
        CommandReply::Exited { ok, status: _, stdout, stderr: _ } => {
            if !*ok {
                let mut text: String = cat5(
                    "revision '",
                    spec,
                    "' not found in ",
                    repo_root,
                    " (tried `git rev-parse ",
                );
                text.append(spec);
                text.append("^{commit}`)");
                fail(text)
            } else {
                let sha: String = trimmed(&lossy(stdout));
                name_commit(spec.to_owned(), sha, rest(seen, 1))
            }
        },
    }
}

// The snapshot of a working tree

/// A failed or finished snapshot: the copied index is removed, then the result
/// is handed out.
pub open spec fn cleaned(
    temp: Seq<char>,
    seen: Seq<ReplyText>,
    result: Result<RevText, Seq<char>>,
) -> RevAsk {
    if seen.len() == 0 {
        RevAsk::RemoveIndex(temp)
    } else {
        RevAsk::Done(result)
    }
}

pub open spec fn add_args_text() -> Seq<Seq<char>> {
    seq!["add"@, "-A"@]
}

pub open spec fn tree_args_text() -> Seq<Seq<char>> {
    seq!["write-tree"@]
}

pub open spec fn head_args_text() -> Seq<Seq<char>> {
    seq!["rev-parse"@, "HEAD"@]
}

pub open spec fn commit_args_text(tree: Seq<char>, head: Seq<char>) -> Seq<Seq<char>> {
    seq![
        "-c"@,
        "user.name=cargo-bench-compare"@,
        "-c"@,
        "user.email=bcmp@invalid"@,
        "commit-tree"@,
        tree,
        "-p"@,
        head,
        "-m"@,
        "cargo-bench-compare: working tree snapshot"@,
    ]
}

pub open spec fn snap_name(temp: Seq<char>, sha: Seq<char>, seen: Seq<ReplyText>) -> RevAsk {
    if seen.len() == 0 {
        RevAsk::Git(short_args_text(sha), None)
    } else {
        match git_answer(short_args_text(sha), seen[0]) {
            Ok(short) => cleaned(
                temp,
                seen.skip(1),
                Ok(RevText { spec: "worktree"@, sha, short }),
            ),
            Err(e) => cleaned(temp, seen.skip(1), Err(e)),
        }
    }
}

pub open spec fn snap_commit(
    temp: Seq<char>,
    tree: Seq<char>,
    head: Seq<char>,
    seen: Seq<ReplyText>,
) -> RevAsk {
    if seen.len() == 0 {
        RevAsk::Git(commit_args_text(tree, head), None)
    } else {
        match git_answer(commit_args_text(tree, head), seen[0]) {
            Ok(sha) => snap_name(temp, sha, seen.skip(1)),
            Err(e) => cleaned(temp, seen.skip(1), Err(e)),
        }
    }
}

pub open spec fn snap_head(temp: Seq<char>, tree: Seq<char>, seen: Seq<ReplyText>) -> RevAsk {
    if seen.len() == 0 {
        RevAsk::Git(head_args_text(), None)
    } else {
        match git_answer(head_args_text(), seen[0]) {
            Ok(head) => snap_commit(temp, tree, head, seen.skip(1)),
            Err(e) => cleaned(temp, seen.skip(1), Err(e)),
        }
    }
}

pub open spec fn snap_tree(temp: Seq<char>, seen: Seq<ReplyText>) -> RevAsk {
    if seen.len() == 0 {
        RevAsk::Git(tree_args_text(), Some(temp))
    } else {
        match git_answer(tree_args_text(), seen[0]) {
            Ok(tree) => snap_head(temp, tree, seen.skip(1)),
            Err(e) => cleaned(temp, seen.skip(1), Err(e)),
        }
    }
}

/// Committing everything that is not ignored, on a copy of the index: what is
/// added, the tree of it, the parent, the commit, its name.
pub open spec fn snap_add(temp: Seq<char>, seen: Seq<ReplyText>) -> RevAsk {
    if seen.len() == 0 {
        RevAsk::Git(add_args_text(), Some(temp))
    } else {
        match git_answer(add_args_text(), seen[0]) {
            Ok(_) => snap_tree(temp, seen.skip(1)),
            Err(e) => cleaned(temp, seen.skip(1), Err(e)),
        }
    }
}

pub open spec fn copy_error_text(from: Seq<char>, to: Seq<char>, e: Seq<char>) -> Seq<char> {
    "failed to copy git index "@ + from + " to "@ + to + ": "@ + e
}

pub open spec fn index_args_text() -> Seq<Seq<char>> {
    seq!["rev-parse"@, "--git-path"@, "index"@]
}

/// A dirty tree: the index is found and copied, then everything is committed on
/// the copy.
pub open spec fn dirty_step(root: Seq<char>, temp: Seq<char>, seen: Seq<ReplyText>) -> RevAsk {
    if seen.len() == 0 {
        RevAsk::Git(index_args_text(), None)
    } else {
        match git_answer(index_args_text(), seen[0]) {
            Err(e) => RevAsk::Done(Err(e)),
            Ok(path) => if seen.len() == 1 {
                RevAsk::CopyIndex(joined(root, path), temp)
            } else {
                match seen[1] {
                    ReplyText::NotStarted(e) => RevAsk::Done(
                        Err(copy_error_text(joined(root, path), temp, e)),
                    ),
                    ReplyText::Exited { .. } => snap_add(temp, seen.skip(2)),
                }
            },
        }
    }
}

/// The snapshot of a working tree: `HEAD` where the tree is clean, else a commit
/// made for it.
pub open spec fn snapshot_step(root: Seq<char>, temp: Seq<char>, seen: Seq<ReplyText>) -> RevAsk {
    if seen.len() == 0 {
        RevAsk::Git(status_args_text(), None)
    } else {
        match dirtiness(seen[0]) {
            Err(e) => RevAsk::Done(Err(e)),
            Ok(dirty) => if dirty {
                dirty_step(root, temp, seen.skip(1))
            } else {
                rev_step(root, "HEAD"@, seen.skip(1))
            },
        }
    }
}

fn clean_up(temp: &str, seen: &[CommandReply], result: Result<ResolvedRev, String>) -> (r: RevStep)
    ensures
        r@ == cleaned(
            temp@,
            replies(seen@),
            match result {
                Ok(rev) => Ok(rev@),
                Err(e) => Err(e@),
            },
        ),
{
    if seen.len() == 0 {
        RevStep::RemoveIndex(temp.to_owned())
    } else {
        RevStep::Done(result)
    }
}

fn name_snapshot(temp: &str, sha: String, seen: &[CommandReply]) -> (r: RevStep)
    ensures
        r@ == snap_name(temp@, sha@, replies(seen@)),
{
    let args: Vec<String> = short_args(&sha);
    if seen.len() == 0 {
        return ask(args);
    }
    assert(replies(seen@)[0] == seen@[0]@);
    match answer(&args, &seen[0]) {
        Ok(short) => clean_up(
            temp,
            rest(seen, 1),
            Ok(ResolvedRev { spec: "worktree".to_owned(), sha, short }),
        ),
        Err(e) => clean_up(temp, rest(seen, 1), Err(e)),
    }
}

fn commit_snapshot(temp: &str, tree: &str, head: &str, seen: &[CommandReply]) -> (r: RevStep)
    ensures
        r@ == snap_commit(temp@, tree@, head@, replies(seen@)),
{
    let args: Vec<String> = arguments(
        &[
            "-c",
            "user.name=cargo-bench-compare",
            "-c",
            "user.email=bcmp@invalid",
            "commit-tree",
            tree,
            "-p",
            head,
            "-m",
            "cargo-bench-compare: working tree snapshot",
        ],
    );
    assert(texts(args@) =~= commit_args_text(tree@, head@));
    if seen.len() == 0 {
        return ask(args);
    }
    assert(replies(seen@)[0] == seen@[0]@);
    match answer(&args, &seen[0]) {
        Ok(sha) => name_snapshot(temp, sha, rest(seen, 1)),
        Err(e) => clean_up(temp, rest(seen, 1), Err(e)),
    }
}

fn parent_snapshot(temp: &str, tree: &str, seen: &[CommandReply]) -> (r: RevStep)
    ensures
        r@ == snap_head(temp@, tree@, replies(seen@)),
{
    let args: Vec<String> = arguments(&["rev-parse", "HEAD"]);
    assert(texts(args@) =~= head_args_text());
    if seen.len() == 0 {
        return ask(args);
    }
    assert(replies(seen@)[0] == seen@[0]@);
    match answer(&args, &seen[0]) {
        Ok(head) => commit_snapshot(temp, tree, &head, rest(seen, 1)),
        Err(e) => clean_up(temp, rest(seen, 1), Err(e)),
    }
}

fn write_snapshot(temp: &str, seen: &[CommandReply]) -> (r: RevStep)
    ensures
        r@ == snap_tree(temp@, replies(seen@)),
{
    let args: Vec<String> = arguments(&["write-tree"]);
    assert(texts(args@) =~= tree_args_text());
    if seen.len() == 0 {
        return RevStep::Git { args, index: Some(temp.to_owned()) };
    }
    assert(replies(seen@)[0] == seen@[0]@);
    match answer(&args, &seen[0]) {
        Ok(tree) => parent_snapshot(temp, &tree, rest(seen, 1)),
        Err(e) => clean_up(temp, rest(seen, 1), Err(e)),
    }
}

fn add_snapshot(temp: &str, seen: &[CommandReply]) -> (r: RevStep)
    ensures
        r@ == snap_add(temp@, replies(seen@)),
{
    let args: Vec<String> = arguments(&["add", "-A"]);
    assert(texts(args@) =~= add_args_text());
    if seen.len() == 0 {
        return RevStep::Git { args, index: Some(temp.to_owned()) };
    }
    assert(replies(seen@)[0] == seen@[0]@);
    match answer(&args, &seen[0]) {
        Ok(_) => write_snapshot(temp, rest(seen, 1)),
        Err(e) => clean_up(temp, rest(seen, 1), Err(e)),
    }
}

fn dirty_snapshot(repo_root: &str, temp: &str, seen: &[CommandReply]) -> (r: RevStep)
    ensures
        r@ == dirty_step(repo_root@, temp@, replies(seen@)),
{
    let args: Vec<String> = arguments(&["rev-parse", "--git-path", "index"]);
    assert(texts(args@) =~= index_args_text());
    if seen.len() == 0 {
        return ask(args);
    }
    assert(replies(seen@)[0] == seen@[0]@);
    match answer(&args, &seen[0]) {
        Err(e) => fail(e),
        Ok(path) => {
            let from: String = crate::paths::join(repo_root, &path);
            if seen.len() == 1 {
                return RevStep::CopyIndex { from, to: temp.to_owned() };
            }
            assert(replies(seen@)[1] == seen@[1]@);
            match &seen[1] {
                CommandReply::NotStarted(e) => {
                    let mut text: String = cat5(
                        "failed to copy git index ",
                        &from,
                        " to ",
                        temp,
                        ": ",
                    );
                    text.append(e);
                    fail(text)
                },
                CommandReply::Exited { .. } => add_snapshot(temp, rest(seen, 2)),
            }
        },
    }
}

/// What follows on the replies seen so far, on the way to a snapshot of the
/// working tree. `temp` is where the index is copied to.
pub fn snapshot_worktree(repo_root: &str, temp: &str, seen: &[CommandReply]) -> (r: RevStep)
    ensures
        r@ == snapshot_step(repo_root@, temp@, replies(seen@)),
{
    if seen.len() == 0 {
        return ask(status_args());
    }
    assert(replies(seen@)[0] == seen@[0]@);
    match is_dirty(&seen[0]) {
        Err(e) => fail(e),
        Ok(dirty) => {
            if dirty {
                dirty_snapshot(repo_root, temp, rest(seen, 1))
            } else {
                resolve_rev(repo_root, "HEAD", rest(seen, 1))
            }
        },
    }
}

/// Whether git is asked for something that only reads, or works on the copied
/// index: adding and writing the tree name it.
pub open spec fn spares_index(ask: RevAsk, temp: Seq<char>) -> bool {
    match ask {
        RevAsk::Git(args, index) => (args == add_args_text() || args == tree_args_text()) ==> index
            == Some(temp),
        RevAsk::CopyIndex(from, to) => to == temp,
        RevAsk::RemoveIndex(path) => path == temp,
        RevAsk::Done(_) => true,
    }
}

proof fn lemma_other_args(sha: Seq<char>, tree: Seq<char>, head: Seq<char>, spec: Seq<char>)
    ensures
        short_args_text(sha).len() == 3,
        head_args_text()[0] != add_args_text()[0],
        status_args_text()[0] != add_args_text()[0],
        commit_args_text(tree, head).len() == 10,
        verify_args_text(spec).len() == 4,
{
    reveal_strlit("add");
    reveal_strlit("rev-parse");
    reveal_strlit("status");
    assert("rev-parse"@.len() == 9);
    assert("status"@.len() == 6);
    assert("add"@.len() == 3);
}

/// Taking a snapshot leaves the index of the repository alone: whatever was
/// replied, adding and writing the tree are done on the copy, and only the copy
/// is written or removed.
pub proof fn law_snapshot_spares_index(root: Seq<char>, temp: Seq<char>, seen: Seq<ReplyText>)
    ensures
        spares_index(snapshot_step(root, temp, seen), temp),
{
    assert forall|sha: Seq<char>, tree: Seq<char>, head: Seq<char>, spec: Seq<char>|
        short_args_text(sha).len() == 3 && (#[trigger] commit_args_text(tree, head)).len() == 10
            && (#[trigger] verify_args_text(spec)).len() == 4
            && #[trigger] short_args_text(sha) != add_args_text() by {
        lemma_other_args(sha, tree, head, spec);
    }
    lemma_other_args(temp, temp, temp, temp);
}

/// Whether a list of arguments is one that a snapshot runs git with: it asks for
/// the state, or adds, writes a tree and commits it without moving any ref.
pub open spec fn is_snapshot_command(args: Seq<Seq<char>>) -> bool {
    ||| args == status_args_text()
    ||| args == index_args_text()
    ||| args == head_args_text()
    ||| args == add_args_text()
    ||| args == tree_args_text()
    ||| args == verify_args_text("HEAD"@)
    ||| exists|sha: Seq<char>| args == #[trigger] short_args_text(sha)
    ||| exists|tree: Seq<char>, head: Seq<char>| args == #[trigger] commit_args_text(tree, head)
}

/// Taking a snapshot runs no other git command than these: no ref, stash or file
/// of the working tree is touched.
pub proof fn law_snapshot_commands(root: Seq<char>, temp: Seq<char>, seen: Seq<ReplyText>)
    ensures
        snapshot_step(root, temp, seen) matches RevAsk::Git(args, _) ==> is_snapshot_command(args),
{
}

/// Whether a snapshot got as far as copying the index.
pub open spec fn index_copied(seen: Seq<ReplyText>) -> bool {
    &&& seen.len() >= 3
    &&& dirtiness(seen[0]) == Ok::<bool, Seq<char>>(true)
    &&& git_answer(index_args_text(), seen[1]) is Ok
    &&& seen[2] is Exited
}

proof fn lemma_take_skip(seen: Seq<ReplyText>, k: int)
    requires
        0 < k <= seen.len(),
    ensures
        seen.take(k).skip(1) == seen.skip(1).take(k - 1),
        seen.take(k)[0] == seen[0],
{
    assert(seen.take(k).skip(1) =~= seen.skip(1).take(k - 1));
}

proof fn lemma_snap_name_cleans(temp: Seq<char>, sha: Seq<char>, seen: Seq<ReplyText>) -> (k: int)
    requires
        snap_name(temp, sha, seen) is Done,
    ensures
        0 <= k < seen.len(),
        snap_name(temp, sha, seen.take(k)) == RevAsk::RemoveIndex(temp),
{
    lemma_take_skip(seen, 1);
    assert(seen.skip(1).take(0) =~= Seq::empty());
    1
}

proof fn lemma_snap_commit_cleans(
    temp: Seq<char>,
    tree: Seq<char>,
    head: Seq<char>,
    seen: Seq<ReplyText>,
) -> (k: int)
    requires
        snap_commit(temp, tree, head, seen) is Done,
    ensures
        0 <= k < seen.len(),
        snap_commit(temp, tree, head, seen.take(k)) == RevAsk::RemoveIndex(temp),
{
    match git_answer(commit_args_text(tree, head), seen[0]) {
        Ok(sha) => {
            let j = lemma_snap_name_cleans(temp, sha, seen.skip(1));
            lemma_take_skip(seen, j + 1);
            j + 1
        },
        Err(_) => {
            lemma_take_skip(seen, 1);
            assert(seen.skip(1).take(0) =~= Seq::empty());
            1
        },
    }
}

proof fn lemma_snap_head_cleans(temp: Seq<char>, tree: Seq<char>, seen: Seq<ReplyText>) -> (k: int)
    requires
        snap_head(temp, tree, seen) is Done,
    ensures
        0 <= k < seen.len(),
        snap_head(temp, tree, seen.take(k)) == RevAsk::RemoveIndex(temp),
{
    match git_answer(head_args_text(), seen[0]) {
        Ok(head) => {
            let j = lemma_snap_commit_cleans(temp, tree, head, seen.skip(1));
            lemma_take_skip(seen, j + 1);
            j + 1
        },
        Err(_) => {
            lemma_take_skip(seen, 1);
            assert(seen.skip(1).take(0) =~= Seq::empty());
            1
        },
    }
}

proof fn lemma_snap_tree_cleans(temp: Seq<char>, seen: Seq<ReplyText>) -> (k: int)
    requires
        snap_tree(temp, seen) is Done,
    ensures
        0 <= k < seen.len(),
        snap_tree(temp, seen.take(k)) == RevAsk::RemoveIndex(temp),
{
    match git_answer(tree_args_text(), seen[0]) {
        Ok(tree) => {
            let j = lemma_snap_head_cleans(temp, tree, seen.skip(1));
            lemma_take_skip(seen, j + 1);
            j + 1
        },
        Err(_) => {
            lemma_take_skip(seen, 1);
            assert(seen.skip(1).take(0) =~= Seq::empty());
            1
        },
    }
}

proof fn lemma_snap_add_cleans(temp: Seq<char>, seen: Seq<ReplyText>) -> (k: int)
    requires
        snap_add(temp, seen) is Done,
    ensures
        0 <= k < seen.len(),
        snap_add(temp, seen.take(k)) == RevAsk::RemoveIndex(temp),
{
    match git_answer(add_args_text(), seen[0]) {
        Ok(_) => {
            let j = lemma_snap_tree_cleans(temp, seen.skip(1));
            lemma_take_skip(seen, j + 1);
            j + 1
        },
        Err(_) => {
            lemma_take_skip(seen, 1);
            assert(seen.skip(1).take(0) =~= Seq::empty());
            1
        },
    }
}

/// Once the index has been copied, a snapshot ends, well or badly, only after
/// the copy was to be removed.
pub proof fn law_snapshot_removes_copy(
    root: Seq<char>,
    temp: Seq<char>,
    seen: Seq<ReplyText>,
) -> (k: int)
    requires
        index_copied(seen),
        snapshot_step(root, temp, seen) is Done,
    ensures
        3 <= k < seen.len(),
        snapshot_step(root, temp, seen.take(k)) == RevAsk::RemoveIndex(temp),
{
    let inner = seen.skip(1);
    assert(inner[0] == seen[1] && inner[1] == seen[2]);
    assert(inner.skip(2) =~= seen.skip(3));
    let j = lemma_snap_add_cleans(temp, seen.skip(3));
    let k = j + 3;
    let front = seen.take(k);
    assert(front[0] == seen[0]);
    assert(front.skip(1)[0] == seen[1]);
    assert(front.skip(1)[1] == seen[2]);
    assert(front.skip(1).skip(2) =~= seen.skip(3).take(j));
    k
}

// The default branch and the merge base

/// The next thing to do on the way to the default branch.
pub enum BaseStep {
    /// Run git in the repository.
    Git(Vec<String>),
    /// The branch, or why there is none; `used` replies were needed.
    Settled { answer: Result<String, String>, used: usize },
}

/// What a `BaseStep` asks for.
pub ghost enum BaseAsk {
    Git(Seq<Seq<char>>),
    Settled(Result<Seq<char>, Seq<char>>, nat),
}

impl View for BaseStep {
    type V = BaseAsk;

    open spec fn view(&self) -> BaseAsk {
        match *self {
            BaseStep::Git(args) => BaseAsk::Git(texts(args@)),
            BaseStep::Settled { answer, used } => BaseAsk::Settled(
                result_text(answer),
                used as nat,
            ),
        }
    }
}

pub open spec fn symbolic_args_text() -> Seq<Seq<char>> {
    seq!["symbolic-ref"@, "--quiet"@, "refs/remotes/origin/HEAD"@]
}

pub open spec fn branch_args_text(name: Seq<char>) -> Seq<Seq<char>> {
    seq!["show-ref"@, "--verify"@, "--quiet"@, "refs/heads/"@ + name]
}

fn branch_args(name: &str) -> (r: Vec<String>)
    ensures
        texts(r@) == branch_args_text(name@),
{
    let full: String = cat2("refs/heads/", name);
    let r: Vec<String> = arguments(&["show-ref", "--verify", "--quiet", &full]);
    assert(texts(r@) =~= branch_args_text(name@));
    r
}

/// Whether a local branch exists, out of the reply to `branch_args_text`.
pub open spec fn branch_answer(reply: ReplyText) -> Result<bool, Seq<char>> {
    match reply {
        ReplyText::NotStarted(e) => Err("failed to run git show-ref: "@ + e),
        ReplyText::Exited { ok, .. } => Ok(ok),
    }
}

pub fn local_branch_exists(reply: &CommandReply) -> (r: Result<bool, String>)
    ensures
        match r {
            Ok(found) => branch_answer(reply@) == Ok::<bool, Seq<char>>(found),
            Err(e) => branch_answer(reply@) == Err::<bool, Seq<char>>(e@),
        },
{
    match reply {
        CommandReply::NotStarted(e) => Err(cat2("failed to run git show-ref: ", e)),
        CommandReply::Exited { ok, .. } => Ok(*ok),
    }
}

/// The branch that the remote's HEAD points at, if git named one.
pub open spec fn remote_head(reply: ReplyText) -> Option<Seq<char>> {
    match git_answer(symbolic_args_text(), reply) {
        Ok(sym) => behind(sym, "refs/remotes/origin/"@),
        Err(_) => None,
    }
}

pub open spec fn no_base_text() -> Seq<char> {
    "could not determine a default base revision (no origin/HEAD, no local 'main' or 'master'); pass --rev-base <REV>"@
}

/// Without a remote's HEAD: a local `main`, then a local `master`.
pub open spec fn fallback_step(seen: Seq<ReplyText>, used: nat) -> BaseAsk {
    if seen.len() == 0 {
        BaseAsk::Git(branch_args_text("main"@))
    } else {
        match branch_answer(seen[0]) {
            Err(e) => BaseAsk::Settled(Err(e), used + 1),
            Ok(main) => if main {
                BaseAsk::Settled(Ok("main"@), used + 1)
            } else if seen.len() == 1 {
                BaseAsk::Git(branch_args_text("master"@))
            } else {
                match branch_answer(seen[1]) {
                    Err(e) => BaseAsk::Settled(Err(e), used + 2),
                    Ok(master) => if master {
                        BaseAsk::Settled(Ok("master"@), used + 2)
                    } else {
                        BaseAsk::Settled(Err(no_base_text()), used + 2)
                    },
                }
            },
        }
    }
}

/// The branch that the remote's HEAD points at, by its local name where there is
/// a local branch of that name, else by its remote one; without it, a local
/// `main`, then `master`.
pub open spec fn base_step(seen: Seq<ReplyText>) -> BaseAsk {
    if seen.len() == 0 {
        BaseAsk::Git(symbolic_args_text())
    } else {
        match remote_head(seen[0]) {
            Some(name) => if seen.len() == 1 {
                BaseAsk::Git(branch_args_text(name))
            } else {
                match branch_answer(seen[1]) {
                    Err(e) => BaseAsk::Settled(Err(e), 2),
                    Ok(local) => if local {
                        BaseAsk::Settled(Ok(name), 2)
                    } else {
                        BaseAsk::Settled(Ok("origin/"@ + name), 2)
                    },
                }
            },
            None => fallback_step(seen.skip(1), 1),
        }
    }
}

fn fallback(seen: &[CommandReply]) -> (r: BaseStep)
    ensures
        r@ == fallback_step(replies(seen@), 1),
{
    if seen.len() == 0 {
        return BaseStep::Git(branch_args("main"));
    }
    assert(replies(seen@)[0] == seen@[0]@);
    match local_branch_exists(&seen[0]) {
        Err(e) => BaseStep::Settled { answer: Err(e), used: 2 },
        Ok(main) => {
            if main {
                return BaseStep::Settled { answer: Ok("main".to_owned()), used: 2 };
            }
            if seen.len() == 1 {
                return BaseStep::Git(branch_args("master"));
            }
            assert(replies(seen@)[1] == seen@[1]@);
            match local_branch_exists(&seen[1]) {
                Err(e) => BaseStep::Settled { answer: Err(e), used: 3 },
                Ok(master) => {
                    if master {
                        BaseStep::Settled { answer: Ok("master".to_owned()), used: 3 }
                    } else {
                        let text: String =
                            "could not determine a default base revision (no origin/HEAD, no local 'main' or 'master'); pass --rev-base <REV>".to_owned();
                        BaseStep::Settled { answer: Err(text), used: 3 }
                    }
                },
            }
        },
    }
}

/// What follows on the replies seen so far, on the way to the default branch.
pub fn default_base(seen: &[CommandReply]) -> (r: BaseStep)
    ensures
        r@ == base_step(replies(seen@)),
        r matches BaseStep::Settled { used, .. } ==> used <= seen@.len(),
{
    let args: Vec<String> = arguments(&["symbolic-ref", "--quiet", "refs/remotes/origin/HEAD"]);
    assert(texts(args@) =~= symbolic_args_text());
    if seen.len() == 0 {
        return BaseStep::Git(args);
    }
    assert(replies(seen@)[0] == seen@[0]@);
    if let Ok(sym) = answer(&args, &seen[0]) {
        let chars: Vec<char> = chars_of(&sym);
        if let Some(part) = strip_prefix(&chars, "refs/remotes/origin/") {
            let name: String = string_of(part);
            if seen.len() == 1 {
                return BaseStep::Git(branch_args(&name));
            }
            assert(replies(seen@)[1] == seen@[1]@);
            return match local_branch_exists(&seen[1]) {
                Err(e) => BaseStep::Settled { answer: Err(e), used: 2 },
                Ok(local) => {
                    if local {
                        BaseStep::Settled { answer: Ok(name), used: 2 }
                    } else {
                        BaseStep::Settled { answer: Ok(cat2("origin/", &name)), used: 2 }
                    }
                },
            };
        }
    }
    fallback(rest(seen, 1))
}

/// Three replies settle the default branch.
pub proof fn law_default_base_settles(seen: Seq<ReplyText>)
    requires
        seen.len() >= 3,
    ensures
        base_step(seen) is Settled,
{
}

pub open spec fn merge_args_text(branch: Seq<char>) -> Seq<Seq<char>> {
    seq!["merge-base"@, "HEAD"@, branch]
}

pub open spec fn no_merge_base_text(branch: Seq<char>) -> Seq<char> {
    "no merge base between HEAD and '"@ + branch
        + "' (unrelated histories or shallow clone?); pass --rev-base <REV>"@
}

/// The merge base of `HEAD` and a branch.
pub open spec fn merge_step(branch: Seq<char>, seen: Seq<ReplyText>) -> RevAsk {
    if seen.len() == 0 {
        RevAsk::Git(merge_args_text(branch), None)
    } else {
        match git_answer(merge_args_text(branch), seen[0]) {
            Err(_) => RevAsk::Done(Err(no_merge_base_text(branch))),
            Ok(sha) => short_step("merge-base("@ + branch + ")"@, sha, seen.skip(1)),
        }
    }
}

/// The merge base of `HEAD` and the default branch.
pub open spec fn merge_base_step(seen: Seq<ReplyText>) -> RevAsk {
    match base_step(seen) {
        BaseAsk::Git(args) => RevAsk::Git(args, None),
        BaseAsk::Settled(Err(e), _) => RevAsk::Done(Err(e)),
        BaseAsk::Settled(Ok(branch), used) => merge_step(branch, seen.skip(used as int)),
    }
}

fn merge_base(branch: &str, seen: &[CommandReply]) -> (r: RevStep)
    ensures
        r@ == merge_step(branch@, replies(seen@)),
{
    let args: Vec<String> = arguments(&["merge-base", "HEAD", branch]);
    assert(texts(args@) =~= merge_args_text(branch@));
    if seen.len() == 0 {
        return ask(args);
    }
    assert(replies(seen@)[0] == seen@[0]@);
    match answer(&args, &seen[0]) {
        Err(_) => fail(
            cat3(
                "no merge base between HEAD and '",
                branch,
                "' (unrelated histories or shallow clone?); pass --rev-base <REV>",
            ),
        ),
        Ok(sha) => name_commit(cat3("merge-base(", branch, ")"), sha, rest(seen, 1)),
    }
}

/// What follows on the replies seen so far, on the way to the merge base of
/// `HEAD` and the default branch.
pub fn merge_base_with_default_branch(seen: &[CommandReply]) -> (r: RevStep)
    ensures
        r@ == merge_base_step(replies(seen@)),
{
    match default_base(seen) {
        BaseStep::Git(args) => ask(args),
        BaseStep::Settled { answer, used } => match answer {
            Err(e) => fail(e),
            Ok(branch) => merge_base(&branch, rest(seen, used)),
        },
    }
}

/// Resolving a revision: `:worktree` is a snapshot of the working tree,
/// `:merge-base` the merge base of `HEAD` and the default branch, and everything
/// else is left to git.
pub open spec fn spec_step(
    root: Seq<char>,
    spec: Seq<char>,
    temp: Seq<char>,
    seen: Seq<ReplyText>,
) -> RevAsk {
    if spec == ":worktree"@ {
        snapshot_step(root, temp, seen)
    } else if spec == ":merge-base"@ {
        merge_base_step(seen)
    } else {
        rev_step(root, spec, seen)
    }
}

/// What follows on the replies seen so far, on the way to the revision `spec`.
pub fn resolve_spec(repo_root: &str, spec: &str, temp: &str, seen: &[CommandReply]) -> (r: RevStep)
    ensures
        r@ == spec_step(repo_root@, spec@, temp@, replies(seen@)),
{
    if same_text(spec, ":worktree") {
        snapshot_worktree(repo_root, temp, seen)
    } else if same_text(spec, ":merge-base") {
        merge_base_with_default_branch(seen)
    } else {
        resolve_rev(repo_root, spec, seen)
    }
}

/// Nine replies settle every revision.
pub proof fn law_resolve_settles(
    root: Seq<char>,
    spec: Seq<char>,
    temp: Seq<char>,
    seen: Seq<ReplyText>,
)
    requires
        seen.len() >= 9,
    ensures
        spec_step(root, spec, temp, seen) is Done,
{
}

/// A revision that came of a snapshot is labelled `worktree` or, where the tree
/// was clean, `HEAD`.
pub proof fn law_snapshot_label(root: Seq<char>, temp: Seq<char>, seen: Seq<ReplyText>)
    requires
        snapshot_step(root, temp, seen) matches RevAsk::Done(Ok(_)),
    ensures
        snapshot_step(root, temp, seen) matches RevAsk::Done(Ok(rev)) && rev.spec == (if dirtiness(
            seen[0],
        ) == Ok::<bool, Seq<char>>(true) {
            "worktree"@
        } else {
            "HEAD"@
        }),
{
}

/// Git ran and succeeded.
pub open spec fn succeeded(reply: ReplyText) -> bool {
    reply matches ReplyText::Exited { ok, .. } && ok
}

/// What git printed, without white space at its ends.
pub open spec fn said(reply: ReplyText) -> Seq<char> {
    match reply {
        ReplyText::Exited { stdout, .. } => trim_text(utf8_lossy(stdout)),
        ReplyText::NotStarted(_) => seq![],
    }
}

/// Git printed something but white space.
pub open spec fn printed_anything(reply: ReplyText) -> bool {
    reply matches ReplyText::Exited { stdout, .. } && exists|i: int|
        0 <= i < utf8_lossy(stdout).len() && !is_white_space(#[trigger] utf8_lossy(stdout)[i])
}

/// A working tree with any change is benchmarked as it is: git is asked for the
/// changes, the index is copied, everything that is not ignored is added on the
/// copy, the tree of the copy is committed on top of `HEAD`, and the commit, under
/// its short name, is the revision, labelled `worktree`. The copy is removed last.
pub proof fn law_changed_tree_is_committed(
    root: Seq<char>,
    temp: Seq<char>,
    seen: Seq<ReplyText>,
)
    requires
        seen.len() == 9,
        forall|i: int| 0 <= i < 9 ==> succeeded(#[trigger] seen[i]),
        printed_anything(seen[0]),
    ensures
        ({
            let ask = |n: int| spec_step(root, ":worktree"@, temp, seen.take(n));
            &&& ask(0) == RevAsk::Git(seq!["status"@, "--porcelain"@], None)
            &&& ask(1) == RevAsk::Git(seq!["rev-parse"@, "--git-path"@, "index"@], None)
            &&& ask(2) == RevAsk::CopyIndex(joined(root, said(seen[1])), temp)
            &&& ask(3) == RevAsk::Git(seq!["add"@, "-A"@], Some(temp))
            &&& ask(4) == RevAsk::Git(seq!["write-tree"@], Some(temp))
            &&& ask(5) == RevAsk::Git(seq!["rev-parse"@, "HEAD"@], None)
            &&& ask(6) == RevAsk::Git(
                seq![
                    "-c"@,
                    "user.name=cargo-bench-compare"@,
                    "-c"@,
                    "user.email=bcmp@invalid"@,
                    "commit-tree"@,
                    said(seen[4]),
                    "-p"@,
                    said(seen[5]),
                    "-m"@,
                    "cargo-bench-compare: working tree snapshot"@,
                ],
                None,
            )
            &&& ask(7) == RevAsk::Git(seq!["rev-parse"@, "--short"@, said(seen[6])], None)
            &&& ask(8) == RevAsk::RemoveIndex(temp)
            &&& ask(9) == RevAsk::Done(
                Ok(RevText { spec: "worktree"@, sha: said(seen[6]), short: said(seen[7]) }),
            )
        }),
{
    law_anything_printed_is_a_change(seen[0]);
    assert(succeeded(seen[0]) && succeeded(seen[1]) && succeeded(seen[2]) && succeeded(seen[3])
        && succeeded(seen[4]) && succeeded(seen[5]) && succeeded(seen[6]) && succeeded(seen[7])
        && succeeded(seen[8]));
    lemma_commit_run(temp, seen);
    assert(spec_step(root, ":worktree"@, temp, seen.take(0)) == RevAsk::Git(
        status_args_text(),
        None,
    ));
    assert(spec_step(root, ":worktree"@, temp, seen.take(1)) == RevAsk::Git(
        index_args_text(),
        None,
    ));
    assert(seen.take(2).skip(1)[0] == seen[1]);
    assert forall|n: int| 3 <= n <= 9 implies #[trigger] spec_step(
        root,
        ":worktree"@,
        temp,
        seen.take(n),
    ) == snap_add(temp, seen.subrange(3, n)) by {
        let s = seen.take(n);
        assert(s[0] == seen[0]);
        assert(s.skip(1)[0] == seen[1]);
        assert(s.skip(1)[1] == seen[2]);
        assert(s.skip(1).skip(2) =~= seen.subrange(3, n));
    }
    assert(seen.take(9) =~= seen);
}

proof fn lemma_commit_run(temp: Seq<char>, seen: Seq<ReplyText>)
    requires
        seen.len() == 9,
        forall|i: int| 3 <= i < 9 ==> succeeded(#[trigger] seen[i]),
    ensures
        snap_add(temp, seen.subrange(3, 3)) == RevAsk::Git(add_args_text(), Some(temp)),
        snap_add(temp, seen.subrange(3, 4)) == RevAsk::Git(tree_args_text(), Some(temp)),
        snap_add(temp, seen.subrange(3, 5)) == RevAsk::Git(head_args_text(), None),
        snap_add(temp, seen.subrange(3, 6)) == RevAsk::Git(
            commit_args_text(said(seen[4]), said(seen[5])),
            None,
        ),
        snap_add(temp, seen.subrange(3, 7)) == RevAsk::Git(short_args_text(said(seen[6])), None),
        snap_add(temp, seen.subrange(3, 8)) == RevAsk::RemoveIndex(temp),
        snap_add(temp, seen.subrange(3, 9)) == RevAsk::Done(
            Ok(RevText { spec: "worktree"@, sha: said(seen[6]), short: said(seen[7]) }),
        ),
{
    assert(succeeded(seen[3]) && succeeded(seen[4]) && succeeded(seen[5]) && succeeded(seen[6])
        && succeeded(seen[7]) && succeeded(seen[8]));
    assert forall|n: int| 4 <= n <= 9 implies #[trigger] seen.subrange(3, n).skip(1)
        =~= seen.subrange(4, n) by {}
    assert forall|n: int| 5 <= n <= 9 implies #[trigger] seen.subrange(4, n).skip(1)
        =~= seen.subrange(5, n) by {}
    assert forall|n: int| 6 <= n <= 9 implies #[trigger] seen.subrange(5, n).skip(1)
        =~= seen.subrange(6, n) by {}
    assert forall|n: int| 7 <= n <= 9 implies #[trigger] seen.subrange(6, n).skip(1)
        =~= seen.subrange(7, n) by {}
    assert forall|n: int| 8 <= n <= 9 implies #[trigger] seen.subrange(7, n).skip(1)
        =~= seen.subrange(8, n) by {}
    let s9 = seen.subrange(3, 9);
    assert(s9.skip(1) =~= seen.subrange(4, 9));
    let s8 = seen.subrange(3, 8);
    assert(s8.skip(1) =~= seen.subrange(4, 8));
    assert(seen.subrange(8, 8) =~= Seq::empty());
}

/// A revision of a working tree with any change is never `HEAD`: whatever else was
/// replied, it is the commit that git made, labelled `worktree`.
pub proof fn law_changes_are_not_left_out(
    root: Seq<char>,
    temp: Seq<char>,
    seen: Seq<ReplyText>,
    rev: RevText,
)
    requires
        seen.len() > 0,
        succeeded(seen[0]),
        spec_step(root, ":worktree"@, temp, seen) == RevAsk::Done(Ok::<RevText, Seq<char>>(rev)),
    ensures
        printed_anything(seen[0]) ==> rev.spec == "worktree"@ && seen.len() >= 9 && rev.sha
            == said(seen[6]) && rev.short == said(seen[7]),
        !printed_anything(seen[0]) ==> rev.spec == "HEAD"@ && seen.len() >= 3 && rev.sha == said(
            seen[1],
        ) && rev.short == said(seen[2]),
{
    law_anything_printed_is_a_change(seen[0]);
    let a = seen.skip(1);
    if printed_anything(seen[0]) {
        assert(a.skip(2) =~= seen.skip(3));
        let b = seen.skip(3);
        let c = b.skip(1);
        let d = c.skip(1);
        let e = d.skip(1);
        let f = e.skip(1);
        let g = f.skip(1);
        assert(e[0] == seen[6]);
        assert(f[0] == seen[7]);
    } else {
        assert(a[0] == seen[1]);
        assert(a.skip(1)[0] == seen[2]);
    }
}

/// A clean working tree is `HEAD`, resolved by git.
pub proof fn law_clean_tree_is_head(root: Seq<char>, temp: Seq<char>, seen: Seq<ReplyText>)
    requires
        seen.len() > 0,
        succeeded(seen[0]),
        !printed_anything(seen[0]),
    ensures
        spec_step(root, ":worktree"@, temp, seen) == spec_step(
            root,
            "HEAD"@,
            temp,
            seen.skip(1),
        ),
{
    law_anything_printed_is_a_change(seen[0]);
    reveal_strlit("HEAD");
    reveal_strlit(":worktree");
    reveal_strlit(":merge-base");
    assert("HEAD"@.len() == 4 && ":worktree"@.len() == 9 && ":merge-base"@.len() == 11);
}

/// A revision that is no word of this program's own is resolved by git: its commit
/// first, then the commit's short name; it keeps the label that it was asked for
/// by. It is an error if git knows no such commit.
pub proof fn law_git_resolves_the_rest(
    root: Seq<char>,
    spec: Seq<char>,
    temp: Seq<char>,
    seen: Seq<ReplyText>,
)
    requires
        spec != ":worktree"@,
        spec != ":merge-base"@,
    ensures
        spec_step(root, spec, temp, seq![]) == RevAsk::Git(
            seq!["rev-parse"@, "--verify"@, "--quiet"@, spec + "^{commit}"@],
            None,
        ),
        seen.len() == 1 && succeeded(seen[0]) ==> spec_step(root, spec, temp, seen) == RevAsk::Git(
            seq!["rev-parse"@, "--short"@, said(seen[0])],
            None,
        ),
        seen.len() == 2 && succeeded(seen[0]) && succeeded(seen[1]) ==> spec_step(
            root,
            spec,
            temp,
            seen,
        ) == RevAsk::Done(Ok(RevText { spec, sha: said(seen[0]), short: said(seen[1]) })),
        seen.len() > 0 && !succeeded(seen[0]) ==> spec_step(root, spec, temp, seen) matches RevAsk::Done(
            Err(_),
        ),
        seen.len() > 1 && succeeded(seen[0]) && !succeeded(seen[1]) ==> spec_step(
            root,
            spec,
            temp,
            seen,
        ) matches RevAsk::Done(Err(_)),
{
    if seen.len() > 1 {
        assert(seen.skip(1)[0] == seen[1]);
    }
}

/// The default branch is the one that the remote's `HEAD` names: the local branch
/// of that name where there is one, else the remote's.
pub proof fn law_default_branch_is_the_remotes(name: Seq<char>, seen: Seq<ReplyText>)
    requires
        seen.len() >= 1,
        succeeded(seen[0]),
        said(seen[0]) == "refs/remotes/origin/"@ + name,
    ensures
        base_step(seq![]) == BaseAsk::Git(
            seq!["symbolic-ref"@, "--quiet"@, "refs/remotes/origin/HEAD"@],
        ),
        base_step(seen.take(1)) == BaseAsk::Git(
            seq!["show-ref"@, "--verify"@, "--quiet"@, "refs/heads/"@ + name],
        ),
        seen.len() >= 2 && seen[1] is Exited ==> base_step(seen) == BaseAsk::Settled(
            Ok(
                if succeeded(seen[1]) {
                    name
                } else {
                    "origin/"@ + name
                },
            ),
            2,
        ),
{
    let p = "refs/remotes/origin/"@;
    assert((p + name).take(p.len() as int) =~= p);
    assert((p + name).skip(p.len() as int) =~= name);
    assert(seen.take(1)[0] == seen[0]);
}

/// Without a remote's `HEAD` the default branch is a local `main`, else a local
/// `master`, and it is an error if there is neither.
pub proof fn law_default_branch_without_a_remote(seen: Seq<ReplyText>)
    requires
        seen.len() >= 3,
        !succeeded(seen[0]),
        seen[1] is Exited,
        seen[2] is Exited,
    ensures
        base_step(seen.take(1)) == BaseAsk::Git(
            seq!["show-ref"@, "--verify"@, "--quiet"@, "refs/heads/"@ + "main"@],
        ),
        succeeded(seen[1]) ==> base_step(seen) == BaseAsk::Settled(Ok("main"@), 2),
        !succeeded(seen[1]) ==> base_step(seen.take(2)) == BaseAsk::Git(
            seq!["show-ref"@, "--verify"@, "--quiet"@, "refs/heads/"@ + "master"@],
        ),
        !succeeded(seen[1]) && succeeded(seen[2]) ==> base_step(seen) == BaseAsk::Settled(
            Ok("master"@),
            3,
        ),
        !succeeded(seen[1]) && !succeeded(seen[2]) ==> base_step(seen) matches BaseAsk::Settled(
            Err(_),
            _,
        ),
{
    assert(seen.take(1)[0] == seen[0]);
    assert(seen.take(2)[0] == seen[0]);
    assert(seen.take(2).skip(1)[0] == seen[1]);
    assert(seen.skip(1)[0] == seen[1]);
    assert(seen.skip(1)[1] == seen[2]);
}

/// Once the default branch is known, `:merge-base` is the merge base of `HEAD` and
/// that branch, labelled with the branch; it is an error if there is none.
pub proof fn law_merge_base_is_with_the_default_branch(
    root: Seq<char>,
    temp: Seq<char>,
    before: Seq<ReplyText>,
    branch: Seq<char>,
    after: Seq<ReplyText>,
)
    requires
        base_step(before) == BaseAsk::Settled(Ok(branch), before.len()),
        base_step(before + after) == base_step(before),
    ensures
        after.len() == 0 ==> spec_step(root, ":merge-base"@, temp, before + after) == RevAsk::Git(
            seq!["merge-base"@, "HEAD"@, branch],
            None,
        ),
        after.len() == 1 && succeeded(after[0]) ==> spec_step(
            root,
            ":merge-base"@,
            temp,
            before + after,
        ) == RevAsk::Git(seq!["rev-parse"@, "--short"@, said(after[0])], None),
        after.len() == 2 && succeeded(after[0]) && succeeded(after[1]) ==> spec_step(
            root,
            ":merge-base"@,
            temp,
            before + after,
        ) == RevAsk::Done(
            Ok(
                RevText {
                    spec: "merge-base("@ + branch + ")"@,
                    sha: said(after[0]),
                    short: said(after[1]),
                },
            ),
        ),
        after.len() > 0 && !succeeded(after[0]) ==> spec_step(
            root,
            ":merge-base"@,
            temp,
            before + after,
        ) matches RevAsk::Done(Err(_)),
{
    reveal_strlit(":worktree");
    reveal_strlit(":merge-base");
    assert(":worktree"@.len() == 9 && ":merge-base"@.len() == 11);
    assert((before + after).skip(before.len() as int) =~= after);
}

// ---------------------------------------------------------------------------
// Worktrees
// ---------------------------------------------------------------------------

/// A worktree made for one revision, and whether it outlives the run.
pub struct WorktreeGuard {
    pub path: String,
    pub repo_root: String,
    pub keep: bool,
}

pub open spec fn worktree_name(short: Seq<char>, pid: u32) -> Seq<char> {
    "bcmp-"@ + short + "-"@ + decimal(pid as nat)
}

impl WorktreeGuard {
    /// The worktree for a revision: below `work_dir`, named after the revision
    /// and the process. Git makes it with `add_args`.
    pub fn create(
        repo_root: &str,
        work_dir: &str,
        rev: &ResolvedRev,
        keep: bool,
        pid: u32,
    ) -> (r: WorktreeGuard)
        ensures
            r.path@ == joined(work_dir@, worktree_name(rev.short@, pid)),
            r.repo_root@ == repo_root@,
            r.keep == keep,
    {
        let name: String = cat4("bcmp-", &rev.short, "-", &decimal_string(pid as u64));
        WorktreeGuard {
            path: crate::paths::join(work_dir, &name),
            repo_root: repo_root.to_owned(),
            keep,
        }
    }

    /// The arguments of git that check a commit out into the worktree.
    pub fn add_args(&self, sha: &str) -> (r: Vec<String>)
        ensures
            texts(r@) == seq![
                "-C"@,
                self.repo_root@,
                "worktree"@,
                "add"@,
                "--detach"@,
                self.path@,
                sha@,
            ],
    {
        let r: Vec<String> = arguments(
            &["-C", &self.repo_root, "worktree", "add", "--detach", &self.path, sha],
        );
        assert(texts(r@) =~= seq![
            "-C"@,
            self.repo_root@,
            "worktree"@,
            "add"@,
            "--detach"@,
            self.path@,
            sha@,
        ]);
        r
    }

    /// The arguments of git that fill the submodules of the worktree.
    pub fn submodule_args(&self) -> (r: Vec<String>)
        ensures
            texts(r@) == seq![
                "-C"@,
                self.path@,
                "submodule"@,
                "update"@,
                "--init"@,
                "--recursive"@,
            ],
    {
        let r: Vec<String> = arguments(
            &["-C", &self.path, "submodule", "update", "--init", "--recursive"],
        );
        assert(texts(r@) =~= seq![
            "-C"@,
            self.path@,
            "submodule"@,
            "update"@,
            "--init"@,
            "--recursive"@,
        ]);
        r
    }

    /// Whether the worktree is ready, out of how the submodules went. They count
    /// only where the worktree has any.
    pub fn ready(&self, submodules: &CommandReply, has_submodules: bool) -> (r: Result<(), String>)
        ensures
            ({
                let args = seq![
                    "-C"@,
                    self.path@,
                    "submodule"@,
                    "update"@,
                    "--init"@,
                    "--recursive"@,
                ];
                match r {
                    Ok(_) => !has_submodules || captured("git"@, args, submodules@) is Ok,
                    Err(e) => has_submodules && captured("git"@, args, submodules@) == Err::<
                        Seq<char>,
                        Seq<char>,
                    >(e@),
                }
            }),
    {
        if !has_submodules {
            return Ok(());
        }
        match run_capture("git", &self.submodule_args(), submodules) {
            Ok(_) => Ok(()),
            Err(e) => Err(e),
        }
    }

    /// The arguments of git that remove the worktree when the run is over, or
    /// the line that says it was kept.
    pub fn removal(&self) -> (r: Result<Vec<String>, String>)
        ensures
            match r {
                Ok(args) => !self.keep && texts(args@) == seq![
                    "-C"@,
                    self.repo_root@,
                    "worktree"@,
                    "remove"@,
                    "--force"@,
                    self.path@,
                ],
                Err(line) => self.keep && line@ == "kept worktree: "@ + self.path@,
            },
    {
        if self.keep {
            return Err(cat2("kept worktree: ", &self.path));
        }
        let args: Vec<String> = arguments(
            &["-C", &self.repo_root, "worktree", "remove", "--force", &self.path],
        );
        assert(texts(args@) =~= seq![
            "-C"@,
            self.repo_root@,
            "worktree"@,
            "remove"@,
            "--force"@,
            self.path@,
        ]);
        Ok(args)
    }

    /// The warning where git did not remove the worktree, so that it is removed
    /// as a directory and git's list is pruned; none where git did.
    pub fn removal_warning(&self, reply: &CommandReply) -> (r: Option<String>)
        ensures
            ({
                let args = seq![
                    "-C"@,
                    self.repo_root@,
                    "worktree"@,
                    "remove"@,
                    "--force"@,
                    self.path@,
                ];
                match captured("git"@, args, reply@) {
                    Ok(_) => r is None,
                    Err(e) => r matches Some(text) && text@ == "warning: failed to remove worktree "@
                        + self.path@ + " via git: "@ + e,
                }
            }),
    {
        let args: Vec<String> = arguments(
            &["-C", &self.repo_root, "worktree", "remove", "--force", &self.path],
        );
        assert(texts(args@) =~= seq![
            "-C"@,
            self.repo_root@,
            "worktree"@,
            "remove"@,
            "--force"@,
            self.path@,
        ]);
        match run_capture("git", &args, reply) {
            Ok(_) => None,
            Err(e) => Some(
                cat4("warning: failed to remove worktree ", &self.path, " via git: ", &e),
            ),
        }
    }
}

impl WorktreeGuard {
    /// The warning where the directory of the worktree could not be removed
    /// either, for the reason given.
    pub fn directory_warning(&self, reason: &str) -> (r: String)
        ensures
            r@ == "warning: failed to remove worktree dir "@ + self.path@ + ": "@ + reason@,
    {
        cat4("warning: failed to remove worktree dir ", &self.path, ": ", reason)
    }
}

proof fn lemma_worktree_names(a: Seq<char>, b: Seq<char>, pid: u32)
    requires
        a != b,
    ensures
        worktree_name(a, pid) != worktree_name(b, pid),
{
    reveal_strlit("bcmp-");
    let tail = "-"@ + decimal(pid as nat);
    let na = worktree_name(a, pid);
    let nb = worktree_name(b, pid);
    assert(na =~= "bcmp-"@ + a + tail);
    assert(nb =~= "bcmp-"@ + b + tail);
    if na == nb {
        assert(a.len() == b.len());
        assert forall|i: int| 0 <= i < a.len() implies a[i] == b[i] by {
            assert(na[5 + i] == a[i]);
            assert(nb[5 + i] == b[i]);
        }
        assert(a =~= b);
    }
}

proof fn lemma_worktree_name(short: Seq<char>, pid: u32)
    requires
        !short.contains('/'),
    ensures
        is_name(worktree_name(short, pid)),
{
    reveal_strlit("bcmp-");
    reveal_strlit("-");
    reveal_strlit(".");
    lemma_decimal_plain(pid as nat);
    let name = worktree_name(short, pid);
    let digits = decimal(pid as nat);
    if name.contains('/') {
        let i = choose|i: int| 0 <= i < name.len() && name[i] == '/';
        if i < 5 {
            assert(name[i] == "bcmp-"@[i]);
        } else if i < 5 + short.len() {
            assert(name[i] == short[i - 5]);
            assert(short.contains(short[i - 5]));
        } else if i == 5 + short.len() {
            assert(name[i] == "-"@[0]);
        } else {
            assert(name[i] == digits[i - 6 - short.len()]);
        }
    }
    assert(name.len() >= 6 && "."@.len() == 1);
}

proof fn lemma_decimal_plain(n: nat)
    ensures
        forall|i: int| 0 <= i < decimal(n).len() ==> decimal(n)[i] != '/',
    decreases n,
{
    if n >= 10 {
        lemma_decimal_plain(n / 10);
    }
    let all = decimal(n);
    assert forall|i: int| 0 <= i < all.len() implies all[i] != '/' by {
        if n >= 10 && i < decimal(n / 10).len() {
            assert(all[i] == decimal(n / 10)[i]);
        }
    }
}

/// Different revisions get worktrees in different places. Git's short names hold
/// no slash.
pub proof fn law_worktrees_are_apart(work_dir: Seq<char>, a: Seq<char>, b: Seq<char>, pid: u32)
    requires
        work_dir.len() > 0,
        !a.contains('/'),
        !b.contains('/'),
        a != b,
    ensures
        !same_place(
            joined(work_dir, worktree_name(a, pid)),
            joined(work_dir, worktree_name(b, pid)),
        ),
{
    lemma_worktree_names(a, b, pid);
    lemma_worktree_name(a, pid);
    lemma_worktree_name(b, pid);
    law_children_are_apart(work_dir, worktree_name(a, pid), worktree_name(b, pid));
}

/// The arguments of git that forget worktrees whose directories are gone.
pub fn prune_args(repo_root: &str) -> (r: Vec<String>)
    ensures
        texts(r@) == seq!["-C"@, repo_root@, "worktree"@, "prune"@],
{
    let r: Vec<String> = arguments(&["-C", repo_root, "worktree", "prune"]);
    assert(texts(r@) =~= seq!["-C"@, repo_root@, "worktree"@, "prune"@]);
    r
}

pub open spec fn list_args_text(root: Seq<char>) -> Seq<Seq<char>> {
    seq!["-C"@, root, "worktree"@, "list"@, "--porcelain"@]
}

/// The arguments of git that list the worktrees.
pub fn list_args(repo_root: &str) -> (r: Vec<String>)
    ensures
        texts(r@) == list_args_text(repo_root@),
{
    let r: Vec<String> = arguments(&["-C", repo_root, "worktree", "list", "--porcelain"]);
    assert(texts(r@) =~= list_args_text(repo_root@));
    r
}

/// The paths in git's list of worktrees: what follows `worktree ` on the lines
/// that begin with it.
pub open spec fn listed(lines: Seq<Seq<char>>) -> Seq<Seq<char>>
    decreases lines.len(),
{
    if lines.len() == 0 {
        seq![]
    } else {
        match behind(lines.last(), "worktree "@) {
            Some(path) => listed(lines.drop_last()).push(path),
            None => listed(lines.drop_last()),
        }
    }
}

pub fn listed_worktrees(list: &str) -> (r: Vec<String>)
    ensures
        texts(r@) == listed(lines_of(list@)),
{
    let chars: Vec<char> = chars_of(list);
    let all: Vec<&[char]> = lines(&chars);
    let ghost goal = slices(all@);
    let mut out: Vec<String> = Vec::new();
    let n: usize = all.len();
    let mut i: usize = 0;
    assert(texts(out@) =~= listed(goal.take(0)));
    while i < n
        invariant
            n == all@.len(),
            i <= n,
            goal == slices(all@),
            texts(out@) == listed(goal.take(i as int)),
        decreases n - i,
    {
        broadcast use lemma_texts_push;

        assert(goal.take(i + 1).drop_last() =~= goal.take(i as int));
        assert(goal.take(i + 1).last() == all@[i as int]@);
        if let Some(path) = strip_prefix(all[i], "worktree ") {
            out.push(string_of(path));
        }
        i = i + 1;
    }
    assert(goal.take(n as int) =~= goal);
    out
}

/// Whether a directory is left over: it is named like a worktree of this tool
/// and no active worktree lies at its place.
pub open spec fn stale(path: Seq<char>, canonical: Seq<char>, active: Seq<Seq<char>>) -> bool {
    &&& name_of(path) matches Some(name) && begins_with(name, "bcmp-"@)
    &&& forall|i: int| 0 <= i < active.len() ==> !same_place(#[trigger] active[i], canonical)
}

/// The directories that are left over, in their order. Each entry is a path and
/// the place that it stands for.
pub open spec fn stale_paths(entries: Seq<(String, String)>, active: Seq<Seq<char>>) -> Seq<
    Seq<char>,
>
    decreases entries.len(),
{
    if entries.len() == 0 {
        seq![]
    } else {
        let e = entries.last();
        let before = stale_paths(entries.drop_last(), active);
        if stale(e.0@, e.1@, active) {
            before.push(e.0@)
        } else {
            before
        }
    }
}

fn is_stale(path: &str, canonical: &str, active: &[String]) -> (r: bool)
    ensures
        r == stale(path@, canonical@, texts(active@)),
{
    let named: bool = match crate::paths::file_name(path) {
        Some(name) => crate::text::starts_with(&chars_of(&name), "bcmp-"),
        None => false,
    };
    if !named {
        return false;
    }
    let n: usize = active.len();
    let mut i: usize = 0;
    while i < n
        invariant
            n == active@.len(),
            i <= n,
            forall|j: int| 0 <= j < i ==> !same_place(#[trigger] texts(active@)[j], canonical@),
        decreases n - i,
    {
        if crate::paths::same_path(&active[i], canonical) {
            assert(same_place(texts(active@)[i as int], canonical@));
            return false;
        }
        i = i + 1;
    }
    true
}

/// The directories that are left over from runs that are gone. Each entry is a
/// path and the place that it stands for; `active` are the places of the
/// worktrees that git knows.
pub fn sweep_stale_worktrees(entries: &[(String, String)], active: &[String]) -> (r: Vec<String>)
    ensures
        texts(r@) == stale_paths(entries@, texts(active@)),
{
    let mut out: Vec<String> = Vec::new();
    let n: usize = entries.len();
    let mut i: usize = 0;
    assert(texts(out@) =~= stale_paths(entries@.take(0), texts(active@)));
    while i < n
        invariant
            n == entries@.len(),
            i <= n,
            texts(out@) == stale_paths(entries@.take(i as int), texts(active@)),
        decreases n - i,
    {
        broadcast use lemma_texts_push;

        assert(entries@.take(i + 1).drop_last() =~= entries@.take(i as int));
        if is_stale(&entries[i].0, &entries[i].1, active) {
            out.push(entries[i].0.clone());
        }
        i = i + 1;
    }
    assert(entries@.take(n as int) =~= entries@);
    out
}

/// Only left-over directories are swept: each is one of the entries, and it is
/// stale.
pub proof fn law_sweep_spares_active(
    entries: Seq<(String, String)>,
    active: Seq<Seq<char>>,
    path: Seq<char>,
)
    requires
        stale_paths(entries, active).contains(path),
    ensures
        exists|i: int|
            0 <= i < entries.len() && (#[trigger] entries[i]).0@ == path && stale(
                path,
                entries[i].1@,
                active,
            ),
    decreases entries.len(),
{
    let e = entries.last();
    let before = stale_paths(entries.drop_last(), active);
    if stale(e.0@, e.1@, active) && e.0@ == path {
        assert(entries[entries.len() - 1].0@ == path);
    } else {
        let k = choose|k: int|
            0 <= k < stale_paths(entries, active).len() && stale_paths(entries, active)[k] == path;
        assert(before[k] == path);
        law_sweep_spares_active(entries.drop_last(), active, path);
        let i = choose|i: int|
            0 <= i < entries.drop_last().len() && (#[trigger] entries.drop_last()[i]).0@ == path
                && stale(path, entries.drop_last()[i].1@, active);
        assert(entries[i].0@ == path);
    }
}

/// The place that a path stands for: what the system made of it, or the path
/// itself where it made nothing of it.
pub fn canonical_or_self(path: &str, canonical: Option<&str>) -> (r: String)
    ensures
        r@ == (match canonical {
            Some(place) => place@,
            None => path@,
        }),
{
    match canonical {
        Some(place) => place.to_owned(),
        None => path.to_owned(),
    }
}

// ---------------------------------------------------------------------------
// The cache directory of a repository
// ---------------------------------------------------------------------------

/// The name of a repository's cache directory: its path with the separators
/// replaced, and the lower half of a hash of the path.
pub open spec fn key_on(root: Seq<char>, separator: char, hash: u64) -> Seq<char> {
    replace_text(root, separator, '-') + "-"@ + hex_digits((hash % 0x1_0000_0000) as nat, 8)
}

/// The name of a repository's cache directory where slashes separate.
pub open spec fn key_text(root: Seq<char>, hash: u64) -> Seq<char> {
    key_on(root, '/', hash)
}

/// The hash of a text that std's `DefaultHasher` gives.
pub uninterp spec fn text_hash(s: Seq<char>) -> u64;

/// Calls `BuildHasher::hash_one` with std's `DefaultHasher`. All hashers that are
/// made with `default` are the same, so that the hash depends on the text alone.
/// Which hash it is, std leaves open.
#[verifier::external_body]
fn hash_text(s: &str) -> (r: u64)
    ensures
        r == text_hash(s@),
{
    std::hash::BuildHasher::hash_one(
        &std::hash::BuildHasherDefault::<std::hash::DefaultHasher>::default(),
        s,
    )
}

/// The name of a repository's cache directory, for a hash of its path.
pub fn repo_key_with(root: &str, separator: char, hash: u64) -> (r: String)
    ensures
        r@ == key_on(root@, separator, hash),
{
    let mut out: String = cat2(&replace_char(root, separator, '-'), "-");
    let low: u32 = (hash % 0x1_0000_0000) as u32;
    push_hex_digits(&mut out, low, 8);
    out
}

/// The name of a repository's cache directory.
pub fn repo_key(root: &str) -> (r: String)
    ensures
        r@ == key_text(root@, text_hash(root@)),
{
    repo_key_with(root, '/', hash_text(root))
}

/// The cache directory of the repository at `root`, below `work_dir`. The same
/// root always has the same one.
pub fn repo_work_dir(work_dir: &str, root: &str) -> (r: String)
    ensures
        r@ == joined(work_dir@, key_text(root@, text_hash(root@))),
{
    crate::paths::join(work_dir, &repo_key(root))
}

/// The cache directory of a repository on a platform whose paths have a
/// separator of their own.
pub fn repo_work_dir_on(work_dir: &str, root: &str, separator: char) -> (r: String)
    ensures
        r@ == joined(work_dir@, key_on(root@, separator, text_hash(root@))),
{
    crate::paths::join(work_dir, &repo_key_with(root, separator, hash_text(root)))
}

/// The cache directory of a repository lies directly below the work directory.
pub proof fn law_repo_dir_is_a_child(work_dir: Seq<char>, root: Seq<char>)
    requires
        work_dir.len() > 0,
    ensures
        ({
            let key = key_text(root, text_hash(root));
            components_of(joined(work_dir, key)) == components_of(work_dir).push(key)
        }),
{
    reveal_strlit(".");
    let key = key_text(root, text_hash(root));
    law_repo_key_is_a_name(root, text_hash(root));
    lemma_hex_digits_len((text_hash(root) % 0x1_0000_0000) as nat, 8);
    assert(key.len() > 1 && "."@.len() == 1);
    law_child_components(work_dir, key);
}

/// Repositories whose paths still differ with the slashes replaced have cache
/// directories of different names, whatever the hashes.
pub proof fn law_repo_keys_differ(a: Seq<char>, b: Seq<char>, ha: u64, hb: u64)
    requires
        replace_text(a, '/', '-') != replace_text(b, '/', '-'),
    ensures
        key_text(a, ha) != key_text(b, hb),
{
    lemma_hex_digits_len((ha % 0x1_0000_0000) as nat, 8);
    lemma_hex_digits_len((hb % 0x1_0000_0000) as nat, 8);
    let x = replace_text(a, '/', '-');
    let y = replace_text(b, '/', '-');
    let kx = key_text(a, ha);
    let ky = key_text(b, hb);
    assert(kx.len() == x.len() + "-"@.len() + 8);
    assert(ky.len() == y.len() + "-"@.len() + 8);
    if kx == ky {
        assert forall|i: int| 0 <= i < x.len() implies x[i] == y[i] by {
            assert(kx[i] == x[i]);
            assert(ky[i] == y[i]);
        }
        assert(x =~= y);
    }
}

/// The name of a cache directory holds no slash.
pub proof fn law_repo_key_is_a_name(root: Seq<char>, hash: u64)
    ensures
        !key_text(root, hash).contains('/'),
{
    reveal_strlit("-");
    lemma_hex_digits_plain((hash % 0x1_0000_0000) as nat, 8);
    let key = key_text(root, hash);
    let front = replace_text(root, '/', '-');
    let digits = hex_digits((hash % 0x1_0000_0000) as nat, 8);
    if key.contains('/') {
        let i = choose|i: int| 0 <= i < key.len() && key[i] == '/';
        if i < front.len() {
            assert(key[i] == front[i]);
        } else if i == front.len() {
            assert(key[i] == "-"@[0]);
        } else {
            assert(key[i] == digits[i - front.len() - 1]);
        }
    }
}

proof fn lemma_hex_digits_plain(n: nat, width: nat)
    ensures
        forall|i: int| 0 <= i < hex_digits(n, width).len() ==> hex_digits(n, width)[i] != '/',
    decreases width,
{
    if width > 0 {
        lemma_hex_digits_plain(n / 16, (width - 1) as nat);
        let front = hex_digits(n / 16, (width - 1) as nat);
        let all = hex_digits(n, width);
        assert forall|i: int| 0 <= i < all.len() implies all[i] != '/' by {
            if i < front.len() {
                assert(all[i] == front[i]);
            } else {
                assert(all[i] == digit_char(n % 16));
            }
        }
    }
}

/// The lines of a text that are told are the last ones, or the first ones, at most so
/// many as are wanted, with a line feed between.
pub proof fn law_some_lines_are_told(
    s: Seq<char>,
    front: Seq<Seq<char>>,
    back: Seq<Seq<char>>,
    n: nat,
)
    requires
        lines_of(s) == front + back,
    ensures
        back.len() == n ==> tail_text(s, n) == join_texts(back, "\n"@),
        front.len() == n ==> head_text(s, n) == join_texts(front, "\n"@),
        front.len() + back.len() <= n ==> tail_text(s, n) == join_texts(lines_of(s), "\n"@),
        front.len() + back.len() <= n ==> head_text(s, n) == join_texts(lines_of(s), "\n"@),
{
    let all = lines_of(s);
    assert(all.skip(front.len() as int) =~= back);
    assert(all.take(front.len() as int) =~= front);
    assert(all.skip(0) =~= all);
    assert(all.take(all.len() as int) =~= all);
}

/// A command that cannot be started, or that fails, is an error that tells the command
/// and why: its status and the last twenty lines that it wrote as errors. Else what it
/// printed counts.
pub proof fn law_failed_commands_are_told(
    program: Seq<char>,
    args: Seq<Seq<char>>,
    reply: ReplyText,
)
    ensures
        match reply {
            ReplyText::NotStarted(e) => captured(program, args, reply) == Err::<
                Seq<char>,
                Seq<char>,
            >("failed to run "@ + program + ": "@ + e),
            ReplyText::Exited { ok, status, stdout, stderr } => {
                &&& ok ==> captured(program, args, reply) == Ok::<Seq<char>, Seq<char>>(
                    utf8_lossy(stdout),
                )
                &&& !ok ==> captured(program, args, reply) == Err::<Seq<char>, Seq<char>>(
                    "command failed: "@ + join_texts(seq![program] + args, " "@) + "\nstatus: "@
                        + status + "\nstderr (last 20 lines):\n"@ + tail_text(
                        utf8_lossy(stderr),
                        20,
                    ),
                )
            },
        },
        reply matches ReplyText::Exited { ok, stdout, .. } ==> (ok ==> git_answer(args, reply)
            == Ok::<Seq<char>, Seq<char>>(trim_text(utf8_lossy(stdout)))),
        !succeeded(reply) ==> git_answer(args, reply) == captured("git"@, args, reply),
{
}

/// The root of the repository is what git calls the top level.
pub proof fn law_root_is_the_top_level()
    ensures
        root_args() == seq!["rev-parse"@, "--show-toplevel"@],
{
}

/// Why a revision is not found is told: the commit that git does not know, or that git
/// did not run.
pub proof fn law_unknown_revisions_are_told(
    root: Seq<char>,
    spec: Seq<char>,
    temp: Seq<char>,
    seen: Seq<ReplyText>,
)
    requires
        spec != ":worktree"@,
        spec != ":merge-base"@,
        seen.len() > 0,
    ensures
        seen[0] matches ReplyText::NotStarted(e) ==> spec_step(root, spec, temp, seen)
            == RevAsk::Done(Err::<RevText, Seq<char>>("failed to run git rev-parse: "@ + e)),
        seen[0] is Exited && !succeeded(seen[0]) ==> spec_step(root, spec, temp, seen)
            == RevAsk::Done(
            Err::<RevText, Seq<char>>(
                "revision '"@ + spec + "' not found in "@ + root + " (tried `git rev-parse "@ + spec
                    + "^{commit}`)"@,
            ),
        ),
{
}

/// Where the remote names no branch of its own, and where there is no `main` and no
/// `master` either, it is told that there is no default base.
pub proof fn law_missing_default_branch_is_told(seen: Seq<ReplyText>)
    requires
        seen.len() >= 3,
        !succeeded(seen[0]) || forall|name: Seq<char>|
            said(seen[0]) != #[trigger] ("refs/remotes/origin/"@ + name),
        seen[1] is Exited,
        seen[2] is Exited,
    ensures
        succeeded(seen[1]) ==> base_step(seen) == BaseAsk::Settled(Ok("main"@), 2),
        !succeeded(seen[1]) && succeeded(seen[2]) ==> base_step(seen) == BaseAsk::Settled(
            Ok("master"@),
            3,
        ),
        !succeeded(seen[1]) && !succeeded(seen[2]) ==> base_step(seen) == BaseAsk::Settled(
            Err(
                "could not determine a default base revision (no origin/HEAD, no local 'main' or 'master'); pass --rev-base <REV>"@,
            ),
            3,
        ),
{
    let p = "refs/remotes/origin/"@;
    if succeeded(seen[0]) {
        let sym = said(seen[0]);
        if begins_with(sym, p) {
            assert(sym =~= p + sym.skip(p.len() as int));
        }
    }
    assert(seen.skip(1)[0] == seen[1]);
    assert(seen.skip(1)[1] == seen[2]);
}

/// Where `HEAD` and the default branch have no merge base, the branch is told.
pub proof fn law_missing_merge_base_is_told(
    root: Seq<char>,
    temp: Seq<char>,
    before: Seq<ReplyText>,
    branch: Seq<char>,
    reply: ReplyText,
)
    requires
        base_step(before.push(reply)) == BaseAsk::Settled(Ok(branch), before.len()),
        !succeeded(reply),
    ensures
        spec_step(root, ":merge-base"@, temp, before.push(reply)) == RevAsk::Done(
            Err::<RevText, Seq<char>>(
                "no merge base between HEAD and '"@ + branch
                    + "' (unrelated histories or shallow clone?); pass --rev-base <REV>"@,
            ),
        ),
{
    reveal_strlit(":worktree");
    reveal_strlit(":merge-base");
    assert(":worktree"@.len() == 9 && ":merge-base"@.len() == 11);
    assert(before.push(reply).skip(before.len() as int)[0] == reply);
}

/// A snapshot that fails on the way is an error: before the index was copied at once,
/// with the files that could not be copied, and behind that with git's own words, when
/// the copy is removed.
pub proof fn law_failed_snapshots_are_told(
    root: Seq<char>,
    temp: Seq<char>,
    seen: Seq<ReplyText>,
)
    requires
        seen.len() >= 3,
        succeeded(seen[0]),
        printed_anything(seen[0]),
        succeeded(seen[1]),
    ensures
        seen[2] matches ReplyText::NotStarted(e) ==> spec_step(root, ":worktree"@, temp, seen)
            == RevAsk::Done(
            Err::<RevText, Seq<char>>(
                "failed to copy git index "@ + joined(root, said(seen[1])) + " to "@ + temp + ": "@
                    + e,
            ),
        ),
        seen[2] is Exited && seen.len() == 4 && !succeeded(seen[3]) ==> spec_step(
            root,
            ":worktree"@,
            temp,
            seen,
        ) == RevAsk::RemoveIndex(temp),
        seen[2] is Exited && seen.len() > 4 && !succeeded(seen[3]) ==> spec_step(
            root,
            ":worktree"@,
            temp,
            seen,
        ) == RevAsk::Done(
            match captured("git"@, seq!["add"@, "-A"@], seen[3]) {
                Ok(_) => Err::<RevText, Seq<char>>(seq![]),
                Err(e) => Err::<RevText, Seq<char>>(e),
            },
        ),
{
    law_anything_printed_is_a_change(seen[0]);
    let a = seen.skip(1);
    assert(a[0] == seen[1] && a[1] == seen[2]);
    assert(a.skip(2) =~= seen.skip(3));
}

/// A worktree is named after its revision and the process that made it.
pub proof fn law_worktrees_are_named(short: Seq<char>, pid: u32)
    ensures
        worktree_name(short, pid) == "bcmp-"@ + short + "-"@ + decimal(pid as nat),
{
}

/// Git's worktrees are what stands behind the word on the lines that begin with it,
/// in their order.
pub proof fn law_every_worktree_is_listed(lines: Seq<Seq<char>>)
    ensures
        listed(lines) == lines.filter_map(
            |line: Seq<char>|
                if begins_with(line, "worktree "@) {
                    Some(line.skip(9))
                } else {
                    None
                },
        ),
    decreases lines.len(),
{
    reveal_strlit("worktree ");
    assert("worktree "@.len() == 9);
    let path = |line: Seq<char>|
        if begins_with(line, "worktree "@) {
            Some(line.skip(9))
        } else {
            None
        };
    if lines.len() > 0 {
        law_every_worktree_is_listed(lines.drop_last());
    }
    assert(listed(lines) =~= lines.filter_map(path));
}

/// Every left-over directory is swept, in their order: exactly those whose own name
/// begins as that of a worktree does and whose place no active worktree has.
pub proof fn law_every_left_over_is_swept(entries: Seq<(String, String)>, active: Seq<Seq<char>>)
    ensures
        stale_paths(entries, active) == entries.filter_map(
            |e: (String, String)|
                if (name_of(e.0@) is Some && begins_with(name_of(e.0@)->0, "bcmp-"@)) && !(exists|
                    i: int,
                |
                    0 <= i < active.len() && components_of(#[trigger] active[i]) == components_of(
                        e.1@,
                    )) {
                    Some(e.0@)
                } else {
                    None
                },
        ),
    decreases entries.len(),
{
    let swept = |e: (String, String)|
        if (name_of(e.0@) is Some && begins_with(name_of(e.0@)->0, "bcmp-"@)) && !(exists|i: int|
            0 <= i < active.len() && components_of(#[trigger] active[i]) == components_of(e.1@)) {
            Some(e.0@)
        } else {
            None
        };
    if entries.len() > 0 {
        law_every_left_over_is_swept(entries.drop_last(), active);
    }
    assert(stale_paths(entries, active) =~= entries.filter_map(swept));
}

/// The name of a cache directory is the path of its repository with a dash for every
/// separator, a dash, and the lower half of the hash with eight digits.
pub proof fn law_repo_key_says(root: Seq<char>, separator: char, hash: u64, i: int)
    ensures
        key_text(root, hash) == key_on(root, '/', hash),
        key_on(root, separator, hash).len() == root.len() + 9,
        0 <= i < root.len() ==> key_on(root, separator, hash)[i] == (if root[i] == separator {
            '-'
        } else {
            root[i]
        }),
        key_on(root, separator, hash)[root.len() as int] == '-',
        key_on(root, separator, hash).skip(root.len() as int + 1) == hex_digits(
            (hash % 0x1_0000_0000) as nat,
            8,
        ),
{
    reveal_strlit("-");
    lemma_hex_digits_len((hash % 0x1_0000_0000) as nat, 8);
    let key = key_on(root, separator, hash);
    assert(key.skip(root.len() as int + 1) =~= hex_digits((hash % 0x1_0000_0000) as nat, 8));
}

/// What a reply says is what the command left: how it ended and what it printed.
pub proof fn law_replies_are_what_was_printed(list: Seq<CommandReply>, i: int)
    ensures
        replies(list).len() == list.len(),
        0 <= i < list.len() ==> (match list[i] {
            CommandReply::NotStarted(e) => replies(list)[i] == ReplyText::NotStarted(e@),
            CommandReply::Exited { ok, status, stdout, stderr } => replies(list)[i]
                == ReplyText::Exited {
                ok,
                status: status@,
                stdout: stdout@,
                stderr: stderr@,
            },
        }),
{
}

} // verus!
