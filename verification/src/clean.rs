//! The cache: listing it and removing it.
use crate::git::{arguments, list_args, list_args_text, listed, listed_worktrees, prune_args};
use crate::numbers::{decimal, push_decimal};
use crate::paths::{components_of, joined, law_join_sets_one_slash, lies_below};
use crate::text::{
    cat5, chars_of, lemma_texts_push, lines_of, push_repeated, repeat_char, texts, trim_text,
    trimmed,
};
use vstd::prelude::*;
use vstd::utf8::encode_utf8;

verus! {

// ---------------------------------------------------------------------------
// Sizes
// ---------------------------------------------------------------------------

/// `n / d`, rounded to the nearest whole, and to the even one of two that are as
/// near.
pub open spec fn nearest(n: nat, d: nat) -> nat {
    let q = n / d;
    let r = n % d;
    if 2 * r < d || (2 * r == d && q % 2 == 0) {
        q
    } else {
        q + 1
    }
}

/// How often a number has to be halved to be below `2^53`.
pub open spec fn excess_bits(n: nat) -> nat
    decreases n,
{
    if n < 0x20_0000_0000_0000 {
        0
    } else {
        1 + excess_bits(n / 2)
    }
}

pub open spec fn two_to(k: nat) -> nat
    decreases k,
{
    if k == 0 {
        1
    } else {
        2 * two_to((k - 1) as nat)
    }
}

/// A number as a double holds it: with 53 significant bits.
pub open spec fn as_double(n: nat) -> nat {
    let unit = two_to(excess_bits(n));
    nearest(n, unit) * unit
}

/// A number of tenths, with one decimal.
pub open spec fn tenths_text(t: nat) -> Seq<char> {
    decimal(t / 10) + "."@ + decimal(t % 10)
}

/// A size in MiB, or from 1024 of them on in GiB, with one decimal.
pub open spec fn size_text(bytes: nat) -> Seq<char> {
    let n = as_double(bytes);
    if n >= 0x4000_0000 {
        tenths_text(nearest(10 * n, 0x4000_0000)) + " GiB"@
    } else {
        tenths_text(nearest(10 * n, 0x10_0000)) + " MiB"@
    }
}

fn rounded(n: u128, d: u128) -> (r: u128)
    requires
        0 < d,
        2 * d <= u128::MAX,
        n < u128::MAX,
    ensures
        r == nearest(n as nat, d as nat),
{
    let q: u128 = n / d;
    let rest: u128 = n % d;
    assert(q <= n) by (nonlinear_arith)
        requires
            q == n / d,
            d > 0,
    ;
    if 2 * rest < d || (2 * rest == d && q % 2 == 0) {
        q
    } else {
        q + 1
    }
}

proof fn lemma_nearest_bound(n: nat, d: nat)
    requires
        d > 0,
    ensures
        nearest(n, d) * d <= n + d,
{
    assert((n / d) * d <= n && (n / d + 1) * d <= n + d) by (nonlinear_arith)
        requires
            d > 0,
    ;
}

fn double(bytes: u64) -> (r: u128)
    ensures
        r == as_double(bytes as nat),
        r <= 0x1_0000_0000_0000_0000 + 0x1_0000_0000_0000_0000,
{
    let mut unit: u128 = 1;
    let mut left: u64 = bytes;
    let ghost mut k: nat = 0;
    while left >= 0x20_0000_0000_0000
        invariant
            unit == two_to(k),
            1 <= unit,
            left > 0 || unit == 1,
            unit * left <= bytes,
            excess_bits(bytes as nat) == k + excess_bits(left as nat),
        decreases left,
    {
        assert(unit * 2 * (left / 2) <= unit * left) by (nonlinear_arith)
            requires
                1 <= unit,
        ;
        assert(unit <= unit * left) by (nonlinear_arith)
            requires
                1 <= left,
                1 <= unit,
        ;
        unit = unit * 2;
        left = left / 2;
        proof {
            k = k + 1;
        }
    }
    assert(unit <= 0x1_0000_0000_0000_0000) by {
        if left > 0 {
            assert(unit <= unit * left) by (nonlinear_arith)
                requires
                    1 <= left,
                    1 <= unit,
            ;
        }
    }
    proof {
        lemma_nearest_bound(bytes as nat, unit as nat);
    }
    rounded(bytes as u128, unit) * unit
}

fn tenths(t: u64, unit: &str) -> (r: String)
    ensures
        r@ == tenths_text(t as nat) + unit@,
{
    let mut out: String = String::new();
    push_decimal(&mut out, t / 10);
    out.append(".");
    push_decimal(&mut out, t % 10);
    out.append(unit);
    assert(out@ =~= tenths_text(t as nat) + unit@);
    out
}

/// A size in words.
pub fn format_size(bytes: u64) -> (r: String)
    ensures
        r@ == size_text(bytes as nat),
{
    let n: u128 = double(bytes);
    if n >= 0x4000_0000 {
        let t: u128 = rounded(10 * n, 0x4000_0000);
        tenths(t as u64, " GiB")
    } else {
        let t: u128 = rounded(10 * n, 0x10_0000);
        tenths(t as u64, " MiB")
    }
}

// ---------------------------------------------------------------------------
// Listing
// ---------------------------------------------------------------------------

/// The repository that a cache directory belongs to, out of what its note holds.
pub open spec fn repo_words(note: Option<Seq<char>>) -> Seq<char> {
    match note {
        Some(s) if trim_text(s).len() > 0 => trim_text(s),
        _ => "-"@,
    }
}

pub fn repo_label(note: Option<&str>) -> (r: String)
    ensures
        r@ == repo_words(
            match note {
                Some(s) => Some(s@),
                None => None,
            },
        ),
{
    if let Some(s) = note {
        let repo: String = trimmed(s);
        if !repo.as_str().is_empty() {
            return repo;
        }
    }
    "-".to_owned()
}

/// The number of bytes of a text.
pub open spec fn byte_len(s: Seq<char>) -> nat {
    encode_utf8(s).len()
}

/// The width of the column with sizes: that of its widest entry, in bytes.
pub open spec fn size_width(rows: Seq<(String, String, String)>) -> nat
    decreases rows.len(),
{
    if rows.len() == 0 {
        byte_len("SIZE"@)
    } else {
        let before = size_width(rows.drop_last());
        let own = byte_len(rows.last().0@);
        if before < own {
            own
        } else {
            before
        }
    }
}

/// The width of the column with directories: that of its widest entry, in bytes.
pub open spec fn cache_width(rows: Seq<(String, String, String)>) -> nat
    decreases rows.len(),
{
    if rows.len() == 0 {
        byte_len("CACHE"@)
    } else {
        let before = cache_width(rows.drop_last());
        let own = byte_len(rows.last().1@);
        if before < own {
            own
        } else {
            before
        }
    }
}

/// The blanks that bring a text to a width.
pub open spec fn fill(s: Seq<char>, width: nat) -> Seq<char> {
    repeat_char(
        ' ',
        if s.len() < width {
            (width - s.len()) as nat
        } else {
            0
        },
    )
}

/// A line of the list: the size set to the right of its column, the directory to
/// the left of its own.
pub open spec fn list_line(
    size: Seq<char>,
    cache: Seq<char>,
    repo: Seq<char>,
    size_w: nat,
    cache_w: nat,
) -> Seq<char> {
    fill(size, size_w) + size + "  "@ + cache + fill(cache, cache_w) + "  "@ + repo
}

/// The lines of the list: a header, then one line for each row.
pub open spec fn list_lines(rows: Seq<(String, String, String)>) -> Seq<Seq<char>> {
    let size_w = size_width(rows);
    let cache_w = cache_width(rows);
    seq![list_line("SIZE"@, "CACHE"@, "REPO"@, size_w, cache_w)] + Seq::new(
        rows.len(),
        |i: int| list_line(rows[i].0@, rows[i].1@, rows[i].2@, size_w, cache_w),
    )
}

fn bytes_in(s: &str) -> (r: usize)
    ensures
        r == byte_len(s@),
{
    s.as_bytes().len()
}

fn push_fill(out: &mut String, s: &str, width: usize)
    ensures
        final(out)@ == old(out)@ + fill(s@, width as nat),
{
    let n: usize = chars_of(s).len();
    let gap: usize = if n < width {
        width - n
    } else {
        0
    };
    push_repeated(out, ' ', gap);
}

fn line(size: &str, cache: &str, repo: &str, size_w: usize, cache_w: usize) -> (r: String)
    ensures
        r@ == list_line(size@, cache@, repo@, size_w as nat, cache_w as nat),
{
    let mut out: String = String::new();
    push_fill(&mut out, size, size_w);
    out.append(size);
    out.append("  ");
    out.append(cache);
    push_fill(&mut out, cache, cache_w);
    out.append("  ");
    out.append(repo);
    assert(out@ =~= list_line(size@, cache@, repo@, size_w as nat, cache_w as nat));
    out
}

/// The lines of the list. A row is a size, a directory and a repository.
pub fn cache_list_lines(rows: &[(String, String, String)]) -> (r: Vec<String>)
    ensures
        texts(r@) == list_lines(rows@),
{
    let mut size_w: usize = bytes_in("SIZE");
    let mut cache_w: usize = bytes_in("CACHE");
    let n: usize = rows.len();
    let mut i: usize = 0;
    while i < n
        invariant
            n == rows@.len(),
            i <= n,
            size_w == size_width(rows@.take(i as int)),
            cache_w == cache_width(rows@.take(i as int)),
        decreases n - i,
    {
        assert(rows@.take(i + 1).drop_last() =~= rows@.take(i as int));
        let s: usize = bytes_in(&rows[i].0);
        let c: usize = bytes_in(&rows[i].1);
        if size_w < s {
            size_w = s;
        }
        if cache_w < c {
            cache_w = c;
        }
        i = i + 1;
    }
    assert(rows@.take(n as int) =~= rows@);
    let mut out: Vec<String> = Vec::new();
    out.push(line("SIZE", "CACHE", "REPO", size_w, cache_w));
    i = 0;
    assert(texts(out@) =~= list_lines(rows@).take(1));
    while i < n
        invariant
            n == rows@.len(),
            i <= n,
            size_w == size_width(rows@),
            cache_w == cache_width(rows@),
            texts(out@) == list_lines(rows@).take(i + 1),
        decreases n - i,
    {
        broadcast use lemma_texts_push;

        out.push(line(&rows[i].0, &rows[i].1, &rows[i].2, size_w, cache_w));
        assert(list_lines(rows@).take(i + 2) =~= list_lines(rows@).take(i + 1).push(
            list_lines(rows@)[i + 1],
        ));
        i = i + 1;
    }
    assert(list_lines(rows@).take(n + 1) =~= list_lines(rows@));
    out
}

proof fn lemma_bytes_cover_chars(s: Seq<char>)
    ensures
        s.len() <= byte_len(s),
    decreases s.len(),
{
    if s.len() > 0 {
        lemma_bytes_cover_chars(s.drop_first());
    }
}

proof fn lemma_list_widths(rows: Seq<(String, String, String)>, i: int)
    requires
        0 <= i < rows.len(),
    ensures
        rows[i].0@.len() <= size_width(rows),
        rows[i].1@.len() <= cache_width(rows),
    decreases rows.len(),
{
    if i < rows.len() - 1 {
        lemma_list_widths(rows.drop_last(), i);
    } else {
        lemma_bytes_cover_chars(rows.last().0@);
        lemma_bytes_cover_chars(rows.last().1@);
    }
}

proof fn lemma_header_widths(rows: Seq<(String, String, String)>)
    ensures
        "SIZE"@.len() <= size_width(rows),
        "CACHE"@.len() <= cache_width(rows),
    decreases rows.len(),
{
    if rows.len() > 0 {
        lemma_header_widths(rows.drop_last());
    } else {
        lemma_bytes_cover_chars("SIZE"@);
        lemma_bytes_cover_chars("CACHE"@);
    }
}

/// The place where the last column begins.
pub open spec fn repo_column(rows: Seq<(String, String, String)>) -> nat {
    size_width(rows) + cache_width(rows) + 4
}

/// The columns of the list are aligned: on every line the repository begins at
/// the same place.
pub proof fn law_list_is_aligned(rows: Seq<(String, String, String)>)
    ensures
        list_lines(rows).len() == rows.len() + 1,
        list_lines(rows)[0].len() >= repo_column(rows),
        list_lines(rows)[0].skip(repo_column(rows) as int) == "REPO"@,
        forall|i: int|
            0 <= i < rows.len() ==> (#[trigger] list_lines(rows)[i + 1]).len() >= repo_column(rows)
                && list_lines(rows)[i + 1].skip(repo_column(rows) as int) == rows[i].2@,
{
    let size_w = size_width(rows);
    let cache_w = cache_width(rows);
    let col = repo_column(rows) as int;
    reveal_strlit("  ");
    assert("  "@.len() == 2);
    lemma_header_widths(rows);
    lemma_line_column("SIZE"@, "CACHE"@, "REPO"@, size_w, cache_w);
    assert forall|i: int| 0 <= i < rows.len() implies (#[trigger] list_lines(rows)[i + 1]).len()
        >= repo_column(rows) && list_lines(rows)[i + 1].skip(repo_column(rows) as int)
        == rows[i].2@ by {
        lemma_list_widths(rows, i);
        lemma_line_column(rows[i].0@, rows[i].1@, rows[i].2@, size_w, cache_w);
    }
}

proof fn lemma_line_column(
    size: Seq<char>,
    cache: Seq<char>,
    repo: Seq<char>,
    size_w: nat,
    cache_w: nat,
)
    requires
        size.len() <= size_w,
        cache.len() <= cache_w,
    ensures
        list_line(size, cache, repo, size_w, cache_w).len() == size_w + cache_w + 4 + repo.len(),
        list_line(size, cache, repo, size_w, cache_w).skip((size_w + cache_w + 4) as int) == repo,
{
    reveal_strlit("  ");
    assert("  "@.len() == 2);
    let s = list_line(size, cache, repo, size_w, cache_w);
    assert(s.skip((size_w + cache_w + 4) as int) =~= repo);
}

// ---------------------------------------------------------------------------
// Removing
// ---------------------------------------------------------------------------

/// The line that tells what was removed.
pub fn removed_line(dir: &str, size: u64) -> (r: String)
    ensures
        r@ == "removed "@ + dir@ + " ("@ + size_text(size as nat) + " freed)"@,
{
    cat5("removed ", dir, " (", &format_size(size), " freed)")
}

/// What is done to remove a cache directory.
pub enum CleanStep {
    /// Add up the sizes of what lies in it.
    Measure,
    /// Ask git for its worktrees with these arguments, and have it remove those
    /// that lie in the directory.
    RemoveWorktrees(Vec<String>),
    /// Remove the directory.
    RemoveDir,
    /// Have git forget worktrees that are gone.
    Prune(Vec<String>),
}

/// What a `CleanStep` says.
pub ghost enum CleanText {
    Measure,
    RemoveWorktrees(Seq<Seq<char>>),
    RemoveDir,
    Prune(Seq<Seq<char>>),
}

impl View for CleanStep {
    type V = CleanText;

    open spec fn view(&self) -> CleanText {
        match *self {
            CleanStep::Measure => CleanText::Measure,
            CleanStep::RemoveWorktrees(args) => CleanText::RemoveWorktrees(texts(args@)),
            CleanStep::RemoveDir => CleanText::RemoveDir,
            CleanStep::Prune(args) => CleanText::Prune(texts(args@)),
        }
    }
}

pub open spec fn step_texts(steps: Seq<CleanStep>) -> Seq<CleanText> {
    Seq::new(steps.len(), |i: int| steps[i]@)
}

/// Removing a cache directory: it is measured first, then git's worktrees in it
/// are removed if its repository is still there, then the directory, and git's
/// list is pruned.
pub open spec fn clean_plan(repo: Option<Seq<char>>) -> Seq<CleanText> {
    match repo {
        Some(repo) => seq![
            CleanText::Measure,
            CleanText::RemoveWorktrees(list_args_text(repo)),
            CleanText::RemoveDir,
            CleanText::Prune(seq!["-C"@, repo, "worktree"@, "prune"@]),
        ],
        None => seq![CleanText::Measure, CleanText::RemoveDir],
    }
}

pub open spec fn active_text(dir: Seq<char>) -> Seq<char> {
    "another cargo-bench-compare run is active on "@ + dir + "; wait for it, or remove "@ + joined(
        dir,
        "warm.lock"@,
    ) + " if the pid is wrong"@
}

/// The repository that a note names.
pub fn noted_repo(note: &str) -> (r: String)
    ensures
        r@ == trim_text(note@),
{
    trimmed(note)
}

/// What is done to remove a cache directory. It is an error while a run holds its
/// lock. `repo` is its repository, if that is known and still there.
pub fn clean_dir_inner(dir: &str, lock_held: bool, repo: Option<&str>) -> (r: Result<
    Vec<CleanStep>,
    String,
>)
    ensures
        match r {
            Ok(steps) => !lock_held && step_texts(steps@) == clean_plan(
                match repo {
                    Some(repo) => Some(repo@),
                    None => None,
                },
            ),
            Err(e) => lock_held && e@ == active_text(dir@),
        },
{
    if lock_held {
        return Err(
            cat5(
                "another cargo-bench-compare run is active on ",
                dir,
                "; wait for it, or remove ",
                &crate::paths::join(dir, "warm.lock"),
                " if the pid is wrong",
            ),
        );
    }
    let mut steps: Vec<CleanStep> = Vec::new();
    steps.push(CleanStep::Measure);
    if let Some(repo) = repo {
        steps.push(CleanStep::RemoveWorktrees(list_args(repo)));
    }
    steps.push(CleanStep::RemoveDir);
    if let Some(repo) = repo {
        steps.push(CleanStep::Prune(prune_args(repo)));
    }
    assert(step_texts(steps@) =~= clean_plan(
        match repo {
            Some(repo) => Some(repo@),
            None => None,
        },
    ));
    Ok(steps)
}

/// The size is taken before anything is removed, and git's worktrees are removed
/// before the directory.
pub proof fn law_clean_measures_first(repo: Option<Seq<char>>)
    ensures
        clean_plan(repo)[0] == CleanText::Measure,
        forall|i: int, j: int|
            0 <= i < clean_plan(repo).len() && 0 <= j < clean_plan(repo).len() && (
            #[trigger] clean_plan(repo)[i]) is RemoveWorktrees && (#[trigger] clean_plan(repo)[j])
                === CleanText::RemoveDir ==> i < j,
{
}

/// Those of a list of paths that lie at or below a directory.
pub open spec fn paths_below(paths: Seq<Seq<char>>, dir: Seq<char>) -> Seq<Seq<char>>
    decreases paths.len(),
{
    if paths.len() == 0 {
        seq![]
    } else if lies_below(paths.last(), dir) {
        paths_below(paths.drop_last(), dir).push(paths.last())
    } else {
        paths_below(paths.drop_last(), dir)
    }
}

/// The worktrees in a directory, out of git's list.
pub fn registered_worktrees(list: &str, dir: &str) -> (r: Vec<String>)
    ensures
        texts(r@) == paths_below(listed(lines_of(list@)), dir@),
{
    let all: Vec<String> = listed_worktrees(list);
    let ghost goal = texts(all@);
    let mut out: Vec<String> = Vec::new();
    let n: usize = all.len();
    let mut i: usize = 0;
    assert(texts(out@) =~= paths_below(goal.take(0), dir@));
    while i < n
        invariant
            n == all@.len(),
            i <= n,
            goal == texts(all@),
            texts(out@) == paths_below(goal.take(i as int), dir@),
        decreases n - i,
    {
        broadcast use lemma_texts_push;

        assert(goal.take(i + 1).drop_last() =~= goal.take(i as int));
        assert(goal.take(i + 1).last() == all@[i as int]@);
        if crate::paths::starts_with(&all[i], dir) {
            out.push(all[i].clone());
        }
        i = i + 1;
    }
    assert(goal.take(n as int) =~= goal);
    out
}

/// The arguments of git that remove a worktree.
pub fn remove_args(repo: &str, worktree: &str) -> (r: Vec<String>)
    ensures
        texts(r@) == seq!["-C"@, repo@, "worktree"@, "remove"@, "--force"@, worktree@],
{
    let r: Vec<String> = arguments(&["-C", repo, "worktree", "remove", "--force", worktree]);
    assert(texts(r@) =~= seq!["-C"@, repo@, "worktree"@, "remove"@, "--force"@, worktree@]);
    r
}

/// What is cleaned where not all caches are: the cache of the repository, if
/// there is one.
pub fn run(dir: &str, exists: bool) -> (r: Result<String, String>)
    ensures
        match r {
            Ok(s) => exists && s@ == dir@,
            Err(e) => !exists && e@ == "nothing cached for this repo"@,
        },
{
    if exists {
        Ok(dir.to_owned())
    } else {
        Err("nothing cached for this repo".to_owned())
    }
}

/// A number of whole units is the nearest one, the even one of two that are as near.
proof fn lemma_nearest(n: nat, d: nat)
    requires
        d > 0,
    ensures
        2 * n <= 2 * (nearest(n, d) * d) + d,
        2 * (nearest(n, d) * d) <= 2 * n + d,
        2 * n == 2 * (nearest(n, d) * d) + d ==> nearest(n, d) % 2 == 0,
        2 * (nearest(n, d) * d) == 2 * n + d ==> nearest(n, d) % 2 == 0,
{
    let q = n / d;
    let r = n % d;
    assert(n == q * d + r && 0 <= r < d) by (nonlinear_arith)
        requires
            d > 0,
            q == n / d,
            r == n % d,
    ;
    assert((q + 1) * d == q * d + d) by (nonlinear_arith);
}

proof fn lemma_excess(n: nat)
    ensures
        n < 0x20_0000_0000_0000 ==> two_to(excess_bits(n)) == 1,
        n >= 0x20_0000_0000_0000 ==> two_to(excess_bits(n)) * 0x10_0000_0000_0000 <= n,
        two_to(excess_bits(n)) >= 1,
    decreases n,
{
    if n >= 0x20_0000_0000_0000 {
        lemma_excess(n / 2);
    }
}

/// A size is written with one decimal, in MiB below 1024 of them and in GiB from
/// there on, as near to the number of bytes as that allows, and with the even digit
/// where two are as near. A number of bytes from 2^53 on is first brought to the one
/// that a double holds, which is off by one part in 2^53 at most.
pub proof fn law_sizes_are_rounded(bytes: nat) -> (r: (nat, nat))
    ensures
        bytes < 0x20_0000_0000_0000 ==> r.0 == bytes,
        0x20_0000_0000_0000 * r.0 <= 0x20_0000_0000_0001 * bytes,
        0x20_0000_0000_0000 * r.0 >= 0x1f_ffff_ffff_ffff * bytes,
        r.0 < 0x4000_0000 ==> {
            &&& size_text(bytes) == decimal(r.1 / 10) + "."@ + decimal(r.1 % 10) + " MiB"@
            &&& -0x10_0000 <= 2 * (10 * r.0 - 0x10_0000 * r.1) <= 0x10_0000
            &&& 2 * (10 * r.0 - 0x10_0000 * r.1) == 0x10_0000 ==> r.1 % 2 == 0
            &&& 2 * (0x10_0000 * r.1 - 10 * r.0) == 0x10_0000 ==> r.1 % 2 == 0
        },
        r.0 >= 0x4000_0000 ==> {
            &&& size_text(bytes) == decimal(r.1 / 10) + "."@ + decimal(r.1 % 10) + " GiB"@
            &&& -0x4000_0000 <= 2 * (10 * r.0 - 0x4000_0000 * r.1) <= 0x4000_0000
            &&& 2 * (10 * r.0 - 0x4000_0000 * r.1) == 0x4000_0000 ==> r.1 % 2 == 0
            &&& 2 * (0x4000_0000 * r.1 - 10 * r.0) == 0x4000_0000 ==> r.1 % 2 == 0
        },
{
    let n = as_double(bytes);
    lemma_as_double(bytes);
    if n >= 0x4000_0000 {
        let t = nearest(10 * n, 0x4000_0000);
        lemma_nearest(10 * n, 0x4000_0000);
        (n, t)
    } else {
        let t = nearest(10 * n, 0x10_0000);
        lemma_nearest(10 * n, 0x10_0000);
        (n, t)
    }
}

proof fn lemma_as_double(bytes: nat)
    ensures
        bytes < 0x20_0000_0000_0000 ==> as_double(bytes) == bytes,
        0x20_0000_0000_0000 * as_double(bytes) <= 0x20_0000_0000_0001 * bytes,
        0x20_0000_0000_0000 * as_double(bytes) >= 0x1f_ffff_ffff_ffff * bytes,
{
    let unit = two_to(excess_bits(bytes));
    let n = as_double(bytes);
    lemma_excess(bytes);
    if bytes < 0x20_0000_0000_0000 {
        assert(nearest(bytes, 1) == bytes);
        assert(n == bytes);
    } else {
        lemma_nearest(bytes, unit);
        assert(n == nearest(bytes, unit) * unit);
        assert(0x20_0000_0000_0000 * n <= 0x20_0000_0000_0000 * bytes + 0x10_0000_0000_0000 * unit);
        assert(0x20_0000_0000_0000 * bytes <= 0x20_0000_0000_0000 * n + 0x10_0000_0000_0000 * unit);
        assert(unit * 0x10_0000_0000_0000 == 0x10_0000_0000_0000 * unit);
    }
}

/// A directory is shown with the repository that its note names, whatever white space
/// stands around it, and with a dash where there is no note or it holds nothing else.
pub proof fn law_repo_is_as_noted(note: Seq<char>)
    ensures
        repo_words(None) == "-"@,
        trim_text(note).len() == 0 ==> repo_words(Some(note)) == "-"@,
        trim_text(note).len() > 0 ==> repo_words(Some(note)) == trim_text(note),
{
}

proof fn lemma_widths_are_of_entries(rows: Seq<(String, String, String)>)
    ensures
        size_width(rows) >= encode_utf8("SIZE"@).len(),
        cache_width(rows) >= encode_utf8("CACHE"@).len(),
        forall|i: int|
            0 <= i < rows.len() ==> encode_utf8((#[trigger] rows[i]).0@).len() <= size_width(rows),
        forall|i: int|
            0 <= i < rows.len() ==> encode_utf8((#[trigger] rows[i]).1@).len() <= cache_width(rows),
        size_width(rows) == encode_utf8("SIZE"@).len() || exists|i: int|
            0 <= i < rows.len() && encode_utf8((#[trigger] rows[i]).0@).len() == size_width(rows),
        cache_width(rows) == encode_utf8("CACHE"@).len() || exists|i: int|
            0 <= i < rows.len() && encode_utf8((#[trigger] rows[i]).1@).len() == cache_width(rows),
    decreases rows.len(),
{
    if rows.len() > 0 {
        let front = rows.drop_last();
        lemma_widths_are_of_entries(front);
        let n = rows.len() - 1;
        assert(rows[n] == rows.last());
        assert forall|i: int| 0 <= i < rows.len() implies encode_utf8(
            (#[trigger] rows[i]).0@,
        ).len() <= size_width(rows) && encode_utf8(rows[i].1@).len() <= cache_width(rows) by {
            if i < n {
                assert(front[i] == rows[i]);
            }
        }
        if exists|i: int|
            0 <= i < front.len() && encode_utf8((#[trigger] front[i]).0@).len() == size_width(
                front,
            ) {
            let i = choose|i: int|
                0 <= i < front.len() && encode_utf8((#[trigger] front[i]).0@).len() == size_width(
                    front,
                );
            assert(rows[i] == front[i]);
        }
        if exists|i: int|
            0 <= i < front.len() && encode_utf8((#[trigger] front[i]).1@).len() == cache_width(
                front,
            ) {
            let i = choose|i: int|
                0 <= i < front.len() && encode_utf8((#[trigger] front[i]).1@).len() == cache_width(
                    front,
                );
            assert(rows[i] == front[i]);
        }
    }
}

/// The list begins with a header and has a line for every row, in their order. A line
/// holds the size of its row up to a column, then the directory, then from a second
/// column on the repository, with blanks between them. The columns are as wide as
/// what is widest in them, in bytes.
pub proof fn law_list_shows_every_row(rows: Seq<(String, String, String)>, k: int) -> (r: (
    nat,
    nat,
))
    requires
        0 <= k <= rows.len(),
    ensures
        list_lines(rows).len() == rows.len() + 1,
        ({
            let line = list_lines(rows)[k];
            let size = if k == 0 {
                "SIZE"@
            } else {
                rows[k - 1].0@
            };
            let cache = if k == 0 {
                "CACHE"@
            } else {
                rows[k - 1].1@
            };
            let repo = if k == 0 {
                "REPO"@
            } else {
                rows[k - 1].2@
            };
            let at = (r.0 + 2) as int;
            let end = (r.0 + r.1 + 4) as int;
            &&& size.len() <= r.0 && cache.len() <= r.1
            &&& line.subrange(r.0 - size.len(), r.0 as int) == size
            &&& line.subrange(at, at + cache.len()) == cache
            &&& line.skip(end) == repo
            &&& forall|i: int| 0 <= i < r.0 - size.len() ==> line[i] == ' '
            &&& line[at - 2] == ' ' && line[at - 1] == ' '
            &&& forall|i: int| at + cache.len() <= i < end ==> line[i] == ' '
        }),
        r.0 >= encode_utf8("SIZE"@).len(),
        r.1 >= encode_utf8("CACHE"@).len(),
        forall|i: int| 0 <= i < rows.len() ==> encode_utf8((#[trigger] rows[i]).0@).len() <= r.0,
        forall|i: int| 0 <= i < rows.len() ==> encode_utf8((#[trigger] rows[i]).1@).len() <= r.1,
        r.0 == encode_utf8("SIZE"@).len() || exists|i: int|
            0 <= i < rows.len() && encode_utf8((#[trigger] rows[i]).0@).len() == r.0,
        r.1 == encode_utf8("CACHE"@).len() || exists|i: int|
            0 <= i < rows.len() && encode_utf8((#[trigger] rows[i]).1@).len() == r.1,
{
    let w = (size_width(rows), cache_width(rows));
    lemma_widths_are_of_entries(rows);
    if k == 0 {
        lemma_header_widths(rows);
        lemma_line_is("SIZE"@, "CACHE"@, "REPO"@, w.0, w.1);
    } else {
        lemma_list_widths(rows, k - 1);
        lemma_line_is(rows[k - 1].0@, rows[k - 1].1@, rows[k - 1].2@, w.0, w.1);
    }
    w
}

proof fn lemma_line_is(
    size: Seq<char>,
    cache: Seq<char>,
    repo: Seq<char>,
    size_w: nat,
    cache_w: nat,
)
    requires
        size.len() <= size_w,
        cache.len() <= cache_w,
    ensures
        ({
            let line = list_line(size, cache, repo, size_w, cache_w);
            let at = (size_w + 2) as int;
            let end = (size_w + cache_w + 4) as int;
            &&& line.subrange(size_w - size.len(), size_w as int) == size
            &&& line.subrange(at, at + cache.len()) == cache
            &&& line.skip(end) == repo
            &&& forall|i: int| 0 <= i < size_w - size.len() ==> line[i] == ' '
            &&& line[at - 2] == ' ' && line[at - 1] == ' '
            &&& forall|i: int| at + cache.len() <= i < end ==> line[i] == ' '
        }),
{
    reveal_strlit("  ");
    let line = list_line(size, cache, repo, size_w, cache_w);
    let at = (size_w + 2) as int;
    let end = (size_w + cache_w + 4) as int;
    assert(line.subrange(size_w - size.len(), size_w as int) =~= size);
    assert(line.subrange(at, at + cache.len()) =~= cache);
    assert(line.skip(end) =~= repo);
}

/// A directory whose repository is gone is measured and removed. Where the repository
/// is there, git is asked for its worktrees in between, and told to forget those that
/// are gone when the directory is removed.
pub proof fn law_clean_is_done_in_order(repo: Seq<char>)
    ensures
        clean_plan(None) == seq![CleanText::Measure, CleanText::RemoveDir],
        clean_plan(Some(repo)) == seq![
            CleanText::Measure,
            CleanText::RemoveWorktrees(
                seq!["-C"@, repo, "worktree"@, "list"@, "--porcelain"@],
            ),
            CleanText::RemoveDir,
            CleanText::Prune(seq!["-C"@, repo, "worktree"@, "prune"@]),
        ],
{
}

/// Of git's worktrees exactly those are removed whose components begin with all of
/// the directory's, in git's order.
pub proof fn law_only_worktrees_below_are_removed(paths: Seq<Seq<char>>, dir: Seq<char>)
    ensures
        paths_below(paths, dir) == paths.filter(
            |path: Seq<char>|
                components_of(dir).len() <= components_of(path).len() && forall|i: int|
                    0 <= i < components_of(dir).len() ==> components_of(path)[i] == components_of(
                        dir,
                    )[i],
        ),
    decreases paths.len(),
{
    reveal(Seq::filter);
    if paths.len() > 0 {
        law_only_worktrees_below_are_removed(paths.drop_last(), dir);
        let path = paths.last();
        let a = components_of(path);
        let b = components_of(dir);
        if b.len() <= a.len() {
            if a.take(b.len() as int) == b {
                assert forall|i: int| 0 <= i < b.len() implies a[i] == b[i] by {
                    assert(a.take(b.len() as int)[i] == b[i]);
                }
            }
            if forall|i: int| 0 <= i < b.len() ==> a[i] == b[i] {
                assert(a.take(b.len() as int) =~= b);
            }
        }
    }
}

/// A cache whose lock is held names its directory, and the lock that lies in it.
pub proof fn law_held_caches_are_told(dir: Seq<char>)
    requires
        dir.len() > 0,
        dir.last() != '/',
    ensures
        active_text(dir) == "another cargo-bench-compare run is active on "@ + dir
            + "; wait for it, or remove "@ + dir + "/warm.lock if the pid is wrong"@,
{
    reveal_strlit("warm.lock");
    reveal_strlit(" if the pid is wrong");
    reveal_strlit("/warm.lock if the pid is wrong");
    law_join_sets_one_slash(dir, "warm.lock"@);
    assert(active_text(dir) =~= "another cargo-bench-compare run is active on "@ + dir
        + "; wait for it, or remove "@ + dir + "/warm.lock if the pid is wrong"@);
}

} // verus!
