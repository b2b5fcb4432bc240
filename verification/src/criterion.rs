//! The results that criterion leaves behind: where they lie, what they are called
//! and in which order they are reported.
use crate::order::{
    lemma_before_total, lemma_before_transitive, stands_before, text_before,
};
use crate::paths::{joined, name_of, parent_name_of, same_place};
use crate::text::{cat5, same_text, texts};
use vstd::prelude::*;

verus! {

/// What a directory among criterion's results is for.
pub struct Visit {
    /// It is criterion's own report, and not looked into.
    pub skip: bool,
    /// It may hold results of the baseline: it has the baseline's name.
    pub named: bool,
    /// The file with the estimates. Without it there are no results.
    pub estimates: String,
    /// The file with the benchmark's full name.
    pub benchmark: String,
    /// The benchmark's name where that file is missing.
    pub fallback_id: String,
}

/// The name of a benchmark that does not say its own: that of the directory above
/// its results, else the baseline's.
pub open spec fn fallback_name(dir: Seq<char>, label: Seq<char>) -> Seq<char> {
    match parent_name_of(dir) {
        Some(name) => name,
        None => label,
    }
}

/// What a directory is for, below the root of criterion's results, to the
/// baseline with a label.
pub fn walk(root: &str, dir: &str, label: &str) -> (r: Visit)
    ensures
        r.skip == same_place(dir@, joined(root@, "report"@)),
        r.named == (name_of(dir@) == Some(label@)),
        r.estimates@ == joined(dir@, "estimates.json"@),
        r.benchmark@ == joined(dir@, "benchmark.json"@),
        r.fallback_id@ == fallback_name(dir@, label@),
{
    let named: bool = match crate::paths::file_name(dir) {
        Some(name) => same_text(&name, label),
        None => false,
    };
    let fallback_id: String = match crate::paths::parent_name(dir) {
        Some(name) => name,
        None => label.to_owned(),
    };
    Visit {
        skip: crate::paths::same_path(dir, &crate::paths::join(root, "report")),
        named,
        estimates: crate::paths::join(dir, "estimates.json"),
        benchmark: crate::paths::join(dir, "benchmark.json"),
        fallback_id,
    }
}

impl Visit {
    /// Whether the directory holds results of the baseline: it has the baseline's
    /// name and the file with the estimates.
    pub open spec fn has_results(self, estimates: bool) -> bool {
        !self.skip && self.named && estimates
    }

    /// Whether the directory holds results. `estimates` says whether the file with
    /// the estimates is there.
    pub fn holds_results(&self, estimates: bool) -> (r: bool)
        ensures
            r == self.has_results(estimates),
    {
        !self.skip && self.named && estimates
    }

    /// The full name of the benchmark whose results the directory holds, if it
    /// does. `estimates` and `benchmark` say whether the two files are there, and
    /// `read` is the name in the second, which counts only where it is there.
    pub fn result_id(&self, estimates: bool, benchmark: bool, read: Option<&str>) -> (r: Option<
        String,
    >)
        ensures
            match r {
                Some(id) => self.has_results(estimates) && id@ == (match read {
                    Some(name) if benchmark => name@,
                    _ => self.fallback_id@,
                }),
                None => !self.has_results(estimates),
            },
    {
        if !self.holds_results(estimates) {
            return None;
        }
        match read {
            Some(name) if benchmark => Some(name.to_owned()),
            _ => Some(self.fallback_id.clone()),
        }
    }
}

/// The label of the baseline of a revision.
pub fn baseline_label(short: &str) -> (r: String)
    ensures
        r@ == "bcmp-"@ + short@,
{
    crate::text::cat2("bcmp-", short)
}

/// The root of criterion's results.
pub fn results_root(target_dir: &str) -> (r: String)
    ensures
        r@ == joined(target_dir@, "criterion"@),
{
    crate::paths::join(target_dir, "criterion")
}

/// A list of places with `k` behind all whose names do not follow its own.
pub open spec fn place_inserted(order: Seq<usize>, ids: Seq<Seq<char>>, k: usize) -> Seq<usize>
    decreases order.len(),
{
    if order.len() > 0 && text_before(ids[k as int], ids[order.last() as int]) {
        place_inserted(order.drop_last(), ids, k).push(order.last())
    } else {
        order.push(k)
    }
}

/// The places of the first `n` names, in the order of the names.
pub open spec fn name_order(ids: Seq<Seq<char>>, n: nat) -> Seq<usize>
    decreases n,
{
    if n == 0 {
        seq![]
    } else {
        place_inserted(name_order(ids, (n - 1) as nat), ids, (n - 1) as usize)
    }
}

proof fn lemma_place_inserted_at(order: Seq<usize>, ids: Seq<Seq<char>>, k: usize, i: int)
    requires
        0 <= i <= order.len(),
        forall|j: int|
            i <= j < order.len() ==> text_before(ids[k as int], ids[#[trigger] order[j] as int]),
        i > 0 ==> !text_before(ids[k as int], ids[order[i - 1] as int]),
    ensures
        place_inserted(order, ids, k) == order.insert(i, k),
    decreases order.len(),
{
    if i < order.len() {
        let front = order.drop_last();
        assert forall|j: int| i <= j < front.len() implies text_before(
            ids[k as int],
            ids[#[trigger] front[j] as int],
        ) by {
            assert(front[j] == order[j]);
        }
        assert(order[order.len() - 1] == order.last());
        lemma_place_inserted_at(front, ids, k, i);
        assert(front.insert(i, k).push(order.last()) =~= order.insert(i, k));
    } else {
        assert(order.push(k) =~= order.insert(i, k));
    }
}

pub open spec fn no_results_text(target_dir: Seq<char>, label: Seq<char>) -> Seq<char> {
    "no criterion results found under "@ + target_dir + "/criterion for baseline '"@ + label
        + "' — did the bench run?"@
}

/// The order in which results are reported, as places in the list of their names:
/// by name, and where names are equal as they were found. It is an error if there
/// are none.
pub fn collect(target_dir: &str, label: &str, ids: &[String]) -> (r: Result<Vec<usize>, String>)
    ensures
        match r {
            Ok(order) => ids@.len() > 0 && order@ == name_order(texts(ids@), ids@.len()),
            Err(e) => ids@.len() == 0 && e@ == no_results_text(target_dir@, label@),
        },
{
    if ids.len() == 0 {
        return Err(
            cat5(
                "no criterion results found under ",
                target_dir,
                "/criterion for baseline '",
                label,
                "' — did the bench run?",
            ),
        );
    }
    let ghost names = texts(ids@);
    let mut out: Vec<usize> = Vec::new();
    let n: usize = ids.len();
    let mut k: usize = 0;
    while k < n
        invariant
            n == ids@.len(),
            k <= n,
            names == texts(ids@),
            out@ == name_order(names, k as nat),
            forall|j: int| 0 <= j < out@.len() ==> #[trigger] out@[j] < n,
        decreases n - k,
    {
        let ghost before = out@;
        let mut i: usize = out.len();
        while i > 0 && stands_before(&ids[k], &ids[out[i - 1]])
            invariant
                n == ids@.len(),
                k < n,
                names == texts(ids@),
                i <= out@.len(),
                out@ == before,
                forall|j: int| 0 <= j < out@.len() ==> #[trigger] out@[j] < n,
                forall|j: int|
                    i <= j < before.len() ==> text_before(
                        names[k as int],
                        names[#[trigger] before[j] as int],
                    ),
            decreases i,
        {
            i = i - 1;
        }
        out.insert(i, k);
        proof {
            lemma_place_inserted_at(before, names, k, i as int);
        }
        k = k + 1;
    }
    Ok(out)
}

/// One place stands before another: by name, and where the names are equal by
/// number.
pub open spec fn place_before(ids: Seq<Seq<char>>, a: usize, b: usize) -> bool {
    text_before(ids[a as int], ids[b as int]) || (ids[a as int] == ids[b as int] && a < b)
}

/// The order holds every place once, and every place stands before those that
/// follow it.
pub proof fn law_name_order(ids: Seq<Seq<char>>, n: nat)
    requires
        n <= ids.len(),
        ids.len() <= usize::MAX,
    ensures
        name_order(ids, n).len() == n,
        forall|k: usize| #[trigger] name_order(ids, n).contains(k) <==> k < n,
        forall|i: int, j: int|
            0 <= i < j < n ==> place_before(
                ids,
                #[trigger] name_order(ids, n)[i],
                #[trigger] name_order(ids, n)[j],
            ),
    decreases n,
{
    if n > 0 {
        let m = (n - 1) as nat;
        law_name_order(ids, m);
        assert forall|j: int| 0 <= j < name_order(ids, m).len() implies #[trigger] name_order(
            ids,
            m,
        )[j] < m as usize by {
            assert(name_order(ids, m).contains(name_order(ids, m)[j]));
        }
        lemma_place_inserted(name_order(ids, m), ids, m as usize);
        let before = name_order(ids, m);
        let out = name_order(ids, n);
        assert forall|k: usize| #[trigger] out.contains(k) <==> k < n by {
            assert(before.contains(k) <==> k < m);
        }
    }
}

proof fn lemma_place_inserted(order: Seq<usize>, ids: Seq<Seq<char>>, k: usize)
    requires
        forall|j: int| 0 <= j < order.len() ==> #[trigger] order[j] < k,
        forall|i: int, j: int|
            0 <= i < j < order.len() ==> place_before(
                ids,
                #[trigger] order[i],
                #[trigger] order[j],
            ),
    ensures
        ({
            let out = place_inserted(order, ids, k);
            &&& out.len() == order.len() + 1
            &&& forall|x: usize| #[trigger] out.contains(x) <==> order.contains(x) || x == k
            &&& forall|i: int, j: int|
                0 <= i < j < out.len() ==> place_before(
                    ids,
                    #[trigger] out[i],
                    #[trigger] out[j],
                )
        }),
    decreases order.len(),
{
    let out = place_inserted(order, ids, k);
    if order.len() > 0 && text_before(ids[k as int], ids[order.last() as int]) {
        let front = order.drop_last();
        let rest = place_inserted(front, ids, k);
        assert forall|j: int| 0 <= j < front.len() implies #[trigger] front[j] < k by {
            assert(front[j] == order[j]);
        }
        assert forall|i: int, j: int| 0 <= i < j < front.len() implies place_before(
            ids,
            #[trigger] front[i],
            #[trigger] front[j],
        ) by {
            assert(front[i] == order[i] && front[j] == order[j]);
        }
        lemma_place_inserted(front, ids, k);
        assert forall|x: usize| #[trigger] out.contains(x) <==> order.contains(x) || x == k by {
            if out.contains(x) {
                let i = choose|i: int| 0 <= i < out.len() && out[i] == x;
                if i < rest.len() {
                    assert(rest.contains(x));
                    if x != k {
                        let m = choose|m: int| 0 <= m < front.len() && front[m] == x;
                        assert(order[m] == x);
                    }
                } else {
                    assert(order[order.len() - 1] == x);
                }
            }
            if order.contains(x) || x == k {
                if x == order.last() {
                    assert(out[out.len() - 1] == x);
                } else {
                    if order.contains(x) {
                        let m = choose|m: int| 0 <= m < order.len() && order[m] == x;
                        assert(front[m] == x);
                    }
                    assert(rest.contains(x));
                    let m = choose|m: int| 0 <= m < rest.len() && rest[m] == x;
                    assert(out[m] == x);
                }
            }
        }
        assert forall|i: int, j: int| 0 <= i < j < out.len() implies place_before(
            ids,
            #[trigger] out[i],
            #[trigger] out[j],
        ) by {
            if j == out.len() - 1 {
                assert(out[i] == rest[i]);
                assert(rest.contains(rest[i]));
                if rest[i] != k {
                    let m = choose|m: int| 0 <= m < front.len() && front[m] == rest[i];
                    assert(place_before(ids, order[m], order[order.len() - 1]));
                }
            } else {
                assert(out[i] == rest[i] && out[j] == rest[j]);
            }
        }
    } else {
        assert forall|x: usize| #[trigger] out.contains(x) <==> order.contains(x) || x == k by {
            if order.contains(x) {
                let m = choose|m: int| 0 <= m < order.len() && order[m] == x;
                assert(out[m] == x);
            }
            if x == k {
                assert(out[order.len() as int] == x);
            }
        }
        assert forall|i: int, j: int| 0 <= i < j < out.len() implies place_before(
            ids,
            #[trigger] out[i],
            #[trigger] out[j],
        ) by {
            if j == order.len() {
                let last = order[order.len() - 1];
                lemma_before_total(ids[k as int], ids[last as int]);
                if i < order.len() - 1 {
                    assert(place_before(ids, order[i], last));
                    if text_before(ids[order[i] as int], ids[last as int]) && text_before(
                        ids[last as int],
                        ids[k as int],
                    ) {
                        lemma_before_transitive(
                            ids[order[i] as int],
                            ids[last as int],
                            ids[k as int],
                        );
                    }
                }
                assert(order[i] < k);
            } else {
                assert(out[i] == order[i] && out[j] == order[j]);
            }
        }
    }
}

/// A directory holds results of a baseline exactly where it has the baseline's name,
/// the file with the estimates is there, and it is not criterion's own report.
pub proof fn law_what_holds_results(visit: Visit, estimates: bool)
    ensures
        visit.has_results(estimates) <==> visit.named && estimates && !visit.skip,
{
}

/// A benchmark that does not say its name is called after the directory above its
/// results, and after the baseline where that has no name.
pub proof fn law_unnamed_benchmarks(dir: Seq<char>, label: Seq<char>)
    ensures
        parent_name_of(dir) matches Some(name) ==> fallback_name(dir, label) == name,
        parent_name_of(dir) is None ==> fallback_name(dir, label) == label,
{
}

/// Results are reported by name, and where names are equal as they were found; each of
/// them once.
pub proof fn law_results_are_ordered(ids: Seq<Seq<char>>, i: int, j: int)
    requires
        ids.len() <= usize::MAX,
        0 <= i < j < ids.len(),
    ensures
        ({
            let order = name_order(ids, ids.len());
            let a = order[i] as int;
            let b = order[j] as int;
            &&& order.len() == ids.len()
            &&& 0 <= a < ids.len() && 0 <= b < ids.len() && a != b
            &&& text_before(ids[a], ids[b]) || (ids[a] == ids[b] && a < b)
        }),
{
    law_name_order(ids, ids.len());
    let order = name_order(ids, ids.len());
    assert(order.contains(order[i]) && order.contains(order[j]));
    if order[i] == order[j] {
        crate::order::lemma_before_irreflexive(ids[order[i] as int]);
    }
}

/// Where there are no results, the place and the baseline are told.
pub proof fn law_missing_results_are_told(target_dir: Seq<char>, label: Seq<char>)
    ensures
        no_results_text(target_dir, label) == "no criterion results found under "@ + target_dir
            + "/criterion for baseline '"@ + label + "' — did the bench run?"@,
{
}

} // verus!
