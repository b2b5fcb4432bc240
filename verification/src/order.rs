//! The order of texts, and lists of texts kept in that order.
use crate::text::{chars_of, texts};
use vstd::prelude::*;

verus! {

/// `a` stands before `b`: at the first place where they differ, `a` ends or has
/// the smaller character.
pub open spec fn text_before(a: Seq<char>, b: Seq<char>) -> bool
    decreases b.len(),
{
    if b.len() == 0 {
        false
    } else if a.len() == 0 {
        true
    } else if a[0] == b[0] {
        text_before(a.skip(1), b.skip(1))
    } else {
        a[0] < b[0]
    }
}

pub proof fn lemma_before_irreflexive(a: Seq<char>)
    ensures
        !text_before(a, a),
    decreases a.len(),
{
    if a.len() > 0 {
        lemma_before_irreflexive(a.skip(1));
    }
}

pub proof fn lemma_before_transitive(a: Seq<char>, b: Seq<char>, c: Seq<char>)
    requires
        text_before(a, b),
        text_before(b, c),
    ensures
        text_before(a, c),
    decreases c.len(),
{
    if a.len() > 0 && a[0] == b[0] && b[0] == c[0] {
        lemma_before_transitive(a.skip(1), b.skip(1), c.skip(1));
    }
}

pub proof fn lemma_before_total(a: Seq<char>, b: Seq<char>)
    ensures
        a == b || text_before(a, b) || text_before(b, a),
    decreases a.len(),
{
    if a.len() == 0 || b.len() == 0 {
        if a.len() == b.len() {
            assert(a =~= b);
        }
    } else if a[0] == b[0] {
        lemma_before_total(a.skip(1), b.skip(1));
        if a.skip(1) == b.skip(1) {
            assert(a =~= seq![a[0]] + a.skip(1));
            assert(b =~= seq![b[0]] + b.skip(1));
        }
    }
}

/// Whether `a` stands before `b`.
pub fn stands_before(a: &str, b: &str) -> (r: bool)
    ensures
        r == text_before(a@, b@),
{
    let x: Vec<char> = chars_of(a);
    let y: Vec<char> = chars_of(b);
    let mut i: usize = 0;
    assert(x@.skip(0) =~= x@);
    assert(y@.skip(0) =~= y@);
    while i < x.len() && i < y.len() && x[i] == y[i]
        invariant
            i <= x@.len(),
            i <= y@.len(),
            text_before(x@, y@) == text_before(x@.skip(i as int), y@.skip(i as int)),
        decreases x@.len() - i,
    {
        assert(x@.skip(i as int).skip(1) =~= x@.skip(i + 1));
        assert(y@.skip(i as int).skip(1) =~= y@.skip(i + 1));
        i = i + 1;
    }
    if i >= y.len() {
        false
    } else if i >= x.len() {
        true
    } else {
        x[i] < y[i]
    }
}

/// Every text stands before all that follow it; so no text occurs twice.
pub open spec fn ascending_texts(list: Seq<Seq<char>>) -> bool {
    forall|i: int, j: int| 0 <= i < j < list.len() ==> text_before(list[i], list[j])
}

/// Two ascending lists with the same members are the same list.
pub proof fn law_ascending_texts_unique(a: Seq<Seq<char>>, b: Seq<Seq<char>>)
    requires
        ascending_texts(a),
        ascending_texts(b),
        forall|s: Seq<char>| a.contains(s) <==> b.contains(s),
    ensures
        a == b,
    decreases a.len(),
{
    if a.len() == 0 {
        if b.len() > 0 {
            assert(b.contains(b[0]));
        }
        assert(a =~= b);
    } else {
        assert(a.contains(a[0]));
        assert(b.contains(a[0]));
        assert(b.contains(b[0]));
        assert(a.contains(b[0]));
        let k = choose|k: int| 0 <= k < b.len() && b[k] == a[0];
        let m = choose|m: int| 0 <= m < a.len() && a[m] == b[0];
        if a[0] != b[0] {
            assert(text_before(b[0], b[k]));
            assert(text_before(a[0], a[m]));
            lemma_before_transitive(a[0], b[0], a[0]);
            lemma_before_irreflexive(a[0]);
        }
        let x = a.skip(1);
        let y = b.skip(1);
        assert forall|s: Seq<char>| x.contains(s) <==> y.contains(s) by {
            lemma_before_irreflexive(s);
            if x.contains(s) {
                let i = choose|i: int| 0 <= i < x.len() && x[i] == s;
                assert(a[i + 1] == s);
                assert(a.contains(s));
                assert(text_before(a[0], a[i + 1]));
                let j = choose|j: int| 0 <= j < b.len() && b[j] == s;
                assert(j != 0);
                assert(y[j - 1] == s);
            }
            if y.contains(s) {
                let i = choose|i: int| 0 <= i < y.len() && y[i] == s;
                assert(b[i + 1] == s);
                assert(b.contains(s));
                assert(text_before(b[0], b[i + 1]));
                let j = choose|j: int| 0 <= j < a.len() && a[j] == s;
                assert(j != 0);
                assert(x[j - 1] == s);
            }
        }
        law_ascending_texts_unique(x, y);
        assert(a =~= seq![a[0]] + x);
        assert(b =~= seq![b[0]] + y);
    }
}

/// An ascending list with `t` at its place, unless it is there.
pub open spec fn once(list: Seq<Seq<char>>, t: Seq<char>) -> Seq<Seq<char>>
    decreases list.len(),
{
    if list.len() == 0 {
        seq![t]
    } else if list.last() == t {
        list
    } else if text_before(list.last(), t) {
        list.push(t)
    } else {
        once(list.drop_last(), t).push(list.last())
    }
}

proof fn lemma_once(list: Seq<Seq<char>>, t: Seq<char>)
    requires
        ascending_texts(list),
    ensures
        ascending_texts(once(list, t)),
        forall|x: Seq<char>| #[trigger]
            once(list, t).contains(x) <==> list.contains(x) || x == t,
    decreases list.len(),
{
    let out = once(list, t);
    if list.len() == 0 {
        assert forall|x: Seq<char>| #[trigger] out.contains(x) <==> list.contains(x) || x == t by {
            if x == t {
                assert(out[0] == t);
            }
        }
    } else if list.last() == t {
        assert(list.contains(t));
    } else if text_before(list.last(), t) {
        assert forall|i: int, j: int| 0 <= i < j < out.len() implies text_before(
            out[i],
            out[j],
        ) by {
            if j == list.len() && i < list.len() - 1 {
                lemma_before_transitive(list[i], list.last(), t);
            }
        }
        assert forall|x: Seq<char>| #[trigger] out.contains(x) <==> list.contains(x) || x == t by {
            if list.contains(x) {
                let k = choose|k: int| 0 <= k < list.len() && list[k] == x;
                assert(out[k] == x);
            }
            if x == t {
                assert(out.last() == x);
            }
        }
    } else {
        let front = list.drop_last();
        let rest = once(front, t);
        lemma_once(front, t);
        lemma_before_total(list.last(), t);
        assert forall|i: int, j: int| 0 <= i < j < out.len() implies text_before(
            out[i],
            out[j],
        ) by {
            if j == out.len() - 1 {
                assert(rest.contains(rest[i]));
                if rest[i] != t {
                    let k = choose|k: int| 0 <= k < front.len() && front[k] == rest[i];
                    assert(text_before(list[k], list.last()));
                }
            } else {
                assert(out[i] == rest[i] && out[j] == rest[j]);
            }
        }
        assert forall|x: Seq<char>| #[trigger] out.contains(x) <==> list.contains(x) || x == t by {
            if out.contains(x) {
                let k = choose|k: int| 0 <= k < out.len() && out[k] == x;
                if k < rest.len() {
                    assert(rest.contains(x));
                    if x != t {
                        let m = choose|m: int| 0 <= m < front.len() && front[m] == x;
                        assert(list[m] == x);
                    }
                } else {
                    assert(list[list.len() - 1] == x);
                }
            }
            if list.contains(x) || x == t {
                if x == list.last() {
                    assert(out.last() == x);
                } else {
                    if list.contains(x) {
                        let m = choose|m: int| 0 <= m < list.len() && list[m] == x;
                        assert(front[m] == x);
                    }
                    assert(rest.contains(x));
                    let k = choose|k: int| 0 <= k < rest.len() && rest[k] == x;
                    assert(out[k] == x);
                }
            }
        }
    }
}

/// The texts of a list in order, each once.
pub open spec fn text_set(list: Seq<Seq<char>>) -> Seq<Seq<char>>
    decreases list.len(),
{
    if list.len() == 0 {
        seq![]
    } else {
        once(text_set(list.drop_last()), list.last())
    }
}

/// `text_set` is ascending and has the members of the list.
pub proof fn law_text_set(list: Seq<Seq<char>>)
    ensures
        ascending_texts(text_set(list)),
        forall|x: Seq<char>| #[trigger] text_set(list).contains(x) <==> list.contains(x),
    decreases list.len(),
{
    if list.len() > 0 {
        let front = list.drop_last();
        law_text_set(front);
        lemma_once(text_set(front), list.last());
        assert forall|x: Seq<char>| #[trigger] text_set(list).contains(x) <==> list.contains(
            x,
        ) by {
            if list.contains(x) && x != list.last() {
                let k = choose|k: int| 0 <= k < list.len() && list[k] == x;
                assert(front[k] == x);
            }
            if front.contains(x) {
                let k = choose|k: int| 0 <= k < front.len() && front[k] == x;
                assert(list[k] == x);
            }
            if x == list.last() {
                assert(list[list.len() - 1] == x);
            }
        }
    }
}

/// Only the members count: two lists with the same members give one set.
pub proof fn law_text_set_members(a: Seq<Seq<char>>, b: Seq<Seq<char>>)
    requires
        forall|x: Seq<char>| a.contains(x) <==> b.contains(x),
    ensures
        text_set(a) == text_set(b),
{
    law_text_set(a);
    law_text_set(b);
    assert forall|x: Seq<char>| text_set(a).contains(x) <==> text_set(b).contains(x) by {
        assert(a.contains(x) <==> b.contains(x));
    }
    law_ascending_texts_unique(text_set(a), text_set(b));
}

/// Adds a text to an ascending list, at its place, unless it is there.
pub fn insert_text(list: &mut Vec<String>, s: &str)
    requires
        ascending_texts(texts(old(list)@)),
    ensures
        ascending_texts(texts(final(list)@)),
        texts(final(list)@) == once(texts(old(list)@), s@),
{
    let ghost before = texts(list@);
    let mut i: usize = list.len();
    while i > 0 && !stands_before(&list[i - 1], s)
        invariant
            i <= list@.len(),
            before == texts(list@),
            ascending_texts(before),
            forall|j: int| i <= j < list@.len() ==> text_before(s@, before[j]),
        decreases i,
    {
        proof {
            lemma_before_total(before[i - 1], s@);
        }
        if crate::text::same_text(&list[i - 1], s) {
            assert(before[i - 1] == s@);
            proof {
                lemma_once(before, s@);
                assert(before.contains(s@));
                law_ascending_texts_unique(before, once(before, s@));
            }
            return;
        }
        i = i - 1;
    }
    list.insert(i, s.to_owned());
    let ghost after = texts(list@);
    assert(after =~= before.insert(i as int, s@));
    proof {
        assert forall|x: int, y: int| 0 <= x < y < after.len() implies text_before(
            after[x],
            after[y],
        ) by {
            if x < i && y == i && x < i - 1 {
                lemma_before_transitive(before[x], before[i - 1], s@);
            }
        }
        assert forall|t: Seq<char>| #[trigger]
            after.contains(t) <==> before.contains(t) || t == s@ by {
            if after.contains(t) {
                let j = choose|j: int| 0 <= j < after.len() && after[j] == t;
                if j < i {
                    assert(before[j] == t);
                } else if j > i {
                    assert(before[j - 1] == t);
                }
            }
            if before.contains(t) {
                let j = choose|j: int| 0 <= j < before.len() && before[j] == t;
                if j < i {
                    assert(after[j] == t);
                } else {
                    assert(after[j + 1] == t);
                }
            }
            if t == s@ {
                assert(after[i as int] == t);
            }
        }
        lemma_once(before, s@);
        law_ascending_texts_unique(after, once(before, s@));
    }
}

/// The strings of a list in order, each once.
pub fn set_of(list: &[String]) -> (r: Vec<String>)
    ensures
        texts(r@) == text_set(texts(list@)),
{
    let mut out: Vec<String> = Vec::new();
    let n: usize = list.len();
    let mut i: usize = 0;
    let ghost all = texts(list@);
    assert(texts(out@) =~= text_set(all.take(0)));
    while i < n
        invariant
            n == list@.len(),
            i <= n,
            all == texts(list@),
            texts(out@) == text_set(all.take(i as int)),
        decreases n - i,
    {
        proof {
            law_text_set(all.take(i as int));
            assert(all.take(i + 1).drop_last() =~= all.take(i as int));
        }
        insert_text(&mut out, &list[i]);
        i = i + 1;
    }
    assert(all.take(n as int) =~= all);
    out
}

/// Every text stands before, or equals, all that follow it.
pub open spec fn sorted_texts(list: Seq<Seq<char>>) -> bool {
    forall|i: int, j: int| 0 <= i < j < list.len() ==> !text_before(list[j], list[i])
}

/// An ordered list with `t` behind everything that does not follow it.
pub open spec fn placed(list: Seq<Seq<char>>, t: Seq<char>) -> Seq<Seq<char>>
    decreases list.len(),
{
    if list.len() > 0 && text_before(t, list.last()) {
        placed(list.drop_last(), t).push(list.last())
    } else {
        list.push(t)
    }
}

/// The texts of a list in order, equal ones kept.
pub open spec fn sorted_copy(list: Seq<Seq<char>>) -> Seq<Seq<char>>
    decreases list.len(),
{
    if list.len() == 0 {
        seq![]
    } else {
        placed(sorted_copy(list.drop_last()), list.last())
    }
}

proof fn lemma_placed_at(list: Seq<Seq<char>>, t: Seq<char>, i: int)
    requires
        0 <= i <= list.len(),
        forall|j: int| i <= j < list.len() ==> text_before(t, list[j]),
        i > 0 ==> !text_before(t, list[i - 1]),
    ensures
        placed(list, t) == list.insert(i, t),
    decreases list.len(),
{
    if i < list.len() {
        let front = list.drop_last();
        lemma_placed_at(front, t, i);
        assert(front.insert(i, t).push(list.last()) =~= list.insert(i, t));
    } else {
        assert(list.push(t) =~= list.insert(i, t));
    }
}

/// The texts of a list in order, equal ones kept.
pub fn sort_texts(list: &[String]) -> (r: Vec<String>)
    ensures
        texts(r@) == sorted_copy(texts(list@)),
{
    let mut out: Vec<String> = Vec::new();
    let n: usize = list.len();
    let mut k: usize = 0;
    let ghost all = texts(list@);
    assert(texts(out@) =~= sorted_copy(all.take(0)));
    while k < n
        invariant
            n == list@.len(),
            k <= n,
            all == texts(list@),
            texts(out@) == sorted_copy(all.take(k as int)),
        decreases n - k,
    {
        let ghost before = texts(out@);
        let mut i: usize = out.len();
        while i > 0 && stands_before(&list[k], &out[i - 1])
            invariant
                k < list@.len(),
                i <= out@.len(),
                before == texts(out@),
                forall|j: int| i <= j < out@.len() ==> text_before(list@[k as int]@, before[j]),
            decreases i,
        {
            i = i - 1;
        }
        out.insert(i, list[k].clone());
        proof {
            assert(texts(out@) =~= before.insert(i as int, all[k as int]));
            lemma_placed_at(before, all[k as int], i as int);
            assert(all.take(k + 1).drop_last() =~= all.take(k as int));
        }
        k = k + 1;
    }
    assert(all.take(n as int) =~= all);
    out
}

/// `sorted_copy` orders the list and keeps each text as often as it occurs.
pub proof fn law_sorted_copy(list: Seq<Seq<char>>)
    ensures
        sorted_texts(sorted_copy(list)),
        sorted_copy(list).to_multiset() == list.to_multiset(),
    decreases list.len(),
{
    broadcast use vstd::seq_lib::group_to_multiset_ensures;

    if list.len() > 0 {
        let front = list.drop_last();
        law_sorted_copy(front);
        lemma_placed(sorted_copy(front), list.last());
        assert(list =~= front.push(list.last()));
    } else {
        assert(sorted_copy(list) =~= list);
    }
}

proof fn lemma_placed(list: Seq<Seq<char>>, t: Seq<char>)
    requires
        sorted_texts(list),
    ensures
        sorted_texts(placed(list, t)),
        placed(list, t).to_multiset() == list.to_multiset().insert(t),
        placed(list, t).len() == list.len() + 1,
        forall|x: Seq<char>| #[trigger]
            placed(list, t).contains(x) ==> list.contains(x) || x == t,
    decreases list.len(),
{
    broadcast use vstd::seq_lib::group_to_multiset_ensures;

    let out = placed(list, t);
    if list.len() > 0 && text_before(t, list.last()) {
        let front = list.drop_last();
        let rest = placed(front, t);
        lemma_placed(front, t);
        assert(list =~= front.push(list.last()));
        assert(out.to_multiset() =~= list.to_multiset().insert(t));
        assert forall|i: int, j: int| 0 <= i < j < out.len() implies !text_before(
            out[j],
            out[i],
        ) by {
            if j == out.len() - 1 {
                assert(rest.contains(rest[i]));
                if rest[i] == t {
                    if text_before(list.last(), t) {
                        lemma_before_transitive(t, list.last(), t);
                        lemma_before_irreflexive(t);
                    }
                } else {
                    let k = choose|k: int| 0 <= k < front.len() && front[k] == rest[i];
                    assert(list[k] == rest[i]);
                }
            } else {
                assert(out[i] == rest[i] && out[j] == rest[j]);
            }
        }
        assert forall|x: Seq<char>| #[trigger] out.contains(x) implies list.contains(x) || x
            == t by {
            let i = choose|i: int| 0 <= i < out.len() && out[i] == x;
            if i < rest.len() {
                assert(rest.contains(x));
                if x != t {
                    let k = choose|k: int| 0 <= k < front.len() && front[k] == x;
                    assert(list[k] == x);
                }
            } else {
                assert(list[list.len() - 1] == x);
            }
        }
    } else {
        assert forall|i: int, j: int| 0 <= i < j < out.len() implies !text_before(
            out[j],
            out[i],
        ) by {
            if j == out.len() - 1 && text_before(t, list[i]) {
                if i < list.len() - 1 {
                    assert(!text_before(list.last(), list[i]));
                    lemma_before_total(list.last(), list[i]);
                    if text_before(list[i], list.last()) {
                        lemma_before_transitive(t, list[i], list.last());
                    }
                }
            }
        }
        assert forall|x: Seq<char>| #[trigger] out.contains(x) implies list.contains(x) || x
            == t by {
            let i = choose|i: int| 0 <= i < out.len() && out[i] == x;
            if i < list.len() {
                assert(list[i] == x);
            }
        }
    }
}

/// Texts are ordered like words in a dictionary: at the first place where they
/// differ, the one that stands before ends or has the smaller character.
pub proof fn law_first_difference_orders(a: Seq<char>, b: Seq<char>)
    ensures
        text_before(a, b) <==> exists|k: int|
            {
                &&& 0 <= k <= a.len()
                &&& k < b.len()
                &&& #[trigger] a.take(k) == b.take(k)
                &&& k == a.len() || a[k] < b[k]
            },
    decreases b.len(),
{
    if b.len() > 0 && a.len() > 0 && a[0] == b[0] {
        let x = a.skip(1);
        let y = b.skip(1);
        law_first_difference_orders(x, y);
        if text_before(x, y) {
            let k = choose|k: int|
                0 <= k <= x.len() && k < y.len() && #[trigger] x.take(k) == y.take(k) && (k
                    == x.len() || x[k] < y[k]);
            assert(a.take(k + 1) =~= seq![a[0]] + x.take(k));
            assert(b.take(k + 1) =~= seq![b[0]] + y.take(k));
        }
        if exists|k: int|
            0 <= k <= a.len() && k < b.len() && #[trigger] a.take(k) == b.take(k) && (k == a.len()
                || a[k] < b[k]) {
            let k = choose|k: int|
                0 <= k <= a.len() && k < b.len() && #[trigger] a.take(k) == b.take(k) && (k
                    == a.len() || a[k] < b[k]);
            assert(k > 0);
            assert(a.take(k).skip(1) =~= x.take(k - 1));
            assert(b.take(k).skip(1) =~= y.take(k - 1));
        }
    } else if b.len() > 0 {
        assert(a.take(0) =~= b.take(0));
        if a.len() > 0 {
            assert forall|k: int|
                0 <= k <= a.len() && k < b.len() && #[trigger] a.take(k) == b.take(k) implies k
                == 0 by {
                if k > 0 {
                    assert(a.take(k)[0] == b.take(k)[0]);
                }
            }
        }
    }
}

} // verus!
