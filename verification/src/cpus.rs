//! Lists of CPU cores: the kernel's list notation and its hexadecimal masks.
use crate::numbers::{
    decimal, decimal_string, digit_char, hex_digits, hexadecimal, is_digit,
    lemma_decimal_reads_back, parse_number, parse_u32, push_decimal, push_hex_digits,
    push_hexadecimal,
};
use crate::text::{
    chars_of, find_char, is_white_space, join, join_texts, lemma_find_char, lemma_find_char_is,
    lemma_texts_push,
    position, slices, split, split_text, texts, trim, trim_end_text, trim_start_text, trim_text,
};
use vstd::prelude::*;
use vstd::slice::slice_subrange;

verus! {

// ---------------------------------------------------------------------------
// Ascending lists of cores
// ---------------------------------------------------------------------------

/// Every core is smaller than all that follow it; so no core occurs twice.
pub open spec fn increasing(list: Seq<u32>) -> bool {
    forall|i: int, j: int| 0 <= i < j < list.len() ==> list[i] < list[j]
}

/// An increasing list with `core` at its place.
pub open spec fn core_placed(list: Seq<u32>, core: u32) -> Seq<u32>
    decreases list.len(),
{
    if list.len() > 0 && core < list.last() {
        core_placed(list.drop_last(), core).push(list.last())
    } else if list.len() > 0 && core == list.last() {
        list
    } else {
        list.push(core)
    }
}

/// The cores of a list, in increasing order and each once.
pub open spec fn core_set(cores: Seq<u32>) -> Seq<u32>
    decreases cores.len(),
{
    if cores.len() == 0 {
        seq![]
    } else {
        core_placed(core_set(cores.drop_last()), cores.last())
    }
}

proof fn lemma_core_placed(list: Seq<u32>, core: u32)
    requires
        increasing(list),
    ensures
        increasing(core_placed(list, core)),
        forall|c: u32| #[trigger] core_placed(list, core).contains(c) <==> list.contains(c) || c
            == core,
    decreases list.len(),
{
    let out = core_placed(list, core);
    if list.len() > 0 && core < list.last() {
        let front = list.drop_last();
        let rest = core_placed(front, core);
        lemma_core_placed(front, core);
        assert forall|c: u32| #[trigger] out.contains(c) <==> list.contains(c) || c == core by {
            if out.contains(c) {
                let i = choose|i: int| 0 <= i < out.len() && out[i] == c;
                if i < rest.len() {
                    assert(rest.contains(c));
                    if c != core {
                        let k = choose|k: int| 0 <= k < front.len() && front[k] == c;
                        assert(list[k] == c);
                    }
                } else {
                    assert(list[list.len() - 1] == c);
                }
            }
            if list.contains(c) || c == core {
                if c == list.last() {
                    assert(out[out.len() - 1] == c);
                } else {
                    if list.contains(c) {
                        let k = choose|k: int| 0 <= k < list.len() && list[k] == c;
                        assert(front[k] == c);
                    }
                    assert(rest.contains(c));
                    let i = choose|i: int| 0 <= i < rest.len() && rest[i] == c;
                    assert(out[i] == c);
                }
            }
        }
        assert forall|i: int, j: int| 0 <= i < j < out.len() implies out[i] < out[j] by {
            if j == out.len() - 1 {
                assert(rest.contains(rest[i]));
                if rest[i] != core {
                    let k = choose|k: int| 0 <= k < front.len() && front[k] == rest[i];
                    assert(list[k] < list.last());
                }
            } else {
                assert(out[i] == rest[i] && out[j] == rest[j]);
            }
        }
    } else if list.len() > 0 && core == list.last() {
        assert(list[list.len() - 1] == core);
    } else {
        assert forall|c: u32| #[trigger] out.contains(c) <==> list.contains(c) || c == core by {
            if out.contains(c) {
                let i = choose|i: int| 0 <= i < out.len() && out[i] == c;
                if i < list.len() {
                    assert(list[i] == c);
                }
            }
            if list.contains(c) {
                let k = choose|k: int| 0 <= k < list.len() && list[k] == c;
                assert(out[k] == c);
            }
            if c == core {
                assert(out[list.len() as int] == c);
            }
        }
    }
}

/// `core_set` orders the cores, and keeps exactly the ones that were there.
pub proof fn law_core_set(cores: Seq<u32>)
    ensures
        increasing(core_set(cores)),
        forall|c: u32| #[trigger] core_set(cores).contains(c) <==> cores.contains(c),
    decreases cores.len(),
{
    if cores.len() > 0 {
        let front = cores.drop_last();
        law_core_set(front);
        lemma_core_placed(core_set(front), cores.last());
        assert forall|c: u32| #[trigger] core_set(cores).contains(c) <==> cores.contains(c) by {
            if cores.contains(c) {
                let k = choose|k: int| 0 <= k < cores.len() && cores[k] == c;
                if k < front.len() {
                    assert(front[k] == c);
                }
            }
            if front.contains(c) {
                let k = choose|k: int| 0 <= k < front.len() && front[k] == c;
                assert(cores[k] == c);
            }
            if c == cores.last() {
                assert(cores[cores.len() - 1] == c);
            }
        }
    }
}

/// Two increasing lists with the same members are the same list.
pub proof fn law_increasing_unique(a: Seq<u32>, b: Seq<u32>)
    requires
        increasing(a),
        increasing(b),
        forall|c: u32| a.contains(c) <==> b.contains(c),
    ensures
        a == b,
    decreases a.len(),
{
    if a.len() == 0 {
        if b.len() > 0 {
            assert(b.contains(b[0]));
        }
        assert(a =~= b);
    } else {
        assert(a.contains(a[0]));
        assert(b.contains(a[0]));
        assert(b.contains(b[0]));
        assert(a.contains(b[0]));
        let x = a.skip(1);
        let y = b.skip(1);
        assert(a[0] == b[0]);
        assert forall|c: u32| x.contains(c) <==> y.contains(c) by {
            if x.contains(c) {
                let i = choose|i: int| 0 <= i < x.len() && x[i] == c;
                assert(a[i + 1] == c);
                assert(a.contains(c));
                let j = choose|j: int| 0 <= j < b.len() && b[j] == c;
                assert(y[j - 1] == c);
            }
            if y.contains(c) {
                let i = choose|i: int| 0 <= i < y.len() && y[i] == c;
                assert(b[i + 1] == c);
                assert(b.contains(c));
                let j = choose|j: int| 0 <= j < a.len() && a[j] == c;
                assert(x[j - 1] == c);
            }
        }
        law_increasing_unique(x, y);
        assert(a =~= seq![a[0]] + x);
        assert(b =~= seq![b[0]] + y);
    }
}

proof fn lemma_core_placed_at(list: Seq<u32>, core: u32, i: int)
    requires
        0 <= i <= list.len(),
        forall|j: int| i <= j < list.len() ==> core < list[j],
        i > 0 ==> list[i - 1] <= core,
    ensures
        core_placed(list, core) == (if i > 0 && list[i - 1] == core {
            list
        } else {
            list.insert(i, core)
        }),
    decreases list.len(),
{
    if i < list.len() {
        let front = list.drop_last();
        lemma_core_placed_at(front, core, i);
        assert(front.insert(i, core).push(list.last()) =~= list.insert(i, core));
        assert(front.push(list.last()) =~= list);
    } else {
        assert(list.push(core) =~= list.insert(i, core));
    }
}

/// Adds a core to an increasing list, at its place, unless it is there.
pub fn insert_core(list: &mut Vec<u32>, core: u32)
    ensures
        final(list)@ == core_placed(old(list)@, core),
{
    let ghost before = list@;
    let mut i: usize = list.len();
    while i > 0 && core < list[i - 1]
        invariant
            list@ == before,
            i <= list@.len(),
            forall|j: int| i <= j < list@.len() ==> core < list@[j],
        decreases i,
    {
        i = i - 1;
    }
    proof {
        lemma_core_placed_at(before, core, i as int);
    }
    if i > 0 && list[i - 1] == core {
        return;
    }
    list.insert(i, core);
}

/// The cores of a list, in increasing order and each once.
pub fn sort_cores(cores: &[u32]) -> (r: Vec<u32>)
    ensures
        r@ == core_set(cores@),
{
    let mut out: Vec<u32> = Vec::new();
    let n: usize = cores.len();
    let mut i: usize = 0;
    while i < n
        invariant
            n == cores@.len(),
            i <= n,
            out@ == core_set(cores@.take(i as int)),
        decreases n - i,
    {
        insert_core(&mut out, cores[i]);
        assert(cores@.take(i + 1).drop_last() =~= cores@.take(i as int));
        i = i + 1;
    }
    assert(cores@.take(n as int) =~= cores@);
    out
}

// ---------------------------------------------------------------------------
// Reading a list
// ---------------------------------------------------------------------------

/// One entry of a list names `core`: the entry is that number, or a range
/// `low-high` around it. An entry that is neither names nothing.
pub open spec fn entry_names(entry: Seq<char>, core: u32) -> bool {
    let dash = find_char(entry, '-') as int;
    if dash < entry.len() {
        match (
            parse_number(entry.take(dash), u32::MAX as nat),
            parse_number(entry.skip(dash + 1), u32::MAX as nat),
        ) {
            (Some(low), Some(high)) => low <= core <= high,
            _ => false,
        }
    } else {
        parse_number(entry, u32::MAX as nat) == Some(core as nat)
    }
}

/// A list, entries separated by commas and white space around it ignored, names
/// `core`.
pub open spec fn list_names(s: Seq<char>, core: u32) -> bool {
    let entries = split_text(trim_text(s), ',');
    exists|i: int| 0 <= i < entries.len() && entry_names(#[trigger] entries[i], core)
}

/// The cores that a list names, in increasing order and each once.
pub open spec fn named_cores(s: Seq<char>) -> Seq<u32> {
    choose|r: Seq<u32>|
        #![auto]
        increasing(r) && forall|c: u32| #[trigger] r.contains(c) <==> list_names(s, c)
}

/// Adds the cores that one entry names.
fn add_entry(out: &mut Vec<u32>, entry: &[char])
    requires
        increasing(old(out)@),
    ensures
        increasing(final(out)@),
        forall|c: u32| #[trigger] final(out)@.contains(c) <==> old(out)@.contains(c) || entry_names(
            entry@,
            c,
        ),
{
    let dash: usize = position(entry, '-');
    if dash < entry.len() {
        let low_text: &[char] = slice_subrange(entry, 0, dash);
        let high_text: &[char] = slice_subrange(entry, dash + 1, entry.len());
        assert(low_text@ =~= entry@.take(dash as int));
        assert(high_text@ =~= entry@.skip(dash + 1));
        if let (Some(low), Some(high)) = (parse_u32(low_text), parse_u32(high_text)) {
            if low > high {
                return;
            }
            let ghost before = out@;
            let mut core: u32 = low;
            loop
                invariant_except_break
                    low <= core <= high,
                    increasing(out@),
                    forall|c: u32| #[trigger]
                        out@.contains(c) <==> before.contains(c) || low <= c < core,
                ensures
                    increasing(out@),
                    forall|c: u32| #[trigger]
                        out@.contains(c) <==> before.contains(c) || low <= c <= high,
                decreases high - core,
            {
                proof {
                    lemma_core_placed(out@, core);
                }
                insert_core(out, core);
                if core == high {
                    break;
                }
                core = core + 1;
            }
        }
    } else if let Some(core) = parse_u32(entry) {
        proof {
            lemma_core_placed(out@, core);
        }
        insert_core(out, core);
    }
}

/// Reads a list of cores such as `0-2,5`: the cores that it names, in
/// increasing order and each once.
pub fn parse_cpu_list(s: &str) -> (r: Vec<u32>)
    ensures
        increasing(r@),
        forall|c: u32| #[trigger] r@.contains(c) <==> list_names(s@, c),
        r@ == named_cores(s@),
{
    let chars: Vec<char> = chars_of(s);
    let entries: Vec<&[char]> = split(trim(&chars), ',');
    let mut out: Vec<u32> = Vec::new();
    let n: usize = entries.len();
    let mut i: usize = 0;
    let ghost all = split_text(trim_text(s@), ',');
    while i < n
        invariant
            n == entries@.len(),
            i <= n,
            slices(entries@) == all,
            increasing(out@),
            forall|c: u32| #[trigger]
                out@.contains(c) <==> (exists|k: int|
                    0 <= k < i && entry_names(#[trigger] all[k], c)),
        decreases n - i,
    {
        let ghost before = out@;
        add_entry(&mut out, entries[i]);
        proof {
            assert(entries@[i as int]@ == all[i as int]);
            assert forall|c: u32| #[trigger] out@.contains(c) <==> (exists|k: int|
                0 <= k < i + 1 && entry_names(#[trigger] all[k], c)) by {
                if before.contains(c) {
                    let k = choose|k: int| 0 <= k < i && entry_names(#[trigger] all[k], c);
                    assert(entry_names(all[k], c));
                }
            }
        }
        i = i + 1;
    }
    proof {
        assert(entries@.len() == all.len());
        assert forall|c: u32| #[trigger] out@.contains(c) <==> list_names(s@, c) by {}
        law_increasing_unique(out@, named_cores(s@));
    }
    out
}

// ---------------------------------------------------------------------------
// Writing a list
// ---------------------------------------------------------------------------

/// How many cores at the front of an increasing list follow one another.
pub open spec fn run_len(list: Seq<u32>) -> nat
    decreases list.len(),
{
    if list.len() <= 1 {
        list.len()
    } else if list[1] == list[0] + 1 {
        1 + run_len(list.skip(1))
    } else {
        1
    }
}

proof fn lemma_run_len(list: Seq<u32>)
    requires
        list.len() > 0,
    ensures
        1 <= run_len(list) <= list.len(),
        forall|i: int| 0 <= i < run_len(list) ==> #[trigger] list[i] == list[0] + i,
    decreases list.len(),
{
    if list.len() > 1 && list[1] == list[0] + 1 {
        let rest = list.skip(1);
        lemma_run_len(rest);
        assert forall|i: int| 0 <= i < run_len(list) implies #[trigger] list[i] == list[0] + i by {
            if i > 0 {
                assert(list[i] == rest[i - 1]);
            }
        }
    }
}

/// The text of the cores from `low` to `high`.
pub open spec fn range_text(low: u32, high: u32) -> Seq<char> {
    if low == high {
        decimal(low as nat)
    } else {
        decimal(low as nat) + seq!['-'] + decimal(high as nat)
    }
}

/// The entries of an increasing list: one for each longest run of neighbours.
pub open spec fn range_texts(list: Seq<u32>) -> Seq<Seq<char>>
    decreases list.len(),
{
    let n = run_len(list) as int;
    if list.len() == 0 || n <= 0 || n > list.len() {
        seq![]
    } else {
        seq![range_text(list[0], list[n - 1])] + range_texts(list.skip(n))
    }
}

/// The text of an increasing list.
pub open spec fn cpu_list_text(list: Seq<u32>) -> Seq<char> {
    join_texts(range_texts(list), seq![','])
}

/// Writes a list of cores: sorted, each once, neighbours drawn together to
/// ranges, such as `0-2,5`.
pub fn format_cpu_list(cores: &[u32]) -> (r: String)
    ensures
        r@ == cpu_list_text(core_set(cores@)),
{
    let list: Vec<u32> = sort_cores(cores);
    let mut ranges: Vec<String> = Vec::new();
    let n: usize = list.len();
    let mut start: usize = 0;
    let ghost set = core_set(cores@);
    assert(set.skip(0) =~= set);
    assert(texts(ranges@) + range_texts(set) =~= range_texts(set));
    while start < n
        invariant
            n == list@.len(),
            list@ == set,
            start <= n,
            range_texts(set) == texts(ranges@) + range_texts(set.skip(start as int)),
        decreases n - start,
    {
        broadcast use lemma_texts_push;

        let ghost rest = set.skip(start as int);
        let mut last: usize = start;
        assert(rest.skip(0) =~= rest);
        while last + 1 < n && list[last] < u32::MAX && list[last + 1] == list[last] + 1
            invariant
                n == list@.len(),
                list@ == set,
                start <= last < n,
                rest == set.skip(start as int),
                run_len(rest) == (last - start) + run_len(rest.skip(last - start)),
            decreases n - last,
        {
            assert(rest.skip(last - start).skip(1) =~= rest.skip(last + 1 - start));
            assert(rest.skip(last - start)[0] == set[last as int]);
            assert(rest.skip(last - start)[1] == set[last + 1]);
            last = last + 1;
        }
        proof {
            let tail = rest.skip(last - start);
            assert(tail[0] == set[last as int]);
            if tail.len() > 1 {
                assert(tail[1] == set[last + 1]);
            }
            assert(run_len(tail) == 1);
        }
        let low: u32 = list[start];
        let high: u32 = list[last];
        let mut text: String = decimal_string(low as u64);
        if low != high {
            text.push('-');
            push_decimal(&mut text, high as u64);
            assert(decimal(low as nat).push('-') =~= decimal(low as nat) + seq!['-']);
        }
        assert(text@ == range_text(rest[0], rest[last - start]));
        let ghost before = texts(ranges@);
        ranges.push(text);
        let next: usize = last + 1;
        proof {
            assert(rest.skip(next - start) =~= set.skip(next as int));
            assert(before + (seq![text@] + range_texts(set.skip(next as int))) =~= before.push(text@)
                + range_texts(set.skip(next as int)));
        }
        start = next;
    }
    assert(texts(ranges@) + range_texts(set.skip(n as int)) =~= texts(ranges@));
    proof {
        reveal_strlit(",");
        assert(","@ =~= seq![',']);
    }
    join(&ranges, ",")
}

// ---------------------------------------------------------------------------
// What is written reads back
// ---------------------------------------------------------------------------

/// The characters of lists and masks: digits, `a` to `f`, comma, dash.
pub open spec fn is_mask_char(c: char) -> bool {
    is_digit(c) || ('a' <= c && c <= 'f') || c == ',' || c == '-'
}

/// A text made of such characters only.
pub open spec fn all_mask_chars(s: Seq<char>) -> bool {
    forall|i: int| 0 <= i < s.len() ==> is_mask_char(#[trigger] s[i])
}

proof fn lemma_trim_keeps(s: Seq<char>)
    requires
        forall|i: int| 0 <= i < s.len() ==> !is_white_space(#[trigger] s[i]),
    ensures
        trim_text(s) == s,
{
    assert(trim_start_text(s) == s);
    assert(trim_end_text(s) == s);
}

proof fn lemma_split_join(parts: Seq<Seq<char>>, c: char)
    requires
        parts.len() > 0,
        forall|i: int, j: int|
            0 <= i < parts.len() && 0 <= j < parts[i].len() ==> #[trigger] parts[i][j] != c,
    ensures
        split_text(join_texts(parts, seq![c]), c) == parts,
    decreases parts.len(),
{
    let s = join_texts(parts, seq![c]);
    let first = parts[0];
    if parts.len() == 1 {
        lemma_find_char_is(s, c, s.len());
        assert(seq![s] =~= parts);
    } else {
        let rest = parts.skip(1);
        assert forall|i: int, j: int|
            0 <= i < rest.len() && 0 <= j < rest[i].len() implies #[trigger] rest[i][j] != c by {
            assert(rest[i] == parts[i + 1]);
            assert(parts[i + 1][j] != c);
        }
        lemma_split_join(rest, c);
        let n = first.len();
        assert(s[n as int] == c);
        assert forall|j: int| 0 <= j < n implies s[j] != c by {
            assert(s[j] == parts[0][j]);
        }
        lemma_find_char_is(s, c, n);
        assert(s.take(n as int) =~= first);
        assert(s.skip(n as int + 1) =~= join_texts(rest, seq![c]));
        assert(seq![first] + rest =~= parts);
    }
}

proof fn lemma_join_mask_chars(parts: Seq<Seq<char>>, sep: Seq<char>)
    requires
        forall|i: int| 0 <= i < parts.len() ==> all_mask_chars(#[trigger] parts[i]),
        all_mask_chars(sep),
    ensures
        all_mask_chars(join_texts(parts, sep)),
    decreases parts.len(),
{
    let s = join_texts(parts, sep);
    if parts.len() == 1 {
        assert(all_mask_chars(parts[0]));
    } else if parts.len() > 1 {
        let rest = parts.skip(1);
        assert forall|i: int| 0 <= i < rest.len() implies all_mask_chars(#[trigger] rest[i]) by {
            assert(rest[i] == parts[i + 1]);
        }
        lemma_join_mask_chars(rest, sep);
        let tail = join_texts(rest, sep);
        assert(all_mask_chars(parts[0]));
        assert forall|i: int| 0 <= i < s.len() implies is_mask_char(#[trigger] s[i]) by {
            let a = parts[0].len();
            if i < a {
                assert(s[i] == parts[0][i]);
            } else if i < a + sep.len() {
                assert(s[i] == sep[i - a]);
            } else {
                assert(s[i] == tail[i - a - sep.len()]);
            }
        }
    }
}

/// The entry for a range names the cores of the range, has no comma, and is
/// made of digits and dashes.
proof fn lemma_range_text(low: u32, high: u32)
    requires
        low <= high,
    ensures
        forall|c: u32| #[trigger] entry_names(range_text(low, high), c) <==> low <= c <= high,
        forall|j: int| 0 <= j < range_text(low, high).len() ==> range_text(low, high)[j] != ',',
        all_mask_chars(range_text(low, high)),
{
    let a = decimal(low as nat);
    let b = decimal(high as nat);
    let s = range_text(low, high);
    lemma_decimal_reads_back(low as nat);
    lemma_decimal_reads_back(high as nat);
    assert forall|j: int| 0 <= j < a.len() implies is_digit(#[trigger] a[j]) by {}
    assert forall|j: int| 0 <= j < b.len() implies is_digit(#[trigger] b[j]) by {}
    if low == high {
        assert forall|j: int| 0 <= j < s.len() implies s[j] != '-' by {
            assert(is_digit(a[j]));
        }
        lemma_find_char_is(s, '-', s.len());
        assert forall|j: int| 0 <= j < s.len() implies is_mask_char(#[trigger] s[j]) && s[j]
            != ',' by {
            assert(is_digit(a[j]));
        }
    } else {
        assert forall|j: int| 0 <= j < a.len() implies s[j] != '-' by {
            assert(s[j] == a[j]);
            assert(is_digit(a[j]));
        }
        assert(s[a.len() as int] == '-');
        lemma_find_char_is(s, '-', a.len());
        assert(s.take(a.len() as int) =~= a);
        assert(s.skip(a.len() as int + 1) =~= b);
        assert forall|j: int| 0 <= j < s.len() implies is_mask_char(#[trigger] s[j]) && s[j]
            != ',' by {
            if j < a.len() {
                assert(s[j] == a[j]);
                assert(is_digit(a[j]));
            } else if j > a.len() {
                assert(s[j] == b[j - a.len() - 1]);
                assert(is_digit(b[j - a.len() - 1]));
            }
        }
    }
}

proof fn lemma_range_texts(list: Seq<u32>)
    requires
        increasing(list),
    ensures
        list.len() > 0 ==> range_texts(list).len() > 0,
        forall|i: int, j: int|
            0 <= i < range_texts(list).len() && 0 <= j < range_texts(list)[i].len()
                ==> #[trigger] range_texts(list)[i][j] != ',',
        forall|i: int| 0 <= i < range_texts(list).len() ==> all_mask_chars(
            #[trigger] range_texts(list)[i],
        ),
        forall|c: u32| #[trigger]
            list.contains(c) <==> (exists|i: int|
                0 <= i < range_texts(list).len() && entry_names(#[trigger] range_texts(list)[i], c)),
    decreases list.len(),
{
    let all = range_texts(list);
    if list.len() > 0 {
        lemma_run_len(list);
        let n = run_len(list) as int;
        let rest = list.skip(n);
        let first = range_text(list[0], list[n - 1]);
        lemma_range_texts(rest);
        lemma_range_text(list[0], list[n - 1]);
        assert(all[0] == first);
        assert(all.skip(1) =~= range_texts(rest));
        assert forall|i: int| 1 <= i < all.len() implies all[i] == range_texts(rest)[i - 1] by {
            assert(all[i] == all.skip(1)[i - 1]);
        }
        assert forall|i: int, j: int| 0 <= i < all.len() && 0 <= j < all[i].len() implies #[trigger]
        all[i][j] != ',' by {
            if i > 0 {
                assert(range_texts(rest)[i - 1][j] != ',');
            }
        }
        assert forall|i: int| 0 <= i < all.len() implies all_mask_chars(#[trigger] all[i]) by {
            if i > 0 {
                assert(all_mask_chars(range_texts(rest)[i - 1]));
            }
        }
        assert forall|c: u32| #[trigger] list.contains(c) <==> (exists|i: int|
            0 <= i < all.len() && entry_names(#[trigger] all[i], c)) by {
            if list.contains(c) {
                let k = choose|k: int| 0 <= k < list.len() && list[k] == c;
                if k < n {
                    assert(entry_names(all[0], c));
                } else {
                    assert(rest[k - n] == c);
                    assert(rest.contains(c));
                    let i = choose|i: int|
                        0 <= i < range_texts(rest).len() && entry_names(
                            #[trigger] range_texts(rest)[i],
                            c,
                        );
                    assert(entry_names(all[i + 1], c));
                }
            }
            if exists|i: int| 0 <= i < all.len() && entry_names(#[trigger] all[i], c) {
                let i = choose|i: int| 0 <= i < all.len() && entry_names(#[trigger] all[i], c);
                if i == 0 {
                    assert(list[c - list[0]] == c);
                } else {
                    assert(entry_names(range_texts(rest)[i - 1], c));
                    assert(rest.contains(c));
                    let k = choose|k: int| 0 <= k < rest.len() && rest[k] == c;
                    assert(list[k + n] == c);
                }
            }
        }
    }
}

/// A written list is made of the characters of lists only.
pub proof fn law_cpu_list_chars(cores: Seq<u32>)
    ensures
        all_mask_chars(cpu_list_text(core_set(cores))),
{
    law_core_set(cores);
    lemma_range_texts(core_set(cores));
    lemma_join_mask_chars(range_texts(core_set(cores)), seq![',']);
}

/// Reading a written list gives back the cores that were written: the text that
/// `format_cpu_list` returns for `cores` names exactly the members of `cores`,
/// and so, by the contract of `parse_cpu_list`, what is read is `cores` in
/// increasing order and each once.
pub proof fn law_cpu_list_reads_back(cores: Seq<u32>, read: Seq<u32>)
    requires
        increasing(read),
        forall|c: u32| #[trigger]
            read.contains(c) <==> list_names(cpu_list_text(core_set(cores)), c),
    ensures
        read == core_set(cores),
{
    let set = core_set(cores);
    let s = cpu_list_text(set);
    law_core_set(cores);
    law_cpu_list_chars(cores);
    lemma_range_texts(set);
    assert forall|i: int| 0 <= i < s.len() implies !is_white_space(#[trigger] s[i]) by {
        assert(is_mask_char(s[i]));
    }
    lemma_trim_keeps(s);
    assert forall|c: u32| set.contains(c) <==> read.contains(c) by {
        if set.len() == 0 {
            assert(range_texts(set) =~= seq![]);
            assert(s =~= seq![]);
            assert(split_text(s, ',') =~= seq![s]);
            assert(!entry_names(s, c));
        } else {
            lemma_split_join(range_texts(set), ',');
        }
        assert(read.contains(c) <==> list_names(s, c));
    }
    law_increasing_unique(read, set);
}

// ---------------------------------------------------------------------------
// Masks
// ---------------------------------------------------------------------------

/// The bit of `core` within its group of 32 cores.
pub open spec fn core_bit(core: u32) -> u32 {
    1u32 << (core % 32)
}

/// The bits of the cores that fall into group `g`, cores `32 * g` to
/// `32 * g + 31`.
pub open spec fn mask_group(cores: Seq<u32>, g: int) -> u32
    decreases cores.len(),
{
    if cores.len() == 0 {
        0
    } else if cores.last() / 32 == g {
        mask_group(cores.drop_last(), g) | core_bit(cores.last())
    } else {
        mask_group(cores.drop_last(), g)
    }
}

/// The largest core of a list.
pub open spec fn max_core(cores: Seq<u32>) -> u32
    decreases cores.len(),
{
    if cores.len() <= 1 {
        cores[0]
    } else if max_core(cores.drop_last()) <= cores.last() {
        cores.last()
    } else {
        max_core(cores.drop_last())
    }
}

/// The groups of a mask, the highest first and without leading zeros, each of
/// the others with eight digits.
pub open spec fn mask_parts(cores: Seq<u32>) -> Seq<Seq<char>> {
    let n = (max_core(cores) / 32 + 1) as nat;
    Seq::new(
        n,
        |i: int|
            if i == 0 {
                hexadecimal(mask_group(cores, n - 1) as nat)
            } else {
                hex_digits(mask_group(cores, n - 1 - i) as nat, 8)
            },
    )
}

/// The text of a mask.
pub open spec fn mask_text(cores: Seq<u32>) -> Seq<char> {
    if cores.len() == 0 {
        seq!['0']
    } else {
        join_texts(mask_parts(cores), seq![','])
    }
}

fn largest(cores: &[u32]) -> (r: u32)
    requires
        cores@.len() > 0,
    ensures
        r == max_core(cores@),
        forall|i: int| 0 <= i < cores@.len() ==> cores@[i] <= r,
{
    let n: usize = cores.len();
    let mut max: u32 = cores[0];
    let mut i: usize = 1;
    while i < n
        invariant
            n == cores@.len(),
            1 <= i <= n,
            max == max_core(cores@.take(i as int)),
            forall|j: int| 0 <= j < i ==> cores@[j] <= max,
        decreases n - i,
    {
        assert(cores@.take(i + 1).drop_last() =~= cores@.take(i as int));
        if max <= cores[i] {
            max = cores[i];
        }
        i = i + 1;
    }
    assert(cores@.take(n as int) =~= cores@);
    max
}

/// Writes a list of cores as a hexadecimal mask in groups of 32 bits, such as
/// `1,ffffffff` for the cores 0 to 32.
pub fn hex_mask(cores: &[u32]) -> (r: String)
    ensures
        r@ == mask_text(cores@),
{
    if cores.len() == 0 {
        let mut zero: String = String::new();
        zero.push('0');
        assert(zero@ =~= seq!['0']);
        return zero;
    }
    let max: u32 = largest(cores);
    let n: usize = (max / 32 + 1) as usize;
    let mut groups: Vec<u32> = vec![0u32; n];
    let len: usize = cores.len();
    let mut k: usize = 0;
    while k < len
        invariant
            len == cores@.len(),
            k <= len,
            n == max / 32 + 1,
            groups@.len() == n,
            forall|i: int| 0 <= i < len ==> cores@[i] <= max,
            forall|g: int|
                0 <= g < n ==> #[trigger] groups@[g] == mask_group(cores@.take(k as int), g),
        decreases len - k,
    {
        let core: u32 = cores[k];
        let at: usize = (core / 32) as usize;
        let bit: u32 = 1u32 << (core % 32);
        groups.set(at, groups[at] | bit);
        assert(cores@.take(k + 1).drop_last() =~= cores@.take(k as int));
        k = k + 1;
    }
    assert(cores@.take(len as int) =~= cores@);
    let mut parts: Vec<String> = Vec::new();
    let mut i: usize = 0;
    while i < n
        invariant
            i <= n,
            n == max_core(cores@) / 32 + 1,
            groups@.len() == n,
            forall|g: int| 0 <= g < n ==> #[trigger] groups@[g] == mask_group(cores@, g),
            texts(parts@) =~= mask_parts(cores@).take(i as int),
        decreases n - i,
    {
        broadcast use lemma_texts_push;

        let mut part: String = String::new();
        let group: u32 = groups[n - 1 - i];
        if i == 0 {
            push_hexadecimal(&mut part, group);
        } else {
            push_hex_digits(&mut part, group, 8);
        }
        assert(part@ =~= mask_parts(cores@)[i as int]);
        parts.push(part);
        i = i + 1;
    }
    proof {
        reveal_strlit(",");
        assert(","@ =~= seq![',']);
        assert(texts(parts@) =~= mask_parts(cores@));
    }
    join(&parts, ",")
}

/// Bit `b` of group `g` of a mask is set exactly where core `32 * g + b` is in
/// the list.
pub proof fn law_mask_bits(cores: Seq<u32>, g: int, b: u32)
    requires
        0 <= g,
        b < 32,
    ensures
        (mask_group(cores, g) >> b) & 1u32 == 1u32 <==> exists|i: int|
            0 <= i < cores.len() && #[trigger] cores[i] == 32 * g + b,
    decreases cores.len(),
{
    let x = mask_group(cores, g);
    if cores.len() == 0 {
        assert((0u32 >> b) & 1u32 == 0u32) by (bit_vector);
    } else {
        let front = cores.drop_last();
        let last = cores.last();
        law_mask_bits(front, g, b);
        let y = mask_group(front, g);
        let k = last % 32;
        if last / 32 == g {
            assert(((y | (1u32 << k)) >> b) & 1u32 == 1u32 <==> ((y >> b) & 1u32 == 1u32 || k == b))
                by (bit_vector)
                requires
                    k < 32,
                    b < 32,
            ;
        }
        assert((last == 32 * g + b) == (last / 32 == g && k == b));
        if exists|i: int| 0 <= i < front.len() && #[trigger] front[i] == 32 * g + b {
            let i = choose|i: int| 0 <= i < front.len() && #[trigger] front[i] == 32 * g + b;
            assert(cores[i] == 32 * g + b);
        }
        if exists|i: int| 0 <= i < cores.len() && #[trigger] cores[i] == 32 * g + b {
            let i = choose|i: int| 0 <= i < cores.len() && #[trigger] cores[i] == 32 * g + b;
            if i < front.len() {
                assert(front[i] == 32 * g + b);
            }
        }
        if last == 32 * g + b {
            assert(cores[cores.len() - 1] == 32 * g + b);
        }
    }
}

proof fn lemma_hexadecimal_chars(n: nat)
    ensures
        all_mask_chars(hexadecimal(n)),
    decreases n,
{
    assert(is_mask_char(digit_char(n % 16)));
    if n < 16 {
        assert(is_mask_char(digit_char(n)));
    } else {
        lemma_hexadecimal_chars(n / 16);
        let s = hexadecimal(n);
        assert forall|i: int| 0 <= i < s.len() implies is_mask_char(#[trigger] s[i]) by {
            if i < hexadecimal(n / 16).len() {
                assert(s[i] == hexadecimal(n / 16)[i]);
            }
        }
    }
}

proof fn lemma_hex_digits_chars(n: nat, width: nat)
    ensures
        all_mask_chars(hex_digits(n, width)),
    decreases width,
{
    if width > 0 {
        lemma_hex_digits_chars(n / 16, (width - 1) as nat);
        assert(is_mask_char(digit_char(n % 16)));
        let s = hex_digits(n, width);
        let front = hex_digits(n / 16, (width - 1) as nat);
        assert forall|i: int| 0 <= i < s.len() implies is_mask_char(#[trigger] s[i]) by {
            if i < front.len() {
                assert(s[i] == front[i]);
            }
        }
    }
}

/// A mask is made of the characters of masks only.
pub proof fn law_mask_chars(cores: Seq<u32>)
    ensures
        all_mask_chars(mask_text(cores)),
{
    if cores.len() > 0 {
        let parts = mask_parts(cores);
        assert forall|i: int| 0 <= i < parts.len() implies all_mask_chars(#[trigger] parts[i]) by {
            let n = (max_core(cores) / 32 + 1) as nat;
            lemma_hexadecimal_chars(mask_group(cores, n - 1) as nat);
            lemma_hex_digits_chars(mask_group(cores, n - 1 - i) as nat, 8);
        }
        lemma_join_mask_chars(parts, seq![',']);
    }
}

/// An entry without a dash names the one core whose number it spells. One with a dash
/// names the cores from the number in front of its first dash to the one behind it,
/// both among them.
pub proof fn law_what_entries_name(low: Seq<char>, high: Seq<char>, core: u32)
    requires
        !low.contains('-'),
    ensures
        entry_names(low, core) <==> parse_number(low, u32::MAX as nat) == Some(core as nat),
        entry_names(low + seq!['-'] + high, core) <==> {
            &&& parse_number(low, u32::MAX as nat) matches Some(a) && a <= core
            &&& parse_number(high, u32::MAX as nat) matches Some(b) && core <= b
        },
{
    let range = low + seq!['-'] + high;
    lemma_find_char(low, '-');
    if find_char(low, '-') < low.len() {
        assert(low.contains(low[find_char(low, '-') as int]));
    }
    assert forall|i: int| 0 <= i < low.len() implies range[i] != '-' by {
        assert(low.contains(low[i]));
    }
    lemma_find_char_is(range, '-', low.len());
    assert(range.take(low.len() as int) =~= low);
    assert(range.skip(low.len() as int + 1) =~= high);
}

proof fn lemma_run_len_is(list: Seq<u32>, n: int)
    requires
        0 < n <= list.len(),
        forall|i: int| 0 <= i < n ==> #[trigger] list[i] == list[0] + i,
        n < list.len() ==> list[n] != list[n - 1] + 1,
    ensures
        run_len(list) == n,
    decreases n,
{
    if n > 1 {
        let rest = list.skip(1);
        assert(list[1] == list[0] + 1);
        assert forall|i: int| 0 <= i < n - 1 implies #[trigger] rest[i] == rest[0] + i by {
            assert(rest[i] == list[i + 1]);
        }
        lemma_run_len_is(rest, n - 1);
    }
}

/// Neighbours are drawn together as far as they go: of cores that follow one another
/// the first and the last are written with a dash between, and the next entry begins
/// behind a gap.
pub proof fn law_neighbours_are_drawn_together(low: u32, high: u32, rest: Seq<u32>)
    requires
        low <= high,
        rest.len() > 0 ==> high + 1 < rest[0],
    ensures
        range_texts(seq![]) == Seq::<Seq<char>>::empty(),
        range_texts(Seq::new((high - low + 1) as nat, |i: int| (low + i) as u32) + rest) == seq![
            if low == high {
                decimal(low as nat)
            } else {
                decimal(low as nat) + seq!['-'] + decimal(high as nat)
            },
        ] + range_texts(rest),
{
    let n = high - low + 1;
    let run = Seq::new(n as nat, |i: int| (low + i) as u32);
    let list = run + rest;
    assert forall|i: int| 0 <= i < n implies #[trigger] list[i] == list[0] + i by {
        assert(list[i] == run[i]);
        assert(list[0] == run[0]);
    }
    if n < list.len() {
        assert(list[n] == rest[0]);
        assert(list[n - 1] == run[n - 1]);
    }
    lemma_run_len_is(list, n);
    assert(list.skip(n) =~= rest);
    assert(list[n - 1] == high);
}

/// A mask has a group for every 32 cores up to the largest, the highest first: that
/// one without zeros in front, all others with eight digits.
pub proof fn law_mask_reaches_the_largest_core(cores: Seq<u32>, largest: u32)
    requires
        cores.contains(largest),
        forall|i: int| 0 <= i < cores.len() ==> #[trigger] cores[i] <= largest,
    ensures
        mask_text(cores) == join_texts(
            Seq::new(
                (largest / 32 + 1) as nat,
                |i: int|
                    if i == 0 {
                        hexadecimal(mask_group(cores, (largest / 32) as int) as nat)
                    } else {
                        hex_digits(mask_group(cores, largest / 32 - i) as nat, 8)
                    },
            ),
            seq![','],
        ),
        mask_text(seq![]) == seq!['0'],
{
    lemma_max_core(cores, largest);
    assert(mask_parts(cores) =~= Seq::new(
        (largest / 32 + 1) as nat,
        |i: int|
            if i == 0 {
                hexadecimal(mask_group(cores, (largest / 32) as int) as nat)
            } else {
                hex_digits(mask_group(cores, largest / 32 - i) as nat, 8)
            },
    ));
}

proof fn lemma_max_core(cores: Seq<u32>, largest: u32)
    requires
        cores.contains(largest),
        forall|i: int| 0 <= i < cores.len() ==> #[trigger] cores[i] <= largest,
    ensures
        max_core(cores) == largest,
    decreases cores.len(),
{
    let k = choose|k: int| 0 <= k < cores.len() && cores[k] == largest;
    if cores.len() > 1 {
        let front = cores.drop_last();
        if k < front.len() {
            assert(front[k] == largest);
            assert forall|i: int| 0 <= i < front.len() implies #[trigger] front[i] <= largest by {
                assert(cores[i] <= largest);
            }
            lemma_max_core(front, largest);
            assert(cores[cores.len() - 1] <= largest);
        } else {
            lemma_max_core_bound(front, largest);
        }
    }
}

proof fn lemma_max_core_bound(cores: Seq<u32>, bound: u32)
    requires
        cores.len() > 0,
        forall|i: int| 0 <= i < cores.len() ==> #[trigger] cores[i] <= bound,
    ensures
        max_core(cores) <= bound,
    decreases cores.len(),
{
    assert(cores[0] <= bound);
    assert(cores[cores.len() - 1] <= bound);
    if cores.len() > 1 {
        let front = cores.drop_last();
        assert forall|i: int| 0 <= i < front.len() implies #[trigger] front[i] <= bound by {
            assert(cores[i] <= bound);
        }
        lemma_max_core_bound(front, bound);
    }
}

} // verus!
