//! Text as sequences of characters: splitting, trimming, joining, padding.
use vstd::prelude::*;
use vstd::slice::slice_subrange;

verus! {

/// `String::push` appends one character to the text of a string.
pub assume_specification[ String::push ](s: &mut String, c: char)
    ensures
        final(s)@ == old(s)@.push(c),
;

/// The texts that a list of strings holds.
pub open spec fn texts(list: Seq<String>) -> Seq<Seq<char>> {
    Seq::new(list.len(), |i: int| list[i]@)
}

/// The texts that a list of character slices holds.
pub open spec fn slices(list: Seq<&[char]>) -> Seq<Seq<char>> {
    Seq::new(list.len(), |i: int| list[i]@)
}

pub broadcast proof fn lemma_texts_push(list: Seq<String>, s: String)
    ensures
        #[trigger] texts(list.push(s)) == texts(list).push(s@),
{
    assert(texts(list.push(s)) =~= texts(list).push(s@));
}

pub broadcast proof fn lemma_slices_push(list: Seq<&[char]>, s: &[char])
    ensures
        #[trigger] slices(list.push(s)) == slices(list).push(s@),
{
    assert(slices(list.push(s)) =~= slices(list).push(s@));
}

/// The characters of a string.
pub fn chars_of(s: &str) -> (r: Vec<char>)
    ensures
        r@ == s@,
{
    let mut v: Vec<char> = Vec::new();
    for c in it: s.chars()
        invariant
            it.seq() == s@,
            v@ == s@.take(it.index()),
    {
        v.push(c);
        assert(v@ =~= s@.take(it.index() + 1));
    }
    assert(v@ =~= s@);
    v
}

/// The string with the given characters.
pub fn string_of(chars: &[char]) -> (r: String)
    ensures
        r@ == chars@,
{
    let mut out: String = String::new();
    let n: usize = chars.len();
    let mut i: usize = 0;
    while i < n
        invariant
            n == chars@.len(),
            i <= n,
            out@ == chars@.take(i as int),
        decreases n - i,
    {
        out.push(chars[i]);
        assert(chars@.take(i as int).push(chars@[i as int]) =~= chars@.take(i + 1));
        i = i + 1;
    }
    assert(chars@.take(n as int) =~= chars@);
    out
}

/// Whether two character slices hold the same text.
pub fn same_chars(a: &[char], b: &[char]) -> (r: bool)
    ensures
        r == (a@ == b@),
{
    if a.len() != b.len() {
        return false;
    }
    let n: usize = a.len();
    let mut i: usize = 0;
    while i < n
        invariant
            n == a@.len(),
            n == b@.len(),
            i <= n,
            forall|j: int| 0 <= j < i ==> a@[j] == b@[j],
        decreases n - i,
    {
        if a[i] != b[i] {
            return false;
        }
        i = i + 1;
    }
    assert(a@ =~= b@);
    true
}

/// Whether two strings hold the same text.
pub fn same_text(a: &str, b: &str) -> (r: bool)
    ensures
        r == (a@ == b@),
{
    same_chars(&chars_of(a), &chars_of(b))
}

/// Whether one of the strings holds the given text.
pub fn has_text(list: &[String], s: &str) -> (r: bool)
    ensures
        r == texts(list@).contains(s@),
{
    let n: usize = list.len();
    let mut i: usize = 0;
    while i < n
        invariant
            n == list@.len(),
            i <= n,
            forall|j: int| 0 <= j < i ==> texts(list@)[j] != s@,
        decreases n - i,
    {
        if same_text(&list[i], s) {
            assert(texts(list@)[i as int] == s@);
            return true;
        }
        i = i + 1;
    }
    false
}

/// Copies a list of strings.
pub fn copy_texts(list: &[String]) -> (r: Vec<String>)
    ensures
        texts(r@) == texts(list@),
{
    let mut out: Vec<String> = Vec::new();
    let n: usize = list.len();
    let mut i: usize = 0;
    while i < n
        invariant
            n == list@.len(),
            i <= n,
            texts(out@) == texts(list@).take(i as int),
        decreases n - i,
    {
        broadcast use lemma_texts_push;

        out.push(list[i].clone());
        assert(texts(list@).take(i as int).push(list@[i as int]@) =~= texts(list@).take(i + 1));
        i = i + 1;
    }
    assert(texts(list@).take(n as int) =~= texts(list@));
    out
}

// ---------------------------------------------------------------------------
// Prefixes and containment
// ---------------------------------------------------------------------------

/// `s` begins with `prefix`.
pub open spec fn begins_with(s: Seq<char>, prefix: Seq<char>) -> bool {
    prefix.len() <= s.len() && s.take(prefix.len() as int) == prefix
}

/// `part` occurs in `s` at position `at`.
pub open spec fn occurs_at(s: Seq<char>, part: Seq<char>, at: int) -> bool {
    0 <= at <= s.len() - part.len() && s.subrange(at, at + part.len()) == part
}

/// `part` occurs somewhere in `s`.
pub open spec fn occurs_in(s: Seq<char>, part: Seq<char>) -> bool {
    exists|at: int| occurs_at(s, part, at)
}

/// What is left of `s` behind `prefix`.
pub open spec fn behind(s: Seq<char>, prefix: Seq<char>) -> Option<Seq<char>> {
    if begins_with(s, prefix) {
        Some(s.skip(prefix.len() as int))
    } else {
        None
    }
}

pub fn starts_with(s: &[char], prefix: &str) -> (r: bool)
    ensures
        r == begins_with(s@, prefix@),
{
    let p: Vec<char> = chars_of(prefix);
    if p.len() > s.len() {
        return false;
    }
    same_chars(slice_subrange(s, 0, p.len()), &p)
}

pub fn strip_prefix<'a>(s: &'a [char], prefix: &str) -> (r: Option<&'a [char]>)
    ensures
        match r {
            Some(rest) => behind(s@, prefix@) == Some(rest@),
            None => behind(s@, prefix@) is None,
        },
{
    let p: Vec<char> = chars_of(prefix);
    if p.len() > s.len() {
        return None;
    }
    if same_chars(slice_subrange(s, 0, p.len()), &p) {
        Some(slice_subrange(s, p.len(), s.len()))
    } else {
        None
    }
}

/// Whether `part` occurs in `s`.
pub fn contains_text(s: &str, part: &str) -> (r: bool)
    ensures
        r == occurs_in(s@, part@),
{
    let hay: Vec<char> = chars_of(s);
    let p: Vec<char> = chars_of(part);
    if p.len() > hay.len() {
        return false;
    }
    let last: usize = hay.len() - p.len();
    let mut i: usize = 0;
    loop
        invariant
            last + p.len() == hay.len(),
            i <= last,
            hay@ == s@,
            p@ == part@,
            forall|at: int| 0 <= at < i ==> !occurs_at(s@, part@, at),
        decreases last - i,
    {
        if same_chars(slice_subrange(&hay, i, i + p.len()), &p) {
            assert(occurs_at(s@, part@, i as int));
            return true;
        }
        assert(!occurs_at(s@, part@, i as int));
        if i == last {
            return false;
        }
        i = i + 1;
    }
}

// ---------------------------------------------------------------------------
// White space
// ---------------------------------------------------------------------------

/// The characters with the Unicode property `White_Space`.
pub open spec fn is_white_space(c: char) -> bool {
    let n = c as u32;
    ||| 0x9 <= n <= 0xd
    ||| n == 0x20
    ||| n == 0x85
    ||| n == 0xa0
    ||| n == 0x1680
    ||| 0x2000 <= n <= 0x200a
    ||| n == 0x2028
    ||| n == 0x2029
    ||| n == 0x202f
    ||| n == 0x205f
    ||| n == 0x3000
}

/// ASCII white space: space, tab, line feed, form feed, carriage return.
pub open spec fn is_ascii_space(c: char) -> bool {
    c == ' ' || c == '\t' || c == '\n' || c == '\u{c}' || c == '\r'
}

/// White space of either kind.
pub open spec fn is_space(c: char, ascii: bool) -> bool {
    if ascii {
        is_ascii_space(c)
    } else {
        is_white_space(c)
    }
}

pub fn white_space(c: char) -> (r: bool)
    ensures
        r == is_white_space(c),
{
    let n: u32 = c as u32;
    (0x9 <= n && n <= 0xd) || n == 0x20 || n == 0x85 || n == 0xa0 || n == 0x1680 || (0x2000 <= n
        && n <= 0x200a) || n == 0x2028 || n == 0x2029 || n == 0x202f || n == 0x205f || n == 0x3000
}

fn space(c: char, ascii: bool) -> (r: bool)
    ensures
        r == is_space(c, ascii),
{
    if ascii {
        c == ' ' || c == '\t' || c == '\n' || c == '\u{c}' || c == '\r'
    } else {
        white_space(c)
    }
}

/// `s` without leading white space.
pub open spec fn trim_start_text(s: Seq<char>) -> Seq<char>
    decreases s.len(),
{
    if s.len() > 0 && is_white_space(s[0]) {
        trim_start_text(s.skip(1))
    } else {
        s
    }
}

/// `s` without trailing white space.
pub open spec fn trim_end_text(s: Seq<char>) -> Seq<char>
    decreases s.len(),
{
    if s.len() > 0 && is_white_space(s.last()) {
        trim_end_text(s.drop_last())
    } else {
        s
    }
}

/// `s` without white space at either end.
pub open spec fn trim_text(s: Seq<char>) -> Seq<char> {
    trim_end_text(trim_start_text(s))
}

proof fn lemma_trim_end(s: Seq<char>)
    ensures
        trim_end_text(s).len() <= s.len(),
        trim_end_text(s) == s.take(trim_end_text(s).len() as int),
        trim_end_text(s).len() > 0 ==> !is_white_space(trim_end_text(s).last()),
    decreases s.len(),
{
    if s.len() > 0 && is_white_space(s.last()) {
        lemma_trim_end(s.drop_last());
        let n = trim_end_text(s).len() as int;
        assert(s.drop_last().take(n) =~= s.take(n));
    } else {
        assert(s.take(s.len() as int) =~= s);
    }
}

proof fn lemma_trim_start(s: Seq<char>)
    ensures
        trim_start_text(s).len() > 0 ==> !is_white_space(trim_start_text(s)[0]),
    decreases s.len(),
{
    if s.len() > 0 && is_white_space(s[0]) {
        lemma_trim_start(s.skip(1));
    }
}

/// Trimming cuts white space off the ends of a text and nothing else: what is left
/// stands at `r.0` up to `r.1`, all around it is white space, and neither its first
/// nor its last character is.
pub proof fn law_trim_cuts_white_space(s: Seq<char>) -> (r: (int, int))
    ensures
        0 <= r.0 <= r.1 <= s.len(),
        trim_text(s) == s.subrange(r.0, r.1),
        forall|k: int| 0 <= k < r.0 || r.1 <= k < s.len() ==> is_white_space(#[trigger] s[k]),
        r.0 < r.1 ==> !is_white_space(s[r.0]) && !is_white_space(s[r.1 - 1]),
{
    let i = lemma_trim_start_at(s);
    let t = trim_start_text(s);
    let n = lemma_trim_end_at(t);
    lemma_trim_start(s);
    lemma_trim_end(t);
    assert(trim_text(s) =~= s.subrange(i, i + n));
    assert forall|k: int| 0 <= k < i || i + n <= k < s.len() implies is_white_space(
        #[trigger] s[k],
    ) by {
        if i + n <= k {
            assert(t[k - i] == s[k]);
        }
    }
    if n > 0 {
        assert(t[0] == s[i]);
        assert(t.take(n)[0] == t[0]);
        assert(t.take(n).last() == s[i + n - 1]);
    }
    (i, i + n)
}

/// A text is trimmed to nothing exactly where it is white space throughout.
pub proof fn law_only_blanks_trim_to_nothing(s: Seq<char>)
    ensures
        trim_text(s).len() > 0 <==> exists|k: int|
            0 <= k < s.len() && !is_white_space(#[trigger] s[k]),
{
    let (i, j) = law_trim_cuts_white_space(s);
    assert(trim_text(s).len() == j - i);
    if i < j {
        assert(!is_white_space(s[i]));
    }
}

proof fn lemma_trim_start_at(s: Seq<char>) -> (i: int)
    ensures
        0 <= i <= s.len(),
        trim_start_text(s) == s.skip(i),
        forall|k: int| 0 <= k < i ==> is_white_space(#[trigger] s[k]),
    decreases s.len(),
{
    if s.len() > 0 && is_white_space(s[0]) {
        let rest = s.skip(1);
        let i = lemma_trim_start_at(rest);
        assert(rest.skip(i) =~= s.skip(i + 1));
        assert forall|k: int| 0 <= k < i + 1 implies is_white_space(#[trigger] s[k]) by {
            if k > 0 {
                assert(rest[k - 1] == s[k]);
            }
        }
        i + 1
    } else {
        assert(s.skip(0) =~= s);
        0
    }
}

proof fn lemma_trim_end_at(s: Seq<char>) -> (n: int)
    ensures
        0 <= n <= s.len(),
        trim_end_text(s) == s.take(n),
        forall|k: int| n <= k < s.len() ==> is_white_space(#[trigger] s[k]),
    decreases s.len(),
{
    if s.len() > 0 && is_white_space(s.last()) {
        let front = s.drop_last();
        let n = lemma_trim_end_at(front);
        assert(front.take(n) =~= s.take(n));
        assert forall|k: int| n <= k < s.len() implies is_white_space(#[trigger] s[k]) by {
            if k < front.len() {
                assert(front[k] == s[k]);
            }
        }
        n
    } else {
        assert(s.take(s.len() as int) =~= s);
        s.len() as int
    }
}

/// Once trimmed, a text has nothing more to trim.
pub proof fn law_trim_is_stable(s: Seq<char>)
    ensures
        trim_text(trim_text(s)) == trim_text(s),
{
    let t = trim_start_text(s);
    let u = trim_end_text(t);
    lemma_trim_start(s);
    lemma_trim_end(t);
    if u.len() > 0 {
        assert(u[0] == t[0]);
    }
}

pub fn trim_start<'a>(s: &'a [char]) -> (r: &'a [char])
    ensures
        r@ == trim_start_text(s@),
{
    let n: usize = s.len();
    let mut i: usize = 0;
    assert(s@.skip(0) =~= s@);
    while i < n && white_space(s[i])
        invariant
            n == s@.len(),
            i <= n,
            trim_start_text(s@) == trim_start_text(s@.skip(i as int)),
        decreases n - i,
    {
        assert(s@.skip(i as int).skip(1) =~= s@.skip(i + 1));
        i = i + 1;
    }
    assert(s@.subrange(i as int, n as int) =~= s@.skip(i as int));
    slice_subrange(s, i, n)
}

fn trim_end<'a>(s: &'a [char]) -> (r: &'a [char])
    ensures
        r@ == trim_end_text(s@),
{
    let mut n: usize = s.len();
    assert(s@.take(n as int) =~= s@);
    while n > 0 && white_space(s[n - 1])
        invariant
            n <= s@.len(),
            trim_end_text(s@) == trim_end_text(s@.take(n as int)),
        decreases n,
    {
        assert(s@.take(n as int).drop_last() =~= s@.take(n - 1));
        n = n - 1;
    }
    assert(s@.subrange(0, n as int) =~= s@.take(n as int));
    slice_subrange(s, 0, n)
}

pub fn trim<'a>(s: &'a [char]) -> (r: &'a [char])
    ensures
        r@ == trim_text(s@),
{
    trim_end(trim_start(s))
}

/// A string without white space at either end.
pub fn trimmed(s: &str) -> (r: String)
    ensures
        r@ == trim_text(s@),
{
    string_of(trim(&chars_of(s)))
}

// ---------------------------------------------------------------------------
// Splitting
// ---------------------------------------------------------------------------

/// Position of the first `c` in `s`, or the length of `s` where there is none.
pub open spec fn find_char(s: Seq<char>, c: char) -> nat
    decreases s.len(),
{
    if s.len() == 0 || s[0] == c {
        0
    } else {
        1 + find_char(s.skip(1), c)
    }
}

/// `find_char` names the first occurrence, and nothing before it matches.
pub proof fn lemma_find_char(s: Seq<char>, c: char)
    ensures
        find_char(s, c) <= s.len(),
        find_char(s, c) < s.len() ==> s[find_char(s, c) as int] == c,
        forall|j: int| 0 <= j < find_char(s, c) ==> s[j] != c,
    decreases s.len(),
{
    if s.len() == 0 || s[0] == c {
    } else {
        lemma_find_char(s.skip(1), c);
        assert forall|j: int| 0 <= j < find_char(s, c) implies s[j] != c by {
            if j > 0 {
                assert(s[j] == s.skip(1)[j - 1]);
            }
        }
    }
}

/// A position with those properties is the one that `find_char` names.
pub proof fn lemma_find_char_is(s: Seq<char>, c: char, n: nat)
    requires
        n <= s.len(),
        n < s.len() ==> s[n as int] == c,
        forall|j: int| 0 <= j < n ==> s[j] != c,
    ensures
        find_char(s, c) == n,
{
    lemma_find_char(s, c);
    let m = find_char(s, c);
    if m < n {
        assert(s[m as int] == c);
    }
    if n < m {
        assert(s[n as int] != c);
    }
}

/// Position of the first `c` in `s`, or the length of `s` where there is none.
pub fn position(s: &[char], c: char) -> (r: usize)
    ensures
        r == find_char(s@, c),
        r <= s@.len(),
{
    let n: usize = s.len();
    let mut i: usize = 0;
    while i < n && s[i] != c
        invariant
            n == s@.len(),
            i <= n,
            forall|j: int| 0 <= j < i ==> s@[j] != c,
        decreases n - i,
    {
        i = i + 1;
    }
    proof {
        lemma_find_char_is(s@, c, i as nat);
    }
    i
}

/// The parts of `s` between occurrences of `c`; one part more than occurrences.
pub open spec fn split_text(s: Seq<char>, c: char) -> Seq<Seq<char>>
    decreases s.len(),
{
    let n = find_char(s, c) as int;
    if n >= s.len() {
        seq![s]
    } else {
        seq![s.take(n)] + split_text(s.skip(n + 1), c)
    }
}

pub fn split<'a>(s: &'a [char], c: char) -> (r: Vec<&'a [char]>)
    ensures
        slices(r@) == split_text(s@, c),
{
    let mut out: Vec<&'a [char]> = Vec::new();
    let n: usize = s.len();
    let mut start: usize = 0;
    assert(s@.skip(0) =~= s@);
    assert(slices(out@) + split_text(s@, c) =~= split_text(s@, c));
    loop
        invariant
            n == s@.len(),
            start <= n,
            split_text(s@, c) == slices(out@) + split_text(s@.skip(start as int), c),
        decreases n - start,
    {
        broadcast use lemma_slices_push;

        let rest: &'a [char] = slice_subrange(s, start, n);
        assert(rest@ =~= s@.skip(start as int));
        let len: usize = position(rest, c);
        let ghost before = out@;
        if len == n - start {
            out.push(rest);
            assert(slices(before) + seq![rest@] =~= slices(before).push(rest@));
            return out;
        }
        let part: &'a [char] = slice_subrange(s, start, start + len);
        assert(part@ =~= rest@.take(len as int));
        out.push(part);
        assert(rest@.skip(len + 1) =~= s@.skip(start + len + 1));
        assert(slices(before) + (seq![part@] + split_text(s@.skip(start + len + 1), c)) =~= slices(
            before,
        ).push(part@) + split_text(s@.skip(start + len + 1), c));
        start = start + len + 1;
    }
}

/// `s` without one carriage return at its end.
pub open spec fn without_cr(s: Seq<char>) -> Seq<char> {
    if s.len() > 0 && s.last() == '\r' {
        s.drop_last()
    } else {
        s
    }
}

/// The lines of `s`: each ends at a line feed, which is not part of it, nor is
/// a carriage return right before it; what follows the last line feed is a line
/// only where it is not empty.
pub open spec fn lines_of(s: Seq<char>) -> Seq<Seq<char>>
    decreases s.len(),
{
    let n = find_char(s, '\n') as int;
    if s.len() == 0 {
        seq![]
    } else if n >= s.len() {
        seq![s]
    } else {
        seq![without_cr(s.take(n))] + lines_of(s.skip(n + 1))
    }
}

pub fn lines<'a>(s: &'a [char]) -> (r: Vec<&'a [char]>)
    ensures
        slices(r@) == lines_of(s@),
{
    let mut out: Vec<&'a [char]> = Vec::new();
    let n: usize = s.len();
    let mut start: usize = 0;
    assert(s@.skip(0) =~= s@);
    assert(slices(out@) + lines_of(s@) =~= lines_of(s@));
    while start < n
        invariant
            n == s@.len(),
            start <= n,
            lines_of(s@) == slices(out@) + lines_of(s@.skip(start as int)),
        decreases n - start,
    {
        broadcast use lemma_slices_push;

        let rest: &'a [char] = slice_subrange(s, start, n);
        assert(rest@ =~= s@.skip(start as int));
        let len: usize = position(rest, '\n');
        let ghost before = out@;
        if len == n - start {
            out.push(rest);
            assert(slices(before) + seq![rest@] =~= slices(before).push(rest@));
            return out;
        }
        let mut end: usize = start + len;
        if len > 0 && s[end - 1] == '\r' {
            end = end - 1;
        }
        let line: &'a [char] = slice_subrange(s, start, end);
        assert(line@ =~= without_cr(rest@.take(len as int)));
        out.push(line);
        assert(rest@.skip(len + 1) =~= s@.skip(start + len + 1));
        assert(slices(before) + (seq![line@] + lines_of(s@.skip(start + len + 1))) =~= slices(
            before,
        ).push(line@) + lines_of(s@.skip(start + len + 1)));
        start = start + len + 1;
    }
    assert(slices(out@) + lines_of(s@.skip(n as int)) =~= slices(out@));
    out
}

/// Length of the longest run at the front of `s` whose characters all are, or
/// all are not, white space.
pub open spec fn run_length(s: Seq<char>, of_space: bool, ascii: bool) -> nat
    decreases s.len(),
{
    if s.len() == 0 || is_space(s[0], ascii) != of_space {
        0
    } else {
        1 + run_length(s.skip(1), of_space, ascii)
    }
}

/// The words of `s`: its longest parts without white space.
pub open spec fn words_of(s: Seq<char>, ascii: bool) -> Seq<Seq<char>>
    decreases s.len(),
{
    let gap = run_length(s, true, ascii) as int;
    let rest = s.skip(gap);
    let len = run_length(rest, false, ascii) as int;
    if gap >= s.len() || len <= 0 || len > rest.len() {
        seq![]
    } else {
        seq![rest.take(len)] + words_of(rest.skip(len), ascii)
    }
}

fn run_end(s: &[char], start: usize, of_space: bool, ascii: bool) -> (r: usize)
    requires
        start <= s@.len(),
    ensures
        start <= r <= s@.len(),
        r - start == run_length(s@.skip(start as int), of_space, ascii),
{
    let n: usize = s.len();
    let mut i: usize = start;
    while i < n && space(s[i], ascii) == of_space
        invariant
            n == s@.len(),
            start <= i <= n,
            run_length(s@.skip(start as int), of_space, ascii) == (i - start) + run_length(
                s@.skip(i as int),
                of_space,
                ascii,
            ),
        decreases n - i,
    {
        assert(s@.skip(i as int).skip(1) =~= s@.skip(i + 1));
        i = i + 1;
    }
    i
}

/// The words of `s`, separated by Unicode or by ASCII white space.
pub fn words<'a>(s: &'a [char], ascii: bool) -> (r: Vec<&'a [char]>)
    ensures
        slices(r@) == words_of(s@, ascii),
{
    let mut out: Vec<&'a [char]> = Vec::new();
    let n: usize = s.len();
    let mut start: usize = 0;
    assert(s@.skip(0) =~= s@);
    assert(slices(out@) + words_of(s@, ascii) =~= words_of(s@, ascii));
    loop
        invariant
            n == s@.len(),
            start <= n,
            words_of(s@, ascii) == slices(out@) + words_of(s@.skip(start as int), ascii),
        decreases n - start,
    {
        broadcast use lemma_slices_push;

        let ghost before = out@;
        let ghost rest = s@.skip(start as int);
        let from: usize = run_end(s, start, true, ascii);
        assert(rest.skip(from - start) =~= s@.skip(from as int));
        if from == n {
            assert(slices(before) + words_of(rest, ascii) =~= slices(before));
            return out;
        }
        let end: usize = run_end(s, from, false, ascii);
        proof {
            assert(s@.skip(from as int)[0] == s@[from as int]);
            assert(!is_space(s@[from as int], ascii)) by {
                lemma_run_stops(rest, true, ascii);
            }
            assert(s@.skip(from as int).skip(end - from) =~= s@.skip(end as int));
        }
        let word: &'a [char] = slice_subrange(s, from, end);
        assert(word@ =~= s@.skip(from as int).take(end - from));
        out.push(word);
        assert(slices(before) + (seq![word@] + words_of(s@.skip(end as int), ascii)) =~= slices(
            before,
        ).push(word@) + words_of(s@.skip(end as int), ascii));
        start = end;
    }
}

proof fn lemma_run_stops(s: Seq<char>, of_space: bool, ascii: bool)
    requires
        run_length(s, of_space, ascii) < s.len(),
    ensures
        is_space(s[run_length(s, of_space, ascii) as int], ascii) != of_space,
    decreases s.len(),
{
    if s.len() != 0 && is_space(s[0], ascii) == of_space {
        lemma_run_stops(s.skip(1), of_space, ascii);
    }
}

// ---------------------------------------------------------------------------
// Joining and replacing
// ---------------------------------------------------------------------------

/// The parts one after another, with `sep` between neighbours.
pub open spec fn join_texts(parts: Seq<Seq<char>>, sep: Seq<char>) -> Seq<char>
    decreases parts.len(),
{
    if parts.len() == 0 {
        seq![]
    } else if parts.len() == 1 {
        parts[0]
    } else {
        parts[0] + sep + join_texts(parts.skip(1), sep)
    }
}

/// What follows the first `i` parts in their join.
spec fn join_rest(parts: Seq<Seq<char>>, sep: Seq<char>, i: int) -> Seq<char> {
    if i >= parts.len() {
        seq![]
    } else if i == 0 {
        join_texts(parts, sep)
    } else {
        sep + join_texts(parts.skip(i), sep)
    }
}

proof fn lemma_join_step(parts: Seq<Seq<char>>, sep: Seq<char>, i: int)
    requires
        0 <= i < parts.len(),
    ensures
        join_rest(parts, sep, i) == (if i == 0 {
            seq![]
        } else {
            sep
        }) + parts[i] + join_rest(parts, sep, i + 1),
{
    let rest = parts.skip(i);
    assert(parts.skip(0) =~= parts);
    assert(rest.skip(1) =~= parts.skip(i + 1));
    assert(rest[0] == parts[i]);
    let none: Seq<char> = seq![];
    assert(none + parts[i] =~= parts[i]);
    assert(join_rest(parts, sep, i) =~= (if i == 0 {
        none
    } else {
        sep
    }) + parts[i] + join_rest(parts, sep, i + 1));
}

/// The strings one after another, with `sep` between neighbours.
pub fn join(parts: &[String], sep: &str) -> (r: String)
    ensures
        r@ == join_texts(texts(parts@), sep@),
{
    let mut out: String = String::new();
    let n: usize = parts.len();
    let mut i: usize = 0;
    let ghost all = texts(parts@);
    assert(out@ + join_rest(all, sep@, 0) =~= join_texts(all, sep@));
    while i < n
        invariant
            n == parts@.len(),
            i <= n,
            all == texts(parts@),
            join_texts(all, sep@) == out@ + join_rest(all, sep@, i as int),
        decreases n - i,
    {
        proof {
            lemma_join_step(all, sep@, i as int);
        }
        let ghost before = out@;
        if i > 0 {
            out.append(sep);
        }
        out.append(&parts[i]);
        let ghost lead = if i == 0 {
            seq![]
        } else {
            sep@
        };
        assert(before + (lead + all[i as int] + join_rest(all, sep@, i + 1)) =~= out@ + join_rest(
            all,
            sep@,
            i + 1,
        ));
        i = i + 1;
    }
    assert(out@ + join_rest(all, sep@, n as int) =~= out@);
    out
}

/// The slices as strings.
pub fn strings_of(parts: &[&[char]]) -> (r: Vec<String>)
    ensures
        texts(r@) == slices(parts@),
{
    let mut out: Vec<String> = Vec::new();
    let n: usize = parts.len();
    let mut i: usize = 0;
    while i < n
        invariant
            n == parts@.len(),
            i <= n,
            texts(out@) == slices(parts@).take(i as int),
        decreases n - i,
    {
        broadcast use lemma_texts_push;

        out.push(string_of(parts[i]));
        assert(slices(parts@).take(i as int).push(parts@[i as int]@) =~= slices(parts@).take(
            i + 1,
        ));
        i = i + 1;
    }
    assert(slices(parts@).take(n as int) =~= slices(parts@));
    out
}

/// `s` with every `from` replaced by `to`.
pub open spec fn replace_text(s: Seq<char>, from: char, to: char) -> Seq<char> {
    Seq::new(
        s.len(),
        |i: int|
            if s[i] == from {
                to
            } else {
                s[i]
            },
    )
}

pub fn replace_char(s: &str, from: char, to: char) -> (r: String)
    ensures
        r@ == replace_text(s@, from, to),
{
    let chars: Vec<char> = chars_of(s);
    let mut out: String = String::new();
    let n: usize = chars.len();
    let mut i: usize = 0;
    while i < n
        invariant
            n == chars@.len(),
            chars@ == s@,
            i <= n,
            out@ =~= replace_text(s@, from, to).take(i as int),
        decreases n - i,
    {
        let c: char = chars[i];
        if c == from {
            out.push(to);
        } else {
            out.push(c);
        }
        i = i + 1;
    }
    out
}

/// Two texts one after the other.
pub fn cat2(a: &str, b: &str) -> (r: String)
    ensures
        r@ == a@ + b@,
{
    let mut out: String = a.to_owned();
    out.append(b);
    out
}

/// Three texts one after the other.
pub fn cat3(a: &str, b: &str, c: &str) -> (r: String)
    ensures
        r@ == a@ + b@ + c@,
{
    let mut out: String = cat2(a, b);
    out.append(c);
    out
}

/// Four texts one after the other.
pub fn cat4(a: &str, b: &str, c: &str, d: &str) -> (r: String)
    ensures
        r@ == a@ + b@ + c@ + d@,
{
    let mut out: String = cat3(a, b, c);
    out.append(d);
    out
}

/// Five texts one after the other.
pub fn cat5(a: &str, b: &str, c: &str, d: &str, e: &str) -> (r: String)
    ensures
        r@ == a@ + b@ + c@ + d@ + e@,
{
    let mut out: String = cat4(a, b, c, d);
    out.append(e);
    out
}

/// `c`, `n` times.
pub open spec fn repeat_char(c: char, n: nat) -> Seq<char> {
    Seq::new(n, |i: int| c)
}

/// Appends `c`, `n` times.
pub fn push_repeated(out: &mut String, c: char, n: usize)
    ensures
        final(out)@ == old(out)@ + repeat_char(c, n as nat),
{
    let ghost start = out@;
    let mut i: usize = 0;
    assert(start + repeat_char(c, 0) =~= start);
    while i < n
        invariant
            i <= n,
            out@ == start + repeat_char(c, i as nat),
        decreases n - i,
    {
        out.push(c);
        assert((start + repeat_char(c, i as nat)).push(c) =~= start + repeat_char(
            c,
            (i + 1) as nat,
        ));
        i = i + 1;
    }
}

// ---------------------------------------------------------------------------
// What holds of splitting and joining
// ---------------------------------------------------------------------------

/// Nothing joins to nothing and one part to itself; one part more comes behind the
/// others and a separator.
pub proof fn law_join_puts_separators_between(parts: Seq<Seq<char>>, last: Seq<char>, sep: Seq<char>)
    ensures
        join_texts(seq![], sep) == Seq::<char>::empty(),
        join_texts(seq![last], sep) == last,
        parts.len() > 0 ==> join_texts(parts.push(last), sep) == join_texts(parts, sep) + sep
            + last,
    decreases parts.len(),
{
    if parts.len() == 1 {
        let two = parts.push(last);
        assert(two.skip(1) =~= seq![last]);
        assert(join_texts(two.skip(1), sep) == last);
    } else if parts.len() > 1 {
        let more = parts.push(last);
        law_join_puts_separators_between(parts.skip(1), last, sep);
        assert(more.skip(1) =~= parts.skip(1).push(last));
        assert(join_texts(more, sep) =~= join_texts(parts, sep) + sep + last);
    }
}

/// Splitting loses nothing: the parts, joined with the character that they were
/// split at, are the text again, and none of them holds it.
pub proof fn law_split_joins_back(s: Seq<char>, c: char)
    ensures
        split_text(s, c).len() > 0,
        join_texts(split_text(s, c), seq![c]) == s,
        forall|i: int, k: int|
            0 <= i < split_text(s, c).len() && 0 <= k < split_text(s, c)[i].len()
                ==> #[trigger] split_text(s, c)[i][k] != c,
    decreases s.len(),
{
    let n = find_char(s, c) as int;
    let parts = split_text(s, c);
    lemma_find_char(s, c);
    if n < s.len() {
        let rest = s.skip(n + 1);
        law_split_joins_back(rest, c);
        let more = split_text(rest, c);
        assert(parts.skip(1) =~= more);
        assert(s =~= s.take(n) + seq![c] + rest);
        assert forall|i: int, k: int| 0 <= i < parts.len() && 0 <= k < parts[i].len() implies
            #[trigger] parts[i][k] != c by {
            if i > 0 {
                assert(parts[i] == more[i - 1]);
                assert(more[i - 1][k] != c);
            }
        }
    }
}

/// A line ends at the first line feed, and neither that nor one carriage return
/// before it belongs to it; then the next line begins. What no line feed ends is a
/// line of its own, unless it is empty.
pub proof fn law_lines_end_at_line_feeds(line: Seq<char>, rest: Seq<char>)
    requires
        !line.contains('\n'),
    ensures
        lines_of(seq![]) == Seq::<Seq<char>>::empty(),
        line.len() > 0 ==> lines_of(line) == seq![line],
        lines_of(line.push('\n') + rest) == seq![
            if line.len() > 0 && line.last() == '\r' {
                line.drop_last()
            } else {
                line
            },
        ] + lines_of(rest),
{
    assert forall|j: int| 0 <= j < line.len() implies line[j] != '\n' by {
        assert(line.contains(line[j]));
    }
    let s = line.push('\n') + rest;
    lemma_find_char_is(line, '\n', line.len());
    assert(s[line.len() as int] == '\n');
    assert forall|j: int| 0 <= j < line.len() implies s[j] != '\n' by {
        assert(s[j] == line[j]);
    }
    lemma_find_char_is(s, '\n', line.len());
    assert(s.take(line.len() as int) =~= line);
    assert(s.skip(line.len() as int + 1) =~= rest);
}

proof fn lemma_run_length(s: Seq<char>, n: int, of_space: bool, ascii: bool)
    requires
        0 <= n <= s.len(),
        forall|i: int| 0 <= i < n ==> is_space(#[trigger] s[i], ascii) == of_space,
        n < s.len() ==> is_space(s[n], ascii) != of_space,
    ensures
        run_length(s, of_space, ascii) == n,
    decreases n,
{
    if n > 0 {
        let rest = s.skip(1);
        assert(is_space(s[0], ascii) == of_space);
        assert forall|i: int| 0 <= i < n - 1 implies is_space(#[trigger] rest[i], ascii)
            == of_space by {
            assert(rest[i] == s[i + 1]);
        }
        if n < s.len() {
            assert(rest[n - 1] == s[n]);
        }
        lemma_run_length(rest, n - 1, of_space, ascii);
    }
}

/// Words are what stands between white space: behind white space comes the whole
/// run of other characters, then the words of what follows it.
pub proof fn law_words_stand_between_spaces(
    space: Seq<char>,
    word: Seq<char>,
    rest: Seq<char>,
    ascii: bool,
)
    requires
        forall|i: int| 0 <= i < space.len() ==> is_space(#[trigger] space[i], ascii),
        forall|i: int| 0 <= i < word.len() ==> !is_space(#[trigger] word[i], ascii),
        word.len() > 0,
        rest.len() > 0 ==> is_space(rest[0], ascii),
    ensures
        words_of(space, ascii) == Seq::<Seq<char>>::empty(),
        words_of(space + word + rest, ascii) == seq![word] + words_of(rest, ascii),
{
    lemma_run_length(space, space.len() as int, true, ascii);
    let s = space + word + rest;
    let n = space.len() as int;
    assert forall|i: int| 0 <= i < n implies is_space(#[trigger] s[i], ascii) by {
        assert(s[i] == space[i]);
    }
    assert(s[n] == word[0]);
    lemma_run_length(s, n, true, ascii);
    let t = s.skip(n);
    assert(t =~= word + rest);
    let m = word.len() as int;
    assert forall|i: int| 0 <= i < m implies is_space(#[trigger] t[i], ascii) == false by {
        assert(t[i] == word[i]);
    }
    if m < t.len() {
        assert(t[m] == rest[0]);
    }
    lemma_run_length(t, m, false, ascii);
    assert(t.take(m) =~= word);
    assert(t.skip(m) =~= rest);
    assert(words_of(space, ascii) =~= seq![]);
}

/// Replacing a character replaces all of it, where it stands, and nothing else.
pub proof fn law_replace_is_by_character(s: Seq<char>, from: char, to: char, i: int)
    requires
        0 <= i < s.len(),
    ensures
        replace_text(s, from, to).len() == s.len(),
        s[i] == from ==> replace_text(s, from, to)[i] == to,
        s[i] != from ==> replace_text(s, from, to)[i] == s[i],
{
}

/// What is behind a prefix is what was written behind it, and there is something
/// behind it only where the text begins with it.
pub proof fn law_behind_is_the_rest(s: Seq<char>, prefix: Seq<char>, rest: Seq<char>)
    ensures
        behind(s, prefix) == Some(rest) <==> s == prefix + rest,
        begins_with(s, prefix) <==> exists|tail: Seq<char>| s == #[trigger] (prefix + tail),
{
    let n = prefix.len() as int;
    if begins_with(s, prefix) {
        assert(s =~= prefix + s.skip(n));
    }
    if s == prefix + rest {
        assert(s.take(n) =~= prefix);
        assert(s.skip(n) =~= rest);
    }
    if exists|tail: Seq<char>| s == #[trigger] (prefix + tail) {
        let tail = choose|tail: Seq<char>| s == #[trigger] (prefix + tail);
        assert(s.take(n) =~= prefix);
    }
}

/// White space are the characters that Unicode gives that property: the ASCII controls
/// from tab to carriage return, the blank, the next line, and the spaces and separators
/// beyond. Of ASCII white space the vertical tab is none.
pub proof fn law_what_is_white_space(c: char)
    ensures
        is_white_space(c) <==> {
            ||| '\t' <= c && c <= '\r'
            ||| c == ' '
            ||| c == '\u{85}'
            ||| c == '\u{a0}'
            ||| c == '\u{1680}'
            ||| '\u{2000}' <= c && c <= '\u{200a}'
            ||| c == '\u{2028}'
            ||| c == '\u{2029}'
            ||| c == '\u{202f}'
            ||| c == '\u{205f}'
            ||| c == '\u{3000}'
        },
        is_space(c, false) <==> is_white_space(c),
        is_space(c, true) <==> is_white_space(c) && c <= ' ' && c != '\u{b}',
{
}

/// What a list of strings, or of slices, says is what each of its items says, in their
/// order.
pub proof fn law_texts_are_the_items(list: Seq<String>, parts: Seq<&[char]>, i: int)
    ensures
        texts(list).len() == list.len(),
        slices(parts).len() == parts.len(),
        0 <= i < list.len() ==> texts(list)[i] == list[i]@,
        0 <= i < parts.len() ==> slices(parts)[i] == parts[i]@,
{
}

/// A part occurs in a text exactly where the text is something, the part, and
/// something else.
pub proof fn law_what_occurs(s: Seq<char>, part: Seq<char>)
    ensures
        occurs_in(s, part) <==> exists|front: Seq<char>, back: Seq<char>|
            s == #[trigger] (front + part + back),
{
    if occurs_in(s, part) {
        let at = choose|at: int| occurs_at(s, part, at);
        let front = s.take(at);
        let back = s.skip(at + part.len());
        assert(s =~= front + part + back);
    }
    if exists|front: Seq<char>, back: Seq<char>| s == #[trigger] (front + part + back) {
        let (front, back) = choose|front: Seq<char>, back: Seq<char>|
            s == #[trigger] (front + part + back);
        assert(s.subrange(front.len() as int, (front.len() + part.len()) as int) =~= part);
        assert(occurs_at(s, part, front.len() as int));
    }
}

} // verus!
