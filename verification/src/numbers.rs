//! Numbers as text: decimal and hexadecimal.
use vstd::prelude::*;
use vstd::slice::slice_subrange;

verus! {

/// The digit for `n`, below sixteen.
pub open spec fn digit_char(n: nat) -> char {
    if n < 10 {
        (0x30 + n) as char
    } else {
        (0x57 + n) as char
    }
}

fn digit(n: u8) -> (r: char)
    requires
        n < 16,
    ensures
        r == digit_char(n as nat),
{
    if n < 10 {
        (0x30 + n) as char
    } else {
        (0x57 + n) as char
    }
}

/// `n` in decimal, without leading zeros.
pub open spec fn decimal(n: nat) -> Seq<char>
    decreases n,
{
    if n < 10 {
        seq![digit_char(n)]
    } else {
        decimal(n / 10).push(digit_char(n % 10))
    }
}

/// `n` in lower-case hexadecimal, without leading zeros.
pub open spec fn hexadecimal(n: nat) -> Seq<char>
    decreases n,
{
    if n < 16 {
        seq![digit_char(n)]
    } else {
        hexadecimal(n / 16).push(digit_char(n % 16))
    }
}

/// Appends `n` in decimal.
pub fn push_decimal(out: &mut String, n: u64)
    ensures
        final(out)@ == old(out)@ + decimal(n as nat),
    decreases n,
{
    let ghost start = out@;
    if n >= 10 {
        push_decimal(out, n / 10);
    }
    out.push(digit((n % 10) as u8));
    assert(out@ =~= start + decimal(n as nat));
}

/// `n` in decimal.
pub fn decimal_string(n: u64) -> (r: String)
    ensures
        r@ == decimal(n as nat),
{
    let mut out: String = String::new();
    push_decimal(&mut out, n);
    assert(out@ =~= decimal(n as nat));
    out
}

/// Appends `n` in hexadecimal.
pub fn push_hexadecimal(out: &mut String, n: u32)
    ensures
        final(out)@ == old(out)@ + hexadecimal(n as nat),
    decreases n,
{
    let ghost start = out@;
    if n >= 16 {
        push_hexadecimal(out, n / 16);
    }
    out.push(digit((n % 16) as u8));
    assert(out@ =~= start + hexadecimal(n as nat));
}

/// The last `width` hexadecimal digits of `n`, leading zeros included.
pub open spec fn hex_digits(n: nat, width: nat) -> Seq<char>
    decreases width,
{
    if width == 0 {
        seq![]
    } else {
        hex_digits(n / 16, (width - 1) as nat).push(digit_char(n % 16))
    }
}

/// Appends the last `width` hexadecimal digits of `n`.
pub fn push_hex_digits(out: &mut String, n: u32, width: usize)
    ensures
        final(out)@ == old(out)@ + hex_digits(n as nat, width as nat),
    decreases width,
{
    let ghost start = out@;
    if width > 0 {
        push_hex_digits(out, n / 16, width - 1);
        out.push(digit((n % 16) as u8));
    }
    assert(out@ =~= start + hex_digits(n as nat, width as nat));
}

pub proof fn lemma_hex_digits_len(n: nat, width: nat)
    ensures
        hex_digits(n, width).len() == width,
    decreases width,
{
    if width > 0 {
        lemma_hex_digits_len(n / 16, (width - 1) as nat);
    }
}

// ---------------------------------------------------------------------------
// Reading decimals
// ---------------------------------------------------------------------------

pub open spec fn is_digit(c: char) -> bool {
    '0' <= c && c <= '9'
}

pub open spec fn all_digits(s: Seq<char>) -> bool {
    forall|i: int| 0 <= i < s.len() ==> is_digit(#[trigger] s[i])
}

/// The number that a sequence of decimal digits stands for.
pub open spec fn digits_value(s: Seq<char>) -> nat
    decreases s.len(),
{
    if s.len() == 0 {
        0
    } else {
        digits_value(s.drop_last()) * 10 + (s.last() as nat - '0' as nat) as nat
    }
}

/// A text without one plus sign at its front.
pub open spec fn without_plus(s: Seq<char>) -> Seq<char> {
    if s.len() > 0 && s[0] == '+' {
        s.skip(1)
    } else {
        s
    }
}

/// The unsigned number, at most `max`, that a text spells: an optional plus
/// sign and at least one decimal digit, nothing else.
pub open spec fn parse_number(s: Seq<char>, max: nat) -> Option<nat> {
    let digits = without_plus(s);
    if digits.len() > 0 && all_digits(digits) && digits_value(digits) <= max {
        Some(digits_value(digits))
    } else {
        None
    }
}

proof fn lemma_digits_value_grows(s: Seq<char>, i: int)
    requires
        0 <= i <= s.len(),
    ensures
        digits_value(s.take(i)) <= digits_value(s),
    decreases s.len(),
{
    if i == s.len() {
        assert(s.take(i) =~= s);
    } else {
        lemma_digits_value_grows(s.drop_last(), i);
        assert(s.drop_last().take(i) =~= s.take(i));
    }
}

/// Reads an unsigned number of at most `max`.
pub fn parse_unsigned(s: &[char], max: u64) -> (r: Option<u64>)
    ensures
        match r {
            Some(n) => parse_number(s@, max as nat) == Some(n as nat),
            None => parse_number(s@, max as nat) is None,
        },
{
    let start: usize = if s.len() > 0 && s[0] == '+' {
        1
    } else {
        0
    };
    let digits: &[char] = slice_subrange(s, start, s.len());
    assert(digits@ =~= without_plus(s@));
    let n: usize = digits.len();
    if n == 0 {
        return None;
    }
    let mut value: u64 = 0;
    let mut i: usize = 0;
    while i < n
        invariant
            n == digits@.len(),
            i <= n,
            digits@ == without_plus(s@),
            n > 0,
            forall|j: int| 0 <= j < i ==> is_digit(#[trigger] digits@[j]),
            value == digits_value(digits@.take(i as int)),
            value <= max,
        decreases n - i,
    {
        let c: char = digits[i];
        if !('0' <= c && c <= '9') {
            assert(!is_digit(digits@[i as int]));
            return None;
        }
        let d: u64 = c as u64 - '0' as u64;
        proof {
            assert(digits@.take(i + 1).drop_last() =~= digits@.take(i as int));
            lemma_digits_value_grows(digits@, i + 1);
        }
        if value > max / 10 {
            return None;
        }
        let shifted: u64 = value * 10;
        if d > max - shifted {
            return None;
        }
        value = shifted + d;
        i = i + 1;
    }
    assert(digits@.take(n as int) =~= digits@);
    Some(value)
}

/// Reads a `u32`.
pub fn parse_u32(s: &[char]) -> (r: Option<u32>)
    ensures
        match r {
            Some(n) => parse_number(s@, u32::MAX as nat) == Some(n as nat),
            None => parse_number(s@, u32::MAX as nat) is None,
        },
{
    match parse_unsigned(s, u32::MAX as u64) {
        Some(n) => Some(n as u32),
        None => None,
    }
}

/// A decimal is made of digits, does not start with a sign, and reads back as
/// the number that it was written for.
pub proof fn lemma_decimal_reads_back(n: nat)
    ensures
        decimal(n).len() > 0,
        all_digits(decimal(n)),
        digits_value(decimal(n)) == n,
        forall|max: nat| n <= max ==> #[trigger] parse_number(decimal(n), max) == Some(n),
    decreases n,
{
    let d = decimal(n);
    if n < 10 {
        assert(d.drop_last() =~= seq![]);
        reveal_with_fuel(digits_value, 2);
        assert(is_digit(d[0]));
    } else {
        lemma_decimal_reads_back(n / 10);
        let front = decimal(n / 10);
        assert(d.drop_last() =~= front);
        assert(d.last() == digit_char(n % 10));
        assert(is_digit(digit_char(n % 10)));
        assert forall|i: int| 0 <= i < d.len() implies is_digit(#[trigger] d[i]) by {
            if i < front.len() {
                assert(d[i] == front[i]);
            }
        }
    }
    assert(is_digit(d[0]));
    assert(without_plus(d) == d);
}

/// A decimal is written place by place, the units last, and without a zero in front.
pub proof fn law_decimal_places(n: nat, d: int)
    requires
        0 <= d < 10,
    ensures
        decimal(d as nat) == seq!["0123456789"@[d]],
        n > 0 ==> decimal(10 * n + d as nat) == decimal(n).push("0123456789"@[d]),
{
    reveal_strlit("0123456789");
    assert((10 * n + d as nat) / 10 == n && (10 * n + d as nat) % 10 == d);
    assert(decimal(d as nat) =~= seq!["0123456789"@[d]]);
}

/// A hexadecimal is written place by place, the units last, in lower case: without a
/// zero in front, or with as many as its width takes.
pub proof fn law_hexadecimal_places(n: nat, d: int, width: nat)
    requires
        0 <= d < 16,
    ensures
        hexadecimal(d as nat) == seq!["0123456789abcdef"@[d]],
        n > 0 ==> hexadecimal(16 * n + d as nat) == hexadecimal(n).push("0123456789abcdef"@[d]),
        hex_digits(n, 0) == Seq::<char>::empty(),
        hex_digits(16 * n + d as nat, width + 1) == hex_digits(n, width).push(
            "0123456789abcdef"@[d],
        ),
{
    reveal_strlit("0123456789abcdef");
    assert((16 * n + d as nat) / 16 == n && (16 * n + d as nat) % 16 == d);
    assert(hexadecimal(d as nat) =~= seq!["0123456789abcdef"@[d]]);
}

proof fn lemma_zeros_and_decimal(s: Seq<char>)
    requires
        s.len() > 0,
        all_digits(s),
    ensures
        decimal(digits_value(s)).len() <= s.len(),
        s.skip(s.len() - decimal(digits_value(s)).len()) == decimal(digits_value(s)),
        forall|i: int| 0 <= i < s.len() - decimal(digits_value(s)).len() ==> s[i] == '0',
    decreases s.len(),
{
    let n = digits_value(s);
    let front = s.drop_last();
    let d = (s.last() as nat - '0' as nat) as nat;
    assert(is_digit(s[s.len() - 1]));
    assert(digit_char(d) == s.last());
    if front.len() == 0 {
        assert(digits_value(front) == 0);
        assert(s.skip(0) =~= decimal(n));
    } else {
        assert forall|i: int| 0 <= i < front.len() implies is_digit(#[trigger] front[i]) by {
            assert(front[i] == s[i]);
        }
        lemma_zeros_and_decimal(front);
        let m = digits_value(front);
        let shown = decimal(m);
        let at = front.len() - shown.len();
        assert(n == m * 10 + d);
        assert forall|i: int| 0 <= i < at implies s[i] == '0' by {
            assert(s[i] == front[i]);
        }
        if m > 0 {
            assert(n / 10 == m && n % 10 == d);
            assert(s.skip(at) =~= front.skip(at).push(s.last()));
        } else {
            assert(front.skip(at)[0] == shown[0]);
            assert(front[at] == '0' && s[at] == '0');
            assert(s.skip(at + 1) =~= decimal(n));
        }
    }
}

proof fn lemma_leading_zeros(s: Seq<char>, n: nat)
    requires
        decimal(n).len() <= s.len(),
        s.skip(s.len() - decimal(n).len()) == decimal(n),
        forall|i: int| 0 <= i < s.len() - decimal(n).len() ==> s[i] == '0',
    ensures
        all_digits(s),
        digits_value(s) == n,
    decreases s.len(),
{
    lemma_decimal_reads_back(n);
    let at = s.len() - decimal(n).len();
    assert forall|i: int| 0 <= i < s.len() implies is_digit(#[trigger] s[i]) by {
        if i >= at {
            assert(s[i] == decimal(n)[i - at]);
        }
    }
    lemma_zeros_and_decimal(s);
    lemma_zeros_count(s.take(at), decimal(n));
    assert(s =~= s.take(at) + decimal(n));
}

proof fn lemma_zeros_count(zeros: Seq<char>, digits: Seq<char>)
    requires
        forall|i: int| 0 <= i < zeros.len() ==> zeros[i] == '0',
    ensures
        digits_value(zeros + digits) == digits_value(digits),
    decreases zeros.len() + digits.len(),
{
    let all = zeros + digits;
    if digits.len() > 0 {
        lemma_zeros_count(zeros, digits.drop_last());
        assert(all.drop_last() =~= zeros + digits.drop_last());
    } else if zeros.len() > 0 {
        let front = zeros.drop_last();
        lemma_zeros_count(front, digits);
        assert(all.drop_last() =~= front + digits);
        assert(all.last() == '0');
    }
}

/// A text spells a number exactly where it is the number's decimal, with any number
/// of zeros in front of it and one plus sign in front of these or none, and the number
/// is not above the limit.
pub proof fn law_what_spells_a_number(s: Seq<char>, max: nat, n: nat)
    ensures
        ({
            let padded = |t: Seq<char>|
                {
                    let zeros = t.len() - decimal(n).len();
                    &&& zeros >= 0
                    &&& t.skip(zeros) == decimal(n)
                    &&& forall|i: int| 0 <= i < zeros ==> t[i] == '0'
                };
            parse_number(s, max) == Some(n) <==> n <= max && (padded(s) || (s.len() > 0 && s[0]
                == '+' && padded(s.skip(1))))
        }),
{
    lemma_decimal_reads_back(n);
    let padded = |t: Seq<char>|
        {
            let zeros = t.len() - decimal(n).len();
            &&& zeros >= 0
            &&& t.skip(zeros) == decimal(n)
            &&& forall|i: int| 0 <= i < zeros ==> t[i] == '0'
        };
    if parse_number(s, max) == Some(n) {
        lemma_zeros_and_decimal(without_plus(s));
    }
    if padded(s) {
        lemma_leading_zeros(s, n);
        assert(is_digit(s[0]));
    }
    if s.len() > 0 && padded(s.skip(1)) {
        lemma_leading_zeros(s.skip(1), n);
    }
}

} // verus!
