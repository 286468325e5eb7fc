//! Decimal text: what it means for a string of characters to denote an
//! integer, and verified parsing of such strings.

use vstd::prelude::*;

verus! {

/// A decimal digit character.
pub open spec fn is_digit(c: char) -> bool {
    '0' <= c && c <= '9'
}

/// The numeric value of a digit character.
pub open spec fn digit_val(c: char) -> int {
    c as int - '0' as int
}

/// Every character of `s` is a decimal digit.
pub open spec fn all_digits(s: Seq<char>) -> bool {
    forall|i: int| 0 <= i < s.len() ==> is_digit(#[trigger] s[i])
}

/// A non-empty run of decimal digits.
pub open spec fn digit_run(s: Seq<char>) -> bool {
    s.len() > 0 && all_digits(s)
}

/// The value of a digit string, most significant digit first.
pub open spec fn digits_val(s: Seq<char>) -> int
    decreases s.len(),
{
    if s.len() == 0 {
        0
    } else {
        digits_val(s.drop_last()) * 10 + digit_val(s.last())
    }
}

/// Well-formed signed integer text: an optional sign followed by at least
/// one digit.
pub open spec fn int_text_wf(s: Seq<char>) -> bool {
    if s.len() > 0 && (s[0] == '-' || s[0] == '+') {
        digit_run(s.skip(1))
    } else {
        digit_run(s)
    }
}

/// The signed value denoted by well-formed integer text.
pub open spec fn int_text_val(s: Seq<char>) -> int {
    if s.len() > 0 && s[0] == '-' {
        -digits_val(s.skip(1))
    } else if s.len() > 0 && s[0] == '+' {
        digits_val(s.skip(1))
    } else {
        digits_val(s)
    }
}

/// Text that denotes an `i64`: well formed and within range.
pub open spec fn valid_i64_text(s: Seq<char>) -> bool {
    int_text_wf(s) && i64::MIN <= int_text_val(s) <= i64::MAX
}

/// Well-formed unsigned integer text: an optional `+` followed by at least
/// one digit (a minus sign is not accepted).
pub open spec fn uint_text_wf(s: Seq<char>) -> bool {
    if s.len() > 0 && s[0] == '+' {
        digit_run(s.skip(1))
    } else {
        digit_run(s)
    }
}

/// The value denoted by well-formed unsigned integer text.
pub open spec fn uint_text_val(s: Seq<char>) -> int {
    if s.len() > 0 && s[0] == '+' {
        digits_val(s.skip(1))
    } else {
        digits_val(s)
    }
}

/// Text that denotes a `u8`: well formed and within range.
pub open spec fn valid_u8_text(s: Seq<char>) -> bool {
    uint_text_wf(s) && 0 <= uint_text_val(s) <= u8::MAX
}

/// The value of a digit string is non-negative and at least the value of
/// any of its prefixes.
pub proof fn lemma_digits_val_prefix(s: Seq<char>, k: int)
    requires
        all_digits(s),
        0 <= k <= s.len(),
    ensures
        0 <= digits_val(s.take(k)) <= digits_val(s),
    decreases s.len(),
{
    if s.len() == 0 {
        assert(s.take(k) =~= s);
    } else if k == s.len() {
        assert(s.take(k) =~= s);
        lemma_digits_val_prefix(s.drop_last(), s.len() - 1);
        assert(s.drop_last().take(s.len() - 1) =~= s.drop_last());
    } else {
        assert(s.drop_last().take(k) =~= s.take(k));
        lemma_digits_val_prefix(s.drop_last(), k);
    }
}

/// Appending one digit multiplies the value by ten and adds the digit.
pub proof fn lemma_digits_val_push(s: Seq<char>, c: char)
    ensures
        digits_val(s.push(c)) == digits_val(s) * 10 + digit_val(c),
{
    assert(s.push(c).drop_last() =~= s);
}

/// The digit character for a value in `0..=9`.
pub open spec fn digit_char(d: int) -> char {
    (d + '0' as int) as char
}

/// Canonical decimal text of a non-negative integer: no sign, no leading
/// zeros (except for zero itself).
pub open spec fn nat_to_text(n: int) -> Seq<char>
    decreases n,
{
    if n < 10 {
        seq![digit_char(n)]
    } else {
        nat_to_text(n / 10).push(digit_char(n % 10))
    }
}

/// Canonical decimal text of an integer: a minus sign for negative values,
/// then the magnitude's digits.
pub open spec fn int_to_text(n: int) -> Seq<char> {
    if n < 0 {
        seq!['-'] + nat_to_text(-n)
    } else {
        nat_to_text(n)
    }
}

/// Canonical text is a digit run whose value is the formatted number.
pub proof fn lemma_nat_to_text_digits(n: int)
    requires
        n >= 0,
    ensures
        digit_run(nat_to_text(n)),
        digits_val(nat_to_text(n)) == n,
    decreases n,
{
    if n < 10 {
        let s = nat_to_text(n);
        assert(s.drop_last() =~= Seq::<char>::empty());
        assert(digits_val(Seq::<char>::empty()) == 0);
        assert(is_digit(s[0]));
        assert(digits_val(s) == digit_val(digit_char(n)));
    } else {
        lemma_nat_to_text_digits(n / 10);
        lemma_digits_val_push(nat_to_text(n / 10), digit_char(n % 10));
        let s = nat_to_text(n);
        assert(digits_val(s) == (n / 10) * 10 + (n % 10));
        assert forall|i: int| 0 <= i < s.len() implies is_digit(#[trigger] s[i]) by {
            if i < s.len() - 1 {
                assert(s[i] == nat_to_text(n / 10)[i]);
            }
        }
    }
}

/// Canonical integer text is valid and denotes the formatted number.
pub proof fn lemma_int_to_text_valid(n: i64)
    ensures
        valid_i64_text(int_to_text(n as int)),
        int_text_val(int_to_text(n as int)) == n as int,
        int_to_text(n as int).len() > 0,
        forall|i: int|
            0 <= i < int_to_text(n as int).len() ==> (#[trigger] int_to_text(n as int)[i] == '-'
                || is_digit(int_to_text(n as int)[i])),
{
    let s = int_to_text(n as int);
    if n < 0 {
        lemma_nat_to_text_digits(-(n as int));
        assert(s.skip(1) =~= nat_to_text(-(n as int)));
        assert(s[0] == '-');
        assert(!is_digit('-'));
        assert(forall|i: int| 1 <= i < s.len() ==> s[i] == s.skip(1)[i - 1]);
    } else {
        lemma_nat_to_text_digits(n as int);
        assert(s[0] != '-' && s[0] != '+');
    }
}

/// The digit characters of `s`, last first.
pub open spec fn rev_digit_chars(s: Seq<u8>) -> Seq<char>
    decreases s.len(),
{
    if s.len() == 0 {
        Seq::empty()
    } else {
        seq![digit_char(s.last() as int)] + rev_digit_chars(s.drop_last())
    }
}

/// Prepending a digit to the source appends its character to the output.
proof fn lemma_rev_digit_chars_prepend(d: u8, s: Seq<u8>)
    ensures
        rev_digit_chars(seq![d] + s) == rev_digit_chars(s) + seq![digit_char(d as int)],
    decreases s.len(),
{
    let t = seq![d] + s;
    if s.len() == 0 {
        assert(t.drop_last() =~= Seq::<u8>::empty());
        assert(rev_digit_chars(Seq::<u8>::empty()) =~= Seq::<char>::empty());
        assert(t.last() == d);
        assert(rev_digit_chars(t) =~= rev_digit_chars(s) + seq![digit_char(d as int)]);
    } else {
        assert(t.last() == s.last());
        assert(t.drop_last() =~= seq![d] + s.drop_last());
        lemma_rev_digit_chars_prepend(d, s.drop_last());
        assert(rev_digit_chars(t) =~= rev_digit_chars(s) + seq![digit_char(d as int)]);
    }
}

/// The one-character string for a digit value.
fn digit_str(d: u64) -> (r: &'static str)
    requires
        d < 10,
    ensures
        r@ == seq![digit_char(d as int)],
{
    let r: &'static str = match d {
        0 => "0",
        1 => "1",
        2 => "2",
        3 => "3",
        4 => "4",
        5 => "5",
        6 => "6",
        7 => "7",
        8 => "8",
        _ => "9",
    };
    proof {
        reveal_strlit("0");
        reveal_strlit("1");
        reveal_strlit("2");
        reveal_strlit("3");
        reveal_strlit("4");
        reveal_strlit("5");
        reveal_strlit("6");
        reveal_strlit("7");
        reveal_strlit("8");
        reveal_strlit("9");
        assert(r@ =~= seq![digit_char(d as int)]);
    }
    r
}

/// Formats an `i64` as its canonical decimal text.
pub fn format_i64(n: i64) -> (r: String)
    ensures
        r@ == int_to_text(n as int),
{
    let mag: u64 = if n < 0 {
        (-(n as i128)) as u64
    } else {
        n as u64
    };
    let mut digits: Vec<u64> = Vec::new();
    let mut m: u64 = mag;
    while m >= 10
        invariant
            nat_to_text(mag as int) == nat_to_text(m as int) + rev_digit_chars(
                digits@.map_values(|d: u64| d as u8),
            ),
            forall|i: int| 0 <= i < digits@.len() ==> #[trigger] digits@[i] < 10,
        decreases m,
    {
        let d = m % 10;
        proof {
            let ds = digits@.map_values(|x: u64| x as u8);
            let ds2 = digits@.push(d).map_values(|x: u64| x as u8);
            assert(ds2 =~= ds.push(d as u8));
            assert(ds2.drop_last() =~= ds);
            assert(nat_to_text(m as int) == nat_to_text(m as int / 10).push(
                digit_char(m as int % 10),
            ));
            assert(nat_to_text(m as int / 10) + (seq![digit_char(d as int)] + rev_digit_chars(ds))
                =~= (nat_to_text(m as int / 10).push(digit_char(m as int % 10))) + rev_digit_chars(
                ds,
            ));
        }
        digits.push(d);
        m = m / 10;
    }
    let ghost all = digits@.push(m).map_values(|x: u64| x as u8);
    proof {
        let ds = digits@.map_values(|x: u64| x as u8);
        assert(all.drop_last() =~= ds);
        assert(nat_to_text(mag as int) =~= rev_digit_chars(all));
    }
    let mut r = String::new();
    if n < 0 {
        r.append("-");
        proof {
            reveal_strlit("-");
            assert(r@ =~= seq!['-']);
        }
    }
    let ghost prefix = r@;
    digits.push(m);
    let mut j: usize = digits.len();
    while j > 0
        invariant
            j <= digits.len(),
            all == digits@.map_values(|x: u64| x as u8),
            forall|i: int| 0 <= i < digits@.len() ==> #[trigger] digits@[i] < 10,
            r@ == prefix + rev_digit_chars(all.skip(j as int)),
        decreases j,
    {
        j = j - 1;
        let d = digits[j];
        proof {
            assert(all.skip(j as int) =~= seq![all[j as int]] + all.skip(j as int + 1));
            lemma_rev_digit_chars_prepend(all[j as int], all.skip(j as int + 1));
        }
        r.append(digit_str(d));
    }
    proof {
        assert(all.skip(0) =~= all);
        if n < 0 {
            assert(mag as int == -(n as int));
            assert(r@ =~= int_to_text(n as int));
        } else {
            assert(prefix =~= Seq::<char>::empty());
            assert(r@ =~= int_to_text(n as int));
        }
    }
    r
}

/// How many times `c` occurs in `s`.
pub open spec fn count_char(s: Seq<char>, c: char) -> int
    decreases s.len(),
{
    if s.len() == 0 {
        0
    } else {
        count_char(s.drop_last(), c) + if s.last() == c {
            1int
        } else {
            0int
        }
    }
}

/// A character count is never negative.
pub proof fn lemma_count_char_nonneg(s: Seq<char>, c: char)
    ensures
        count_char(s, c) >= 0,
    decreases s.len(),
{
    if s.len() > 0 {
        lemma_count_char_nonneg(s.drop_last(), c);
    }
}

/// A count of zero means the character occurs nowhere.
pub proof fn lemma_count_char_zero(s: Seq<char>, c: char)
    ensures
        count_char(s, c) == 0 <==> (forall|i: int| 0 <= i < s.len() ==> #[trigger] s[i] != c),
    decreases s.len(),
{
    if s.len() > 0 {
        lemma_count_char_zero(s.drop_last(), c);
        lemma_count_char_nonneg(s.drop_last(), c);
        assert(forall|i: int| 0 <= i < s.len() - 1 ==> s.drop_last()[i] == #[trigger] s[i]);
    }
}

/// Counts add up over concatenation.
pub proof fn lemma_count_char_concat(a: Seq<char>, b: Seq<char>, c: char)
    ensures
        count_char(a + b, c) == count_char(a, c) + count_char(b, c),
    decreases b.len(),
{
    if b.len() == 0 {
        assert(a + b =~= a);
    } else {
        assert((a + b).drop_last() =~= a + b.drop_last());
        assert((a + b).last() == b.last());
        lemma_count_char_concat(a, b.drop_last(), c);
    }
}

/// With exactly one occurrence, any position holding the character is that
/// one occurrence.
pub proof fn lemma_count_char_unique(s: Seq<char>, c: char, k: int)
    requires
        count_char(s, c) == 1,
        0 <= k < s.len(),
        s[k] == c,
    ensures
        forall|j: int| 0 <= j < s.len() && #[trigger] s[j] == c ==> j == k,
{
    let a = s.take(k);
    let b = s.skip(k + 1);
    assert(s =~= a + (seq![c] + b));
    lemma_count_char_concat(a, seq![c] + b, c);
    lemma_count_char_concat(seq![c], b, c);
    assert(seq![c].drop_last() =~= Seq::<char>::empty());
    assert(count_char(Seq::<char>::empty(), c) == 0);
    assert(count_char(seq![c], c) == 1);
    lemma_count_char_nonneg(a, c);
    lemma_count_char_nonneg(b, c);
    lemma_count_char_zero(a, c);
    lemma_count_char_zero(b, c);
    assert forall|j: int| 0 <= j < s.len() && #[trigger] s[j] == c implies j == k by {
        if j < k {
            assert(a[j] == s[j]);
        } else if j > k {
            assert(b[j - k - 1] == s[j]);
        }
    }
}

/// The magnitude of `i64::MIN`.
const I64_MIN_MAG: u128 = 9223372036854775808;

/// Parses signed decimal text into an `i64`, accepting an optional leading
/// `+` or `-` and rejecting out-of-range values, exactly as `valid_i64_text`
/// describes.
pub fn parse_i64(s: &str) -> (r: Option<i64>)
    ensures
        r is Some <==> valid_i64_text(s@),
        r matches Some(v) ==> v as int == int_text_val(s@),
{
    let n = s.unicode_len();
    if n == 0 {
        return None;
    }
    let c0 = s.get_char(0);
    let neg = c0 == '-';
    let signed = neg || c0 == '+';
    let start: usize = if signed { 1 } else { 0 };
    if start == n {
        return None;
    }
    let ghost body = s@.skip(start as int);
    proof {
        assert(s@.skip(0) =~= s@);
    }
    let mut acc: u128 = 0;
    let mut i: usize = start;
    while i < n
        invariant
            start <= i <= n,
            1 <= n == s@.len(),
            start == 0 || start == 1,
            (start == 1) <==> (s@[0] == '-' || s@[0] == '+'),
            body == s@.skip(start as int),
            all_digits(s@.subrange(start as int, i as int)),
            acc <= I64_MIN_MAG,
            acc as int == digits_val(s@.subrange(start as int, i as int)),
        decreases n - i,
    {
        let c = s.get_char(i);
        let u = c as u32;
        if u < 48 || u > 57 {
            assert(!is_digit(s@[i as int]));
            assert(!int_text_wf(s@)) by {
                if int_text_wf(s@) {
                    assert(s@.skip(0) =~= s@);
                    assert(body[i - start] == s@[i as int]);
                }
            }
            return None;
        }
        let d: u128 = (u - 48) as u128;
        let next: u128 = acc * 10 + d;
        proof {
            lemma_digits_val_push(s@.subrange(start as int, i as int), s@[i as int]);
            assert(s@.subrange(start as int, i as int).push(s@[i as int]) =~= s@.subrange(
                start as int,
                i as int + 1,
            ));
        }
        if next > I64_MIN_MAG {
            // every longer digit run is at least as large, so the value is
            // out of range for either sign
            assert(!valid_i64_text(s@)) by {
                if int_text_wf(s@) {
                    assert(s@.skip(0) =~= s@);
                    assert(body =~= s@.subrange(start as int, n as int));
                    lemma_digits_val_prefix(body, i + 1 - start);
                    assert(body.take(i + 1 - start) =~= s@.subrange(start as int, i as int + 1));
                }
            }
            return None;
        }
        acc = next;
        i = i + 1;
    }
    assert(s@.subrange(start as int, n as int) =~= body);
    assert(digit_run(body));
    assert(int_text_wf(s@));
    if neg {
        assert(int_text_val(s@) == -(acc as int));
        if acc == I64_MIN_MAG {
            Some(i64::MIN)
        } else {
            Some(-(acc as i64))
        }
    } else {
        if acc == I64_MIN_MAG {
            assert(int_text_val(s@) > i64::MAX);
            return None;
        }
        assert(int_text_val(s@) == acc as int);
        Some(acc as i64)
    }
}

/// Parses unsigned decimal text into a `u8`, accepting an optional leading
/// `+` and rejecting out-of-range values, exactly as `valid_u8_text`
/// describes.
pub fn parse_u8(s: &str) -> (r: Option<u8>)
    ensures
        r is Some <==> valid_u8_text(s@),
        r matches Some(v) ==> v as int == uint_text_val(s@),
{
    let n = s.unicode_len();
    if n == 0 {
        return None;
    }
    let signed = s.get_char(0) == '+';
    let start: usize = if signed { 1 } else { 0 };
    if start == n {
        return None;
    }
    let ghost body = s@.skip(start as int);
    proof {
        assert(s@.skip(0) =~= s@);
    }
    let mut acc: u32 = 0;
    let mut i: usize = start;
    while i < n
        invariant
            start <= i <= n,
            1 <= n == s@.len(),
            start == 0 || start == 1,
            (start == 1) <==> (s@[0] == '+'),
            body == s@.skip(start as int),
            all_digits(s@.subrange(start as int, i as int)),
            acc <= 255,
            acc as int == digits_val(s@.subrange(start as int, i as int)),
        decreases n - i,
    {
        let c = s.get_char(i);
        let u = c as u32;
        if u < 48 || u > 57 {
            assert(!is_digit(s@[i as int]));
            assert(!uint_text_wf(s@)) by {
                if uint_text_wf(s@) {
                    assert(s@.skip(0) =~= s@);
                    assert(body[i - start] == s@[i as int]);
                }
            }
            return None;
        }
        let d: u32 = u - 48;
        let next: u32 = acc * 10 + d;
        proof {
            lemma_digits_val_push(s@.subrange(start as int, i as int), s@[i as int]);
            assert(s@.subrange(start as int, i as int).push(s@[i as int]) =~= s@.subrange(
                start as int,
                i as int + 1,
            ));
        }
        if next > 255 {
            assert(!valid_u8_text(s@)) by {
                if uint_text_wf(s@) {
                    assert(s@.skip(0) =~= s@);
                    assert(body =~= s@.subrange(start as int, n as int));
                    lemma_digits_val_prefix(body, i + 1 - start);
                    assert(body.take(i + 1 - start) =~= s@.subrange(start as int, i as int + 1));
                }
            }
            return None;
        }
        acc = next;
        i = i + 1;
    }
    assert(s@.subrange(start as int, n as int) =~= body);
    assert(digit_run(body));
    assert(uint_text_wf(s@));
    assert(uint_text_val(s@) == acc as int);
    Some(acc as u8)
}

} // verus!
