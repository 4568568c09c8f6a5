use vstd::prelude::*;
use vstd::string::StrSliceExecFns;
use vstd::string::StringExecFns;

verus! {

// ---------------------------------------------------------------------------
// Decimal digits
// ---------------------------------------------------------------------------
pub open spec fn is_digit(c: char) -> bool {
    48 <= c as u32 <= 57
}

pub open spec fn digit_val(c: char) -> int {
    (c as u32) - 48
}

pub open spec fn all_digits(s: Seq<char>) -> bool {
    forall|i: int| 0 <= i < s.len() ==> is_digit(#[trigger] s[i])
}

/// Numeric value of a string of decimal digits, most significant first.
pub open spec fn digits_val(s: Seq<char>) -> int
    decreases s.len(),
{
    if s.len() == 0 {
        0
    } else {
        digits_val(s.drop_last()) * 10 + digit_val(s.last())
    }
}

pub proof fn lemma_digits_val_nonneg(s: Seq<char>)
    requires
        all_digits(s),
    ensures
        digits_val(s) >= 0,
    decreases s.len(),
{
    if s.len() > 0 {
        assert(all_digits(s.drop_last()));
        lemma_digits_val_nonneg(s.drop_last());
    }
}

/// The value of a digit string never falls below the value of any prefix.
pub proof fn lemma_digits_val_prefix_le(s: Seq<char>, i: int)
    requires
        all_digits(s),
        0 <= i <= s.len(),
    ensures
        digits_val(s.take(i)) <= digits_val(s),
    decreases s.len() - i,
{
    assert(all_digits(s.take(i)));
    lemma_digits_val_nonneg(s.take(i));
    if i == s.len() {
        assert(s.take(i) =~= s);
    } else {
        assert(s.take(i + 1).drop_last() =~= s.take(i));
        assert(s.take(i + 1).last() == s[i]);
        lemma_digits_val_nonneg(s.take(i + 1));
        assert(digits_val(s.take(i)) <= digits_val(s.take(i + 1)));
        lemma_digits_val_prefix_le(s, i + 1);
    }
}

// ---------------------------------------------------------------------------
// Parsing signed 32-bit integers
// ---------------------------------------------------------------------------
/// Mathematical reading of a decimal integer literal: an optional minus sign
/// followed by one or more digits.
pub open spec fn spec_parse_int(s: Seq<char>) -> Option<int> {
    if s.len() >= 2 && s[0] == '-' && all_digits(s.skip(1)) {
        Some(-digits_val(s.skip(1)))
    } else if s.len() >= 1 && all_digits(s) {
        Some(digits_val(s))
    } else {
        None
    }
}

/// A decimal integer literal, rejected when it does not fit an `i32`.
pub open spec fn spec_parse_i32(s: Seq<char>) -> Option<int> {
    match spec_parse_int(s) {
        Some(v) => if i32::MIN <= v <= i32::MAX {
            Some(v)
        } else {
            None
        },
        None => None,
    }
}

/// Parses a decimal integer literal as an `i32`.
pub fn parse_i32(s: &str) -> (r: Option<i32>)
    ensures
        match r {
            Some(v) => spec_parse_i32(s@) == Some(v as int),
            None => spec_parse_i32(s@) is None,
        },
{
    let n: usize = s.unicode_len();
    if n == 0 {
        return None;
    }
    let first: char = s.get_char(0);
    let neg: bool = first == '-';
    let start: usize = if neg { 1 } else { 0 };
    if n == start {
        proof {
            if neg {
                assert(('-' as u32) == 45);
                assert(!is_digit(s@[0]));
            }
        }
        return None;
    }
    let ghost digits: Seq<char> = if neg { s@.skip(1) } else { s@ };
    // First pass: every remaining character must be a digit.
    let mut i: usize = start;
    while i < n
        invariant
            start <= i <= n,
            n == s@.len(),
            start == if neg { 1int } else { 0int },
            neg == (s@[0] == '-'),
            digits == (if neg { s@.skip(1) } else { s@ }),
            forall|j: int| start <= j < i ==> is_digit(#[trigger] s@[j]),
        decreases n - i,
    {
        let c: char = s.get_char(i);
        if !(('0' <= c) && (c <= '9')) {
            assert(!is_digit(s@[i as int]));
            assert(!all_digits(digits)) by {
                assert(digits[i - start] == s@[i as int]);
            }
            proof {
                if neg {
                    assert(('-' as u32) == 45);
                    assert(!is_digit(s@[0]));
                    assert(!all_digits(s@));
                    assert(!all_digits(s@.skip(1)));
                } else {
                    assert(s@[0] != '-');
                    assert(!all_digits(s@));
                }
                assert(spec_parse_int(s@) is None);
            }
            return None;
        }
        assert(is_digit(s@[i as int]));
        i = i + 1;
    }
    assert(all_digits(digits)) by {
        assert(forall|j: int|
            0 <= j < digits.len() ==> #[trigger] digits[j] == s@[j + start]);
    }
    // Second pass: accumulate the magnitude, giving up once it can no longer
    // fit an `i32`.
    let mut mag: u64 = 0;
    let mut k: usize = start;
    while k < n
        invariant
            start <= k <= n,
            n == s@.len(),
            start == if neg { 1int } else { 0int },
            neg == (s@[0] == '-'),
            digits == (if neg { s@.skip(1) } else { s@ }),
            all_digits(digits),
            mag as int == digits_val(digits.take(k - start)),
            mag <= 0x8000_0000u64,
        decreases n - k,
    {
        let c: char = s.get_char(k);
        assert(s@[k as int] == digits[k - start]);
        assert(is_digit(digits[k - start]));
        let d: u32 = (c as u32) - 48;
        let next: u64 = mag * 10 + (d as u64);
        proof {
            assert(digits.take(k + 1 - start).drop_last() =~= digits.take(k - start));
            assert(digits.take(k + 1 - start).last() == digits[k - start]);
        }
        if next > 0x8000_0000u64 {
            // The value of the digits read so far already exceeds 2^31, and
            // every longer digit string has at least that value.
            proof {
                lemma_digits_val_prefix_le(digits, k + 1 - start);
            }
            return None;
        }
        mag = next;
        k = k + 1;
    }
    assert(digits.take(n - start) =~= digits);
    if neg {
        if mag == 0x8000_0000u64 {
            Some(i32::MIN)
        } else {
            Some(-(mag as i32))
        }
    } else {
        if mag >= 0x8000_0000u64 {
            None
        } else {
            Some(mag as i32)
        }
    }
}

/// Reports whether every character of the string is a decimal digit.
pub fn all_digits_str(s: &str) -> (r: bool)
    ensures
        r == all_digits(s@),
{
    let n: usize = s.unicode_len();
    let mut i: usize = 0;
    while i < n
        invariant
            i <= n,
            n == s@.len(),
            forall|j: int| 0 <= j < i ==> is_digit(#[trigger] s@[j]),
        decreases n - i,
    {
        let c: char = s.get_char(i);
        if !(('0' <= c) && (c <= '9')) {
            assert(!is_digit(s@[i as int]));
            return false;
        }
        i = i + 1;
    }
    true
}

/// Parses a non-empty string of decimal digits as a `u64`.
pub fn parse_u64_digits(s: &str) -> (r: Option<u64>)
    ensures
        match r {
            Some(m) => s@.len() >= 1 && all_digits(s@) && digits_val(s@) == m as int,
            None => !(s@.len() >= 1 && all_digits(s@) && digits_val(s@) <= u64::MAX),
        },
{
    let n: usize = s.unicode_len();
    if n == 0 {
        return None;
    }
    if !all_digits_str(s) {
        return None;
    }
    let mut mag: u64 = 0;
    let mut k: usize = 0;
    while k < n
        invariant
            k <= n,
            n == s@.len(),
            all_digits(s@),
            mag as int == digits_val(s@.take(k as int)),
        decreases n - k,
    {
        let c: char = s.get_char(k);
        assert(is_digit(s@[k as int]));
        let d: u32 = (c as u32) - 48;
        let next: u128 = (mag as u128) * 10 + (d as u128);
        proof {
            assert(s@.take(k + 1).drop_last() =~= s@.take(k as int));
            assert(s@.take(k + 1).last() == s@[k as int]);
        }
        if next > u64::MAX as u128 {
            proof {
                lemma_digits_val_prefix_le(s@, k + 1);
            }
            return None;
        }
        mag = next as u64;
        k = k + 1;
    }
    proof {
        assert(s@.take(n as int) =~= s@);
    }
    Some(mag)
}

// ---------------------------------------------------------------------------
// Formatting signed integers
// ---------------------------------------------------------------------------
pub open spec fn digit_char(d: int) -> char {
    if d == 0 {
        '0'
    } else if d == 1 {
        '1'
    } else if d == 2 {
        '2'
    } else if d == 3 {
        '3'
    } else if d == 4 {
        '4'
    } else if d == 5 {
        '5'
    } else if d == 6 {
        '6'
    } else if d == 7 {
        '7'
    } else if d == 8 {
        '8'
    } else {
        '9'
    }
}

/// Decimal digit string of a non-negative number, most significant first,
/// without leading zeros (except for the number zero itself).
pub open spec fn dec_seq(n: int) -> Seq<char>
    decreases n,
{
    if n < 10 {
        seq![digit_char(n)]
    } else {
        dec_seq(n / 10).push(digit_char(n % 10))
    }
}

/// Decimal rendering of an integer: a minus sign for negative numbers,
/// then the digits of the magnitude.
pub open spec fn int_str(n: int) -> Seq<char> {
    if n < 0 {
        seq!['-'] + dec_seq(-n)
    } else {
        dec_seq(n)
    }
}

fn digit_char_exec(d: u64) -> (c: char)
    requires
        d < 10,
    ensures
        c == digit_char(d as int),
{
    if d == 0 {
        '0'
    } else if d == 1 {
        '1'
    } else if d == 2 {
        '2'
    } else if d == 3 {
        '3'
    } else if d == 4 {
        '4'
    } else if d == 5 {
        '5'
    } else if d == 6 {
        '6'
    } else if d == 7 {
        '7'
    } else if d == 8 {
        '8'
    } else {
        '9'
    }
}

/// Relies on std's `String::push`: appends the given character to the end of
/// the string.
#[verifier::external_body]
pub fn push_char(s: &mut String, c: char)
    ensures
        final(s)@ == old(s)@.push(c),
{
    s.push(c);
}

/// Renders an integer in decimal.
pub fn i64_to_string(n: i64) -> (r: String)
    ensures
        r@ == int_str(n as int),
{
    let mut out: String = String::new();
    let mag: u64 = if n >= 0 {
        n as u64
    } else {
        proof {
            assert((-(n as i128)) as int == -(n as int));
        }
        (-(n as i128)) as u64
    };
    if n < 0 {
        push_char(&mut out, '-');
        assert(out@ =~= seq!['-']);
    }
    let ghost pre: Seq<char> = out@;
    let mut digits: Vec<char> = Vec::new();
    let mut m: u64 = mag;
    loop
        invariant_except_break
            (m == mag && digits@.len() == 0) || (digits@.len() > 0 && m != 0 && dec_seq(
                mag as int,
            ) =~= dec_seq(m as int) + digits@.reverse()),
        ensures
            dec_seq(mag as int) =~= digits@.reverse(),
            digits@.len() > 0,
        decreases m, (if digits@.len() == 0 { 1int } else { 0int }),
    {
        let ghost oldm: u64 = m;
        let d: u64 = m % 10;
        let c: char = digit_char_exec(d);
        let ghost before: Seq<char> = digits@;
        digits.push(c);
        proof {
            assert(digits@.reverse() =~= seq![c] + before.reverse());
            if oldm >= 10 {
                assert(dec_seq(oldm as int) == dec_seq(oldm as int / 10).push(digit_char(
                    oldm as int % 10)));
                assert(dec_seq(oldm as int) =~= dec_seq(oldm as int / 10) + seq![c]);
            } else {
                assert(dec_seq(oldm as int) =~= seq![c]);
            }
            if before.len() == 0 {
                assert(dec_seq(mag as int) =~= dec_seq(oldm as int) + before.reverse());
            }
            assert(dec_seq(mag as int) =~= dec_seq(oldm as int) + before.reverse());
        }
        m = m / 10;
        if m == 0 {
            proof {
                assert(oldm < 10);
                assert(dec_seq(mag as int) =~= seq![c] + before.reverse());
            }
            break;
        }
        proof {
            assert(dec_seq(mag as int) =~= dec_seq(m as int) + seq![c] + before.reverse());
            assert(dec_seq(mag as int) =~= dec_seq(m as int) + digits@.reverse());
        }
    }
    let count: usize = digits.len();
    let mut j: usize = 0;
    while j < count
        invariant
            count == digits@.len(),
            j <= count,
            dec_seq(mag as int) =~= digits@.reverse(),
            out@ =~= pre + digits@.reverse().take(j as int),
        decreases count - j,
    {
        let c: char = digits[count - 1 - j];
        push_char(&mut out, c);
        proof {
            assert(digits@.reverse()[j as int] == digits@[count - 1 - j]);
            assert(digits@.reverse().take(j + 1) =~= digits@.reverse().take(j as int).push(
                digits@.reverse()[j as int]));
        }
        j = j + 1;
    }
    proof {
        assert(digits@.reverse().take(count as int) =~= digits@.reverse());
        if n >= 0 {
            assert(out@ =~= int_str(n as int));
        } else {
            assert(out@ =~= seq!['-'] + dec_seq(-(n as int)));
        }
    }
    out
}

/// Renders a 32-bit integer in decimal.
pub fn i32_to_string(n: i32) -> (r: String)
    ensures
        r@ == int_str(n as int),
{
    i64_to_string(n as i64)
}

// ---------------------------------------------------------------------------
// String equality
// ---------------------------------------------------------------------------
/// Character-for-character equality of two string slices.
pub fn str_eq(a: &str, b: &str) -> (r: bool)
    ensures
        r == (a@ == b@),
{
    let alen: usize = a.unicode_len();
    let blen: usize = b.unicode_len();
    if alen != blen {
        return false;
    }
    let mut i: usize = 0;
    while i < alen
        invariant
            i <= alen,
            alen == a@.len(),
            alen == b@.len(),
            forall|j: int| 0 <= j < i ==> a@[j] == b@[j],
        decreases alen - i,
    {
        if a.get_char(i) != b.get_char(i) {
            return false;
        }
        i = i + 1;
    }
    proof {
        assert(a@ =~= b@);
    }
    true
}

// ---------------------------------------------------------------------------
// JSON string escaping
// ---------------------------------------------------------------------------
pub open spec fn hex_char(d: int) -> char {
    if d < 10 {
        digit_char(d)
    } else if d == 10 {
        'a'
    } else if d == 11 {
        'b'
    } else if d == 12 {
        'c'
    } else if d == 13 {
        'd'
    } else if d == 14 {
        'e'
    } else {
        'f'
    }
}

/// How a single character appears inside a JSON string literal.
pub open spec fn esc_char(c: char) -> Seq<char> {
    if c == '"' {
        seq!['\\', '"']
    } else if c == '\\' {
        seq!['\\', '\\']
    } else if c == '\n' {
        seq!['\\', 'n']
    } else if c == '\r' {
        seq!['\\', 'r']
    } else if c == '\t' {
        seq!['\\', 't']
    } else if (c as u32) < 32 {
        seq!['\\', 'u', '0', '0', hex_char((c as u32) as int / 16), hex_char((c as u32) as int % 16)]
    } else {
        seq![c]
    }
}

/// The body of a JSON string literal holding the characters of `s`.
pub open spec fn json_escape(s: Seq<char>) -> Seq<char>
    decreases s.len(),
{
    if s.len() == 0 {
        Seq::empty()
    } else {
        json_escape(s.drop_last()) + esc_char(s.last())
    }
}

/// Escapes a string for inclusion in a JSON string literal.
pub fn json_escape_str(s: &str) -> (r: String)
    ensures
        r@ == json_escape(s@),
{
    let n: usize = s.unicode_len();
    let mut out: String = String::new();
    let mut i: usize = 0;
    while i < n
        invariant
            i <= n,
            n == s@.len(),
            out@ =~= json_escape(s@.take(i as int)),
        decreases n - i,
    {
        let c: char = s.get_char(i);
        if c == '"' {
            out.append("\\\"");
            proof {
                reveal_strlit("\\\"");
            }
        } else if c == '\\' {
            out.append("\\\\");
            proof {
                reveal_strlit("\\\\");
            }
        } else if c == '\n' {
            out.append("\\n");
            proof {
                reveal_strlit("\\n");
            }
        } else if c == '\r' {
            out.append("\\r");
            proof {
                reveal_strlit("\\r");
            }
        } else if c == '\t' {
            out.append("\\t");
            proof {
                reveal_strlit("\\t");
            }
        } else if (c as u32) < 32 {
            out.append("\\u00");
            proof {
                reveal_strlit("\\u00");
            }
            let v: u32 = c as u32;
            let h1: char = if v / 16 < 10 {
                digit_char_exec((v / 16) as u64)
            } else {
                'x'
            };
            push_char(&mut out, h1);
            let d2: u32 = v % 16;
            let h2: char = if d2 < 10 {
                digit_char_exec(d2 as u64)
            } else if d2 == 10 {
                'a'
            } else if d2 == 11 {
                'b'
            } else if d2 == 12 {
                'c'
            } else if d2 == 13 {
                'd'
            } else if d2 == 14 {
                'e'
            } else {
                'f'
            };
            push_char(&mut out, h2);
        } else {
            push_char(&mut out, c);
        }
        proof {
            assert(s@.take(i + 1).drop_last() =~= s@.take(i as int));
            assert(s@.take(i + 1).last() == s@[i as int]);
            assert(out@ =~= json_escape(s@.take(i as int)) + esc_char(s@[i as int]));
        }
        i = i + 1;
    }
    proof {
        assert(s@.take(n as int) =~= s@);
    }
    out
}

} // verus!
