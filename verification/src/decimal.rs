use vstd::prelude::*;

verus! {

/// The ASCII digit that stands for `d` (`0 <= d < 10`).
pub open spec fn digit_char(d: nat) -> char {
    ((d + 48) as u32) as char
}

/// The value of an ASCII decimal digit.
pub open spec fn digit_value(c: char) -> int {
    (c as u32) - 48
}

/// Whether `c` is one of the ASCII digits `0`..`9`.
pub open spec fn is_digit(c: char) -> bool {
    '0' <= c <= '9'
}

/// The shortest decimal spelling of `n`, most significant digit first.
pub open spec fn decimal_digits(n: nat) -> Seq<char>
    decreases n,
{
    if n < 10 {
        seq![digit_char(n)]
    } else {
        decimal_digits(n / 10).push(digit_char(n % 10))
    }
}

/// How `i32`'s `Display` spells `n`: a minus sign for negative values,
/// then the decimal digits of its magnitude.
pub open spec fn i32_text(n: i32) -> Seq<char> {
    if n < 0 {
        seq!['-'] + decimal_digits((-n) as nat)
    } else {
        decimal_digits(n as nat)
    }
}

/// The value of a run of decimal digits, most significant first.
pub open spec fn digits_value(s: Seq<char>) -> int
    decreases s.len(),
{
    if s.len() == 0 {
        0
    } else {
        digits_value(s.drop_last()) * 10 + digit_value(s.last())
    }
}

/// Whether every character of `s` is an ASCII digit.
pub open spec fn all_digits(s: Seq<char>) -> bool {
    forall|i: int| 0 <= i < s.len() ==> is_digit(#[trigger] s[i])
}

/// What `str::parse::<i32>` accepts and yields: an optional `+` or `-`,
/// then at least one ASCII digit and nothing else, with a value in range.
pub open spec fn i32_from_text(s: Seq<char>) -> Option<i32> {
    let signed = s.len() > 0 && (s[0] == '+' || s[0] == '-');
    let negative = s.len() > 0 && s[0] == '-';
    let digits = if signed {
        s.drop_first()
    } else {
        s
    };
    let value = if negative {
        -digits_value(digits)
    } else {
        digits_value(digits)
    };
    if digits.len() == 0 || !all_digits(digits) {
        None
    } else if i32::MIN <= value <= i32::MAX {
        Some(value as i32)
    } else {
        None
    }
}

/// A run of digits never has a smaller value than one of its prefixes,
/// and its value is never negative.
proof fn lemma_digits_value_prefix(s: Seq<char>, k: int)
    requires
        all_digits(s),
        0 <= k <= s.len(),
    ensures
        0 <= digits_value(s.take(k)) <= digits_value(s),
    decreases s.len(),
{
    if s.len() > 0 {
        assert(all_digits(s.drop_last())) by {
            assert forall|i: int| 0 <= i < s.drop_last().len() implies is_digit(
                #[trigger] s.drop_last()[i],
            ) by {
                assert(s.drop_last()[i] == s[i]);
            }
        }
        assert(is_digit(s[s.len() - 1]));
        if k == s.len() {
            assert(s.take(k) =~= s);
            lemma_digits_value_prefix(s.drop_last(), 0);
        } else {
            assert(s.drop_last().take(k) =~= s.take(k));
            lemma_digits_value_prefix(s.drop_last(), k);
        }
    } else {
        assert(s.take(k) =~= s);
    }
}

/// The decimal spelling of `m` is a non-empty run of digits whose value is `m`.
proof fn lemma_decimal_digits_value(m: nat)
    ensures
        decimal_digits(m).len() > 0,
        all_digits(decimal_digits(m)),
        digits_value(decimal_digits(m)) == m,
    decreases m,
{
    let d = digit_char(m % 10);
    assert(digit_value(d) == m % 10);
    assert(is_digit(d));
    if m < 10 {
        let s = decimal_digits(m);
        assert(s.drop_last() =~= Seq::<char>::empty());
        assert(digits_value(s) == digits_value(s.drop_last()) * 10 + digit_value(s.last()));
    } else {
        lemma_decimal_digits_value(m / 10);
        let init = decimal_digits(m / 10);
        let s = decimal_digits(m);
        assert(s.drop_last() =~= init);
        assert(s.last() == d);
        assert(digits_value(s) == digits_value(init) * 10 + digit_value(d));
        assert(m == (m / 10) * 10 + m % 10);
        assert forall|i: int| 0 <= i < s.len() implies is_digit(#[trigger] s[i]) by {
            if i < init.len() {
                assert(s[i] == init[i]);
            }
        }
    }
}

/// Reading back what `format_i32` writes gives the number that was written:
/// for every `i32` value `n`, `parse_i32(&format_i32(n)) == Some(n)`.
pub proof fn lemma_format_then_parse(n: i32)
    ensures
        i32_from_text(i32_text(n)) == Some(n),
{
    if n < 0 {
        let mag: nat = (-n) as nat;
        lemma_decimal_digits_value(mag);
        let s = i32_text(n);
        assert(s.drop_first() =~= decimal_digits(mag));
    } else {
        lemma_decimal_digits_value(n as nat);
        let s = i32_text(n);
        assert(is_digit(s[0]));
    }
}

/// The spelling that `i32`'s `Display` gives: an optional minus sign, then
/// digits without leading zeros, and no minus sign before a lone `0`.
pub open spec fn is_canonical_decimal(s: Seq<char>) -> bool {
    let negative = s.len() > 0 && s[0] == '-';
    let digits = if negative {
        s.drop_first()
    } else {
        s
    };
    &&& digits.len() > 0
    &&& all_digits(digits)
    &&& (digits.len() == 1 || digits[0] != '0')
    &&& !(negative && digits[0] == '0')
}

/// A canonical run of digits is the decimal spelling of its value.
proof fn lemma_canonical_digits(d: Seq<char>)
    requires
        d.len() > 0,
        all_digits(d),
        d.len() == 1 || d[0] != '0',
    ensures
        digits_value(d) >= 0,
        decimal_digits(digits_value(d) as nat) == d,
        d.len() > 1 ==> digits_value(d) >= 10,
        d[0] != '0' ==> digits_value(d) >= 1,
    decreases d.len(),
{
    let last = d.last();
    assert(is_digit(last));
    assert(digit_char(digit_value(last) as nat) == last);
    lemma_digits_value_prefix(d, 0);
    if d.len() == 1 {
        assert(d.drop_last() =~= Seq::<char>::empty());
        assert(decimal_digits(digits_value(d) as nat) =~= d);
    } else {
        let init = d.drop_last();
        assert(all_digits(init)) by {
            assert forall|i: int| 0 <= i < init.len() implies is_digit(#[trigger] init[i]) by {
                assert(init[i] == d[i]);
            }
        }
        assert(init[0] == d[0]);
        lemma_canonical_digits(init);
        lemma_digits_value_prefix(init, 0);
        let v: int = digits_value(d);
        assert(v == digits_value(init) * 10 + digit_value(last));
        assert(v / 10 == digits_value(init));
        assert(v % 10 == digit_value(last));
        assert(decimal_digits(v as nat) =~= init.push(last));
        assert(init.push(last) =~= d);
    }
}

/// Formatting what was read from a canonical spelling gives that spelling
/// back: `format_i32(parse_i32(s)?) == s` whenever `s` is spelled as `i32`'s
/// `Display` spells numbers and its value fits in an `i32`.
pub proof fn lemma_parse_then_format(s: Seq<char>)
    requires
        is_canonical_decimal(s),
        i32_from_text(s) is Some,
    ensures
        i32_text(i32_from_text(s)->0) == s,
{
    let negative = s.len() > 0 && s[0] == '-';
    if negative {
        let digits = s.drop_first();
        assert(digits[0] != '0');
        lemma_canonical_digits(digits);
        let n: i32 = i32_from_text(s)->0;
        assert(n == -digits_value(digits));
        assert(n < 0);
        assert(((-n) as nat) == digits_value(digits) as nat);
        assert(seq!['-'] + digits =~= s);
        assert(i32_text(n) == seq!['-'] + decimal_digits((-n) as nat));
    } else {
        assert(is_digit(s[0]));
        lemma_canonical_digits(s);
        let n: i32 = i32_from_text(s)->0;
        assert(n == digits_value(s));
        assert(n >= 0);
        assert(n as nat == digits_value(s) as nat);
        assert(i32_text(n) == decimal_digits(n as nat));
    }
}

/// The one-character string that spells the digit `d`.
fn digit_str(d: u32) -> (s: &'static str)
    requires
        d < 10,
    ensures
        s@ == seq![digit_char(d as nat)],
{
    proof {
        reveal_strlit("0");
        reveal_strlit("1");
        reveal_strlit("2");
        reveal_strlit("3");
        reveal_strlit("4");
        reveal_strlit("5");
        reveal_strlit("6");
        reveal_strlit("7");
        reveal_strlit("8");
        reveal_strlit("9");
    }
    if d == 0 {
        "0"
    } else if d == 1 {
        "1"
    } else if d == 2 {
        "2"
    } else if d == 3 {
        "3"
    } else if d == 4 {
        "4"
    } else if d == 5 {
        "5"
    } else if d == 6 {
        "6"
    } else if d == 7 {
        "7"
    } else if d == 8 {
        "8"
    } else {
        "9"
    }
}

/// Reads the characters `chars[start..end]` as `str::parse::<i32>` does.
#[verifier::loop_isolation(false)]
pub fn parse_i32_in(chars: &Vec<char>, start: usize, end: usize) -> (r: Option<i32>)
    requires
        start <= end <= chars@.len(),
    ensures
        r == i32_from_text(chars@.subrange(start as int, end as int)),
{
    let ghost text = chars@.subrange(start as int, end as int);
    if start == end {
        return None;
    }
    let first = chars[start];
    let negative = first == '-';
    let from: usize = if first == '+' || first == '-' {
        start + 1
    } else {
        start
    };
    let ghost digits = chars@.subrange(from as int, end as int);
    assert(digits =~= if first == '+' || first == '-' {
        text.drop_first()
    } else {
        text
    });
    if from == end {
        return None;
    }
    let mut value: i64 = 0;
    let mut i: usize = from;
    while i < end
        invariant
            from <= i <= end <= chars@.len(),
            digits == chars@.subrange(from as int, end as int),
            all_digits(chars@.subrange(from as int, i as int)),
            value == digits_value(chars@.subrange(from as int, i as int)),
            0 <= value <= 2147483648,
        decreases end - i,
    {
        let c = chars[i];
        if !('0' <= c && c <= '9') {
            assert(digits[i - from] == c);
            return None;
        }
        let ghost before = chars@.subrange(from as int, i as int);
        let ghost after = chars@.subrange(from as int, i + 1);
        assert(after.drop_last() =~= before);
        assert(after.last() == c);
        assert(all_digits(after)) by {
            assert forall|j: int| 0 <= j < after.len() implies is_digit(#[trigger] after[j]) by {
                if j < before.len() {
                    assert(after[j] == before[j]);
                }
            }
        }
        value = value * 10 + ((c as u32) - 48) as i64;
        if value > 2147483648 {
            proof {
                let k: int = i + 1 - from;
                if all_digits(digits) {
                    assert(digits.take(k) =~= after);
                    lemma_digits_value_prefix(digits, k);
                }
            }
            return None;
        }
        i = i + 1;
    }
    assert(chars@.subrange(from as int, i as int) =~= digits);
    if negative {
        Some((0 - value) as i32)
    } else if value <= 2147483647 {
        Some(value as i32)
    } else {
        None
    }
}

/// Parses `s` as a decimal `i32`, as `s.parse::<i32>()` does, giving `None`
/// where that returns an error.
pub fn parse_i32(s: &str) -> (r: Option<i32>)
    ensures
        r == i32_from_text(s@),
{
    let chars = crate::text::chars_of(s);
    assert(chars@.subrange(0, chars@.len() as int) =~= s@);
    parse_i32_in(&chars, 0, chars.len())
}

/// Formats `n` in decimal, as `n.to_string()` does.
pub fn format_i32(n: i32) -> (s: String)
    ensures
        s@ == i32_text(n),
{
    let negative = n < 0;
    let mut m: u32 = if negative {
        (0i64 - n as i64) as u32
    } else {
        n as u32
    };
    let ghost magnitude: nat = m as nat;
    let mut tail = String::new();
    while m >= 10
        invariant
            decimal_digits(magnitude) == decimal_digits(m as nat) + tail@,
        decreases m,
    {
        let d: u32 = m % 10;
        proof {
            assert(decimal_digits(m as nat) == decimal_digits((m / 10) as nat).push(
                digit_char((m % 10) as nat),
            ));
        }
        tail = String::from_str(digit_str(d)).concat(tail.as_str());
        m = m / 10;
    }
    let digits = String::from_str(digit_str(m)).concat(tail.as_str());
    if negative {
        proof {
            reveal_strlit("-");
        }
        String::from_str("-").concat(digits.as_str())
    } else {
        digits
    }
}

} // verus!
