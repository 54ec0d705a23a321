//! Decimal text for the timestamps and counters kept in asset attributes.
use vstd::prelude::*;

verus! {

/// The ASCII digit for `d`, for `0 <= d < 10`.
pub open spec fn digit_char(d: int) -> char {
    (d + 48) as char
}

pub open spec fn is_digit(c: char) -> bool {
    '0' <= c && c <= '9'
}

pub open spec fn digit_value(c: char) -> int {
    (c as int) - 48
}

/// The decimal digits of `n`, most significant first, without leading zeros.
pub open spec fn nat_digits(n: nat) -> Seq<char>
    decreases n,
{
    if n < 10 {
        seq![digit_char(n as int)]
    } else {
        nat_digits(n / 10).push(digit_char((n % 10) as int))
    }
}

/// What `Display` writes for an integer: a `-` for negative values, then the digits.
pub open spec fn int_text(v: int) -> Seq<char> {
    if v < 0 {
        seq!['-'] + nat_digits((-v) as nat)
    } else {
        nat_digits(v as nat)
    }
}

pub open spec fn all_digits(s: Seq<char>) -> bool {
    forall|i: int| 0 <= i < s.len() ==> #[trigger] is_digit(s[i])
}

/// The number that a string of digits denotes.
pub open spec fn digits_value(s: Seq<char>) -> int
    decreases s.len(),
{
    if s.len() == 0 {
        0
    } else {
        10 * digits_value(s.drop_last()) + digit_value(s.last())
    }
}

/// `str::parse::<i64>`: an optional `+` or `-` sign followed by at least one ASCII
/// digit, and a value that fits in an `i64`; anything else is refused.
pub open spec fn parse_i64_spec(s: Seq<char>) -> Option<i64> {
    if s.len() == 0 {
        None
    } else {
        let negative = s[0] == '-';
        let body = if s[0] == '-' || s[0] == '+' { s.drop_first() } else { s };
        let value = if negative { -digits_value(body) } else { digits_value(body) };
        if body.len() > 0 && all_digits(body) && i64::MIN <= value <= i64::MAX {
            Some(value as i64)
        } else {
            None
        }
    }
}

} // verus!

verus! {

/// The one-character string for the digit `d`.
fn digit_str(d: u64) -> (r: &'static str)
    requires
        d < 10,
    ensures
        r@ == seq![digit_char(d as int)],
{
    proof {
        reveal_strlit("0");
        reveal_strlit("1");
        reveal_strlit("2");
        reveal_strlit("3");
        reveal_strlit("4");
        reveal_strlit("5");
        reveal_strlit("6");
        reveal_strlit("7");
        reveal_strlit("8");
        reveal_strlit("9");
    }
    let r = match d {
        0 => "0",
        1 => "1",
        2 => "2",
        3 => "3",
        4 => "4",
        5 => "5",
        6 => "6",
        7 => "7",
        8 => "8",
        _ => "9",
    };
    assert(r@ =~= seq![digit_char(d as int)]);
    r
}

/// Appends the decimal digits of `n` to `out`.
fn push_digits(out: &mut String, n: u64)
    ensures
        final(out)@ == old(out)@ + nat_digits(n as nat),
    decreases n,
{
    if n >= 10 {
        push_digits(out, n / 10);
    }
    out.append(digit_str(n % 10));
    assert(out@ =~= old(out)@ + nat_digits(n as nat));
}

/// The decimal text of `n`, as `n.to_string()` writes it.
pub fn format_u64(n: u64) -> (r: String)
    ensures
        r@ == int_text(n as int),
{
    let mut out = String::new();
    push_digits(&mut out, n);
    out
}

} // verus!

verus! {

/// The text of `v`, as `v.to_string()` writes it.
pub fn format_i64(v: i64) -> (r: String)
    ensures
        r@ == int_text(v as int),
{
    let mut out = String::new();
    if v < 0 {
        out.append("-");
        proof {
            reveal_strlit("-");
        }
        let magnitude: u64 = (-(v as i128)) as u64;
        push_digits(&mut out, magnitude);
    } else {
        push_digits(&mut out, v as u64);
    }
    assert(out@ =~= int_text(v as int));
    out
}

/// Above this every digit string is out of the range of `i64`, whatever its sign.
pub open spec fn parse_cap() -> int {
    0x8000_0000_0000_0001
}

/// A string that `parse_i64_spec` accepts holds only ASCII characters.
proof fn lemma_parsed_is_ascii(s: Seq<char>)
    requires
        parse_i64_spec(s) is Some,
    ensures
        vstd::utf8::is_ascii_chars(s),
{
    let body = if s[0] == '-' || s[0] == '+' { s.drop_first() } else { s };
    assert forall|i: int| 0 <= i < s.len() implies '\0' <= #[trigger] s[i] <= '\u{7f}' by {
        if s[0] == '-' || s[0] == '+' {
            if i > 0 {
                assert(s[i] == body[i - 1]);
                assert(is_digit(body[i - 1]));
            }
        } else {
            assert(is_digit(body[i]));
        }
    }
}

/// `str::parse::<i64>`.
pub fn parse_i64(s: &str) -> (r: Option<i64>)
    ensures
        r == parse_i64_spec(s@),
{
    if !s.is_ascii() {
        proof {
            if parse_i64_spec(s@) is Some {
                lemma_parsed_is_ascii(s@);
            }
        }
        return None;
    }
    let bytes = s.as_bytes();
    proof {
        vstd::string::is_ascii_spec_bytes(s);
        assert(bytes@.len() == s@.len());
    }
    let n = bytes.len();
    if n == 0 {
        return None;
    }
    let negative = bytes[0] == 45u8;
    let start: usize = if bytes[0] == 45u8 || bytes[0] == 43u8 { 1 } else { 0 };
    assert(negative == (s@[0] == '-'));
    assert((start == 1) == (s@[0] == '-' || s@[0] == '+'));
    let ghost body = if s@[0] == '-' || s@[0] == '+' { s@.drop_first() } else { s@ };
    assert(body =~= s@.subrange(start as int, n as int));
    if start == n {
        return None;
    }
    let mut acc: u128 = 0;
    let mut i: usize = start;
    while i < n
        invariant
            start <= i <= n,
            n == s@.len(),
            n == bytes@.len(),
            forall|j: int| 0 <= j < n ==> #[trigger] bytes@[j] == s@[j] as u8,
            vstd::utf8::is_ascii_chars(s@),
            n > 0,
            body == (if s@[0] == '-' || s@[0] == '+' { s@.drop_first() } else { s@ }),
            body == s@.subrange(start as int, n as int),
            all_digits(s@.subrange(start as int, i as int)),
            acc as int == if digits_value(s@.subrange(start as int, i as int)) < parse_cap() {
                digits_value(s@.subrange(start as int, i as int))
            } else {
                parse_cap()
            },
        decreases n - i,
    {
        let b = bytes[i];
        let ghost c = s@[i as int];
        assert('\0' <= c <= '\u{7f}');
        assert(b as int == c as int);
        if b < 48u8 || b > 57u8 {
            assert(body[i - start] == c);
            assert(!is_digit(body[i - start]));
            return None;
        }
        let ghost prev = s@.subrange(start as int, i as int);
        let ghost next = s@.subrange(start as int, i + 1);
        assert(next.drop_last() =~= prev);
        assert(next.last() == c);
        let d = (b - 48u8) as u128;
        let grown = acc * 10 + d;
        acc = if grown > 0x8000_0000_0000_0001u128 { 0x8000_0000_0000_0001u128 } else { grown };
        i = i + 1;
        assert(all_digits(next)) by {
            assert forall|j: int| 0 <= j < next.len() implies #[trigger] is_digit(next[j]) by {
                if j < prev.len() {
                    assert(next[j] == prev[j]);
                }
            }
        }
    }
    assert(s@.subrange(start as int, n as int) =~= body);
    if negative {
        if acc <= 0x8000_0000_0000_0000u128 {
            Some((-(acc as i128)) as i64)
        } else {
            None
        }
    } else {
        if acc <= 0x7fff_ffff_ffff_ffffu128 {
            Some(acc as i64)
        } else {
            None
        }
    }
}

} // verus!

verus! {

proof fn lemma_digit_char(d: int)
    requires
        0 <= d < 10,
    ensures
        is_digit(digit_char(d)),
        digit_value(digit_char(d)) == d,
{
}

proof fn lemma_nat_digits(n: nat)
    ensures
        nat_digits(n).len() > 0,
        all_digits(nat_digits(n)),
        digits_value(nat_digits(n)) == n,
    decreases n,
{
    if n < 10 {
        lemma_digit_char(n as int);
        assert(nat_digits(n).drop_last() =~= Seq::<char>::empty());
        assert(digits_value(Seq::<char>::empty()) == 0);
        assert(nat_digits(n).last() == digit_char(n as int));
    } else {
        lemma_nat_digits(n / 10);
        lemma_digit_char((n % 10) as int);
        let s = nat_digits(n);
        assert(s.drop_last() =~= nat_digits(n / 10));
        assert(s.last() == digit_char((n % 10) as int));
        assert(n == 10 * (n / 10) + n % 10);
        assert forall|i: int| 0 <= i < s.len() implies #[trigger] is_digit(s[i]) by {
            if i < s.len() - 1 {
                assert(s[i] == nat_digits(n / 10)[i]);
            }
        }
    }
}

/// Reading back what was written: `v.to_string().parse::<i64>()` gives `v` for every `i64`.
pub proof fn lemma_parse_format_roundtrip(v: i64)
    ensures
        parse_i64_spec(int_text(v as int)) == Some(v),
{
    let t = int_text(v as int);
    if v < 0 {
        let m = (-v) as nat;
        lemma_nat_digits(m);
        assert(t.drop_first() =~= nat_digits(m));
        assert(t[0] == '-');
    } else {
        lemma_nat_digits(v as nat);
        let d = nat_digits(v as nat);
        assert(is_digit(d[0]));
    }
}

} // verus!
