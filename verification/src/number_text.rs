//! Integers as decimal text.
use vstd::prelude::*;
use crate::encoding_type::bytes_of_chars;
use crate::text::string_push;

verus! {

/// The value of a decimal digit.
pub open spec fn digit_value(b: u8) -> Option<nat> {
    if 48 <= b <= 57 {
        Some((b - 48) as nat)
    } else {
        None
    }
}

/// The number that a non-empty run of decimal digits spells.
pub open spec fn digits_value(s: Seq<u8>) -> Option<nat>
    decreases s.len(),
{
    if s.len() == 0 {
        None
    } else if s.len() == 1 {
        digit_value(s[0])
    } else {
        match (digits_value(s.drop_last()), digit_value(s.last())) {
            (Some(a), Some(d)) => Some(a * 10 + d),
            _ => None,
        }
    }
}

/// The integer that a text spells: decimal digits behind an optional sign.
/// A signed number takes either sign, an unsigned one only `+`.
pub open spec fn spec_parse_int(s: Seq<u8>, signed: bool) -> Option<int> {
    if s.len() > 0 && s[0] == 43 {
        match digits_value(s.skip(1)) {
            Some(v) => Some(v as int),
            None => None,
        }
    } else if signed && s.len() > 0 && s[0] == 45 {
        match digits_value(s.skip(1)) {
            Some(v) => Some(-(v as int)),
            None => None,
        }
    } else {
        match digits_value(s) {
            Some(v) => Some(v as int),
            None => None,
        }
    }
}

/// The integer that a text spells if it lies between the bounds.
pub open spec fn spec_parse_bounded(s: Seq<u8>, low: int, high: int) -> Option<int> {
    match spec_parse_int(s, low < 0) {
        Some(v) => if low <= v <= high {
            Some(v)
        } else {
            None
        },
        None => None,
    }
}

/// The decimal digits of a number, without leading zeros.
pub open spec fn decimal(n: nat) -> Seq<char>
    decreases n,
{
    if n < 10 {
        seq![(48 + n) as char]
    } else {
        decimal(n / 10).push((48 + n % 10) as char)
    }
}

/// The text of an integer: its decimal digits, behind `-` where it is
/// negative.
pub open spec fn int_text(v: int) -> Seq<char> {
    if v < 0 {
        seq!['-'] + decimal((-v) as nat)
    } else {
        decimal(v as nat)
    }
}

/// A longer run of digits spells a number that is not smaller.
pub proof fn lemma_digits_grow(s: Seq<u8>, k: int)
    requires
        1 <= k <= s.len(),
        digits_value(s) is Some,
    ensures
        digits_value(s.take(k)) is Some,
        digits_value(s.take(k)).unwrap() <= digits_value(s).unwrap(),
    decreases s.len(),
{
    if k == s.len() {
        assert(s.take(k) =~= s);
    } else {
        assert(s.len() >= 2);
        lemma_digits_grow(s.drop_last(), k);
        assert(s.drop_last().take(k) =~= s.take(k));
    }
}

/// Reads a run of decimal digits that spells a number of at most `limit`.
fn parse_digits(s: &[u8], start: usize, limit: u128) -> (r: Option<u128>)
    requires
        start <= s@.len(),
        limit <= 0xFFFF_FFFF_FFFF_FFFF_FFFF,
    ensures
        match digits_value(s@.skip(start as int)) {
            Some(v) => if v <= limit {
                r == Some(v as u128)
            } else {
                r is None
            },
            None => r is None,
        },
{
    let ghost d = s@.skip(start as int);
    let n = s.len();
    if start >= n {
        return None;
    }
    let mut acc: u128 = 0;
    let mut i: usize = start;
    let mut over = false;
    while i < n
        invariant
            start <= i <= n,
            n == s@.len(),
            d == s@.skip(start as int),
            limit <= 0xFFFF_FFFF_FFFF_FFFF_FFFF,
            i > start ==> digits_value(d.take(i - start)) is Some,
            i > start && !over ==> digits_value(d.take(i - start)) == Some(acc as nat) && acc
                <= limit,
            i > start && over ==> digits_value(d.take(i - start)).unwrap() > limit,
            i == start ==> acc == 0 && !over,
        decreases n - i,
    {
        let b = s[i];
        proof {
            let cur = d.take(i - start + 1);
            assert(cur.last() == b);
            assert(cur.drop_last() =~= d.take(i - start));
            if i == start {
                assert(cur.len() == 1);
            }
        }
        if b < 48 || b > 57 {
            proof {
                let cur = d.take(i - start + 1);
                assert(digits_value(cur) is None);
                if digits_value(d) is Some {
                    lemma_digits_grow(d, i - start + 1);
                }
            }
            return None;
        }
        if !over {
            let next = acc * 10 + (b - 48) as u128;
            if next > limit {
                over = true;
            } else {
                acc = next;
            }
        }
        i += 1;
    }
    proof {
        assert(d.take(n - start) =~= d);
    }
    if over {
        None
    } else {
        Some(acc)
    }
}

/// Reads an integer between two bounds from a text of decimal digits behind
/// an optional sign.
pub fn parse_bounded(s: &[u8], low: i128, high: i128) -> (r: Option<i128>)
    requires
        -0x8000_0000_0000_0000 <= low <= 0,
        0 <= high <= 0xFFFF_FFFF_FFFF_FFFF,
    ensures
        match spec_parse_bounded(s@, low as int, high as int) {
            Some(v) => r == Some(v as i128),
            None => r is None,
        },
{
    let n = s.len();
    if n > 0 && s[0] == 43 {
        match parse_digits(s, 1, high as u128) {
            Some(v) => Some(v as i128),
            None => None,
        }
    } else if low < 0 && n > 0 && s[0] == 45 {
        match parse_digits(s, 1, (-low) as u128) {
            Some(v) => Some(-(v as i128)),
            None => None,
        }
    } else {
        assert(s@.skip(0) =~= s@);
        match parse_digits(s, 0, high as u128) {
            Some(v) => Some(v as i128),
            None => None,
        }
    }
}

/// Appends the decimal digits of a number.
pub fn push_decimal(out: &mut String, n: u128)
    ensures
        final(out)@ == old(out)@ + decimal(n as nat),
    decreases n,
{
    if n >= 10 {
        push_decimal(out, n / 10);
    }
    let d = (n % 10) as u8;
    string_push(out, (48 + d) as char);
    proof {
        if n < 10 {
            assert(final(out)@ =~= old(out)@ + decimal(n as nat));
        } else {
            assert(final(out)@ =~= old(out)@ + decimal(n as nat));
        }
    }
}

/// Appends the text of an integer.
pub fn push_int(out: &mut String, v: i128)
    requires
        v > i128::MIN,
    ensures
        final(out)@ == old(out)@ + int_text(v as int),
{
    if v < 0 {
        string_push(out, '-');
        push_decimal(out, (-v) as u128);
        assert(final(out)@ =~= old(out)@ + int_text(v as int));
    } else {
        push_decimal(out, v as u128);
    }
}

/// The decimal digit of a value below ten.
pub proof fn lemma_digit_char(d: nat)
    requires
        d < 10,
    ensures
        '0' <= (48 + d) as char <= '9',
        ((48 + d) as char) as u8 == 48 + d,
{
}

/// The digits of a number are decimal digits and spell the number.
pub proof fn lemma_decimal_reads_back(n: nat)
    ensures
        digits_value(bytes_of_chars(decimal(n))) == Some(n),
        decimal(n).len() >= 1,
        forall|i: int| 0 <= i < decimal(n).len() ==> '0' <= (#[trigger] decimal(n)[i]) <= '9',
    decreases n,
{
    let b = bytes_of_chars(decimal(n));
    if n < 10 {
        lemma_digit_char(n);
        assert(b =~= seq![(48 + n) as u8]);
    } else {
        lemma_decimal_reads_back(n / 10);
        lemma_digit_char(n % 10);
        let front = bytes_of_chars(decimal(n / 10));
        let d = (48 + n % 10) as u8;
        assert(b =~= front.push(d));
        assert(b.drop_last() =~= front);
        assert(b.last() == d);
        assert forall|i: int| 0 <= i < decimal(n).len() implies '0' <= (#[trigger] decimal(
            n,
        )[i]) <= '9' by {
            if i < front.len() {
                assert(decimal(n)[i] == decimal(n / 10)[i]);
            }
        }
    }
}

/// The text of an integer within bounds reads back as the integer.
pub proof fn lemma_int_text_reads_back(v: int, low: int, high: int)
    requires
        low <= v <= high,
        low <= 0,
    ensures
        spec_parse_bounded(bytes_of_chars(int_text(v)), low, high) == Some(v),
{
    let b = bytes_of_chars(int_text(v));
    if v < 0 {
        let n = (-v) as nat;
        lemma_decimal_reads_back(n);
        let digits = bytes_of_chars(decimal(n));
        assert(b =~= seq![45u8] + digits);
        assert(b.skip(1) =~= digits);
        assert(b[0] == 45);
    } else {
        lemma_decimal_reads_back(v as nat);
        assert(b[0] != 43 && b[0] != 45);
    }
}

} // verus!
