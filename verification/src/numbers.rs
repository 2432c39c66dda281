//! Numbers in text: decimal and hexadecimal numerals.

use vstd::prelude::*;

use crate::text::chars_of;

verus! {

/// The numeral for one digit, in lower case where it is a letter.
pub open spec fn digit(d: nat) -> char {
    if d < 10 {
        (48 + d) as char
    } else {
        (87 + d) as char
    }
}

/// The numeral of `n` in the given base, without leading zeros.
pub open spec fn numeral(n: nat, base: nat) -> Seq<char>
    decreases n,
{
    if n < base || base < 2 {
        seq![digit(n)]
    } else {
        proof {
            assert(n / base < n) by (nonlinear_arith)
                requires
                    n >= base >= 2,
            ;
        }
        numeral(n / base, base).push(digit(n % base))
    }
}

/// The decimal numeral of `n`.
pub open spec fn decimal(n: nat) -> Seq<char> {
    numeral(n, 10)
}

/// The lower-case hexadecimal numeral of `n`.
pub open spec fn hex(n: nat) -> Seq<char> {
    numeral(n, 16)
}

/// The character is a decimal digit.
pub open spec fn is_digit(c: char) -> bool {
    '0' <= c <= '9'
}

/// The number that a sequence of decimal digits stands for.
pub open spec fn digits_value(s: Seq<char>) -> nat
    decreases s.len(),
{
    if s.len() == 0 {
        0
    } else {
        (digits_value(s.drop_last()) * 10 + (s.last() as u32 - 48)) as nat
    }
}

/// The digits of an unsigned number: what follows an optional plus sign.
pub open spec fn unsigned_digits(s: Seq<char>) -> Seq<char> {
    if s.len() > 0 && s[0] == '+' {
        s.skip(1)
    } else {
        s
    }
}

/// The number written in `s`: an optional plus sign and decimal digits, at least
/// one of them; `None` where `s` is anything else or the number exceeds `usize`.
pub open spec fn parsed_usize(s: Seq<char>) -> Option<nat> {
    let digits = unsigned_digits(s);
    if digits.len() > 0 && (forall|i: int| 0 <= i < digits.len() ==> is_digit(#[trigger] digits[i]))
        && digits_value(digits) <= usize::MAX {
        Some(digits_value(digits))
    } else {
        None
    }
}

/// More digits make no smaller number.
proof fn lemma_digits_grow(s: Seq<char>, k: int)
    requires
        0 <= k <= s.len(),
        forall|i: int| 0 <= i < s.len() ==> is_digit(#[trigger] s[i]),
    ensures
        digits_value(s.take(k)) <= digits_value(s),
    decreases s.len() - k,
{
    if k == s.len() {
        assert(s.take(k) =~= s);
    } else {
        lemma_digits_grow(s, k + 1);
        assert(s.take(k + 1).drop_last() =~= s.take(k));
        assert(is_digit(s[k]));
    }
}

/// Different numbers have different numerals.
pub proof fn lemma_numerals_differ(a: nat, b: nat, base: nat)
    requires
        2 <= base <= 16,
        numeral(a, base) == numeral(b, base),
    ensures
        a == b,
    decreases a,
{
    let left = numeral(a, base);
    let right = numeral(b, base);
    assert(left.last() == right.last());
    if a >= base && b >= base {
        assert(a / base < a && a % base < base && b % base < base) by (nonlinear_arith)
            requires
                a >= base >= 2,
        ;
        assert(left.drop_last() =~= numeral(a / base, base));
        assert(right.drop_last() =~= numeral(b / base, base));
        lemma_numerals_differ(a / base, b / base, base);
        assert(a == base * (a / base) + a % base) by (nonlinear_arith)
            requires
                base >= 2,
        ;
        assert(b == base * (b / base) + b % base) by (nonlinear_arith)
            requires
                base >= 2,
        ;
    } else {
        lemma_numeral_nonempty(a / base, base);
        lemma_numeral_nonempty(b / base, base);
    }
}

/// A numeral has at least one digit.
proof fn lemma_numeral_nonempty(n: nat, base: nat)
    ensures
        numeral(n, base).len() > 0,
{
}

/// The decimal numeral of ten times a number and a digit is that of the number with the digit
/// behind it; that of a digit is the digit alone.
pub proof fn lemma_decimal_by_digit(n: nat, d: nat)
    requires
        d < 10,
    ensures
        decimal(d).len() == 1,
        decimal(d)[0] as u32 == 0x30 + d,
        n > 0 ==> decimal(10 * n + d) == decimal(n) + decimal(d),
{
    let all = (10 * n + d) as nat;
    assert(all / 10 == n && all % 10 == d);
    if n > 0 {
        assert(decimal(all) =~= decimal(n) + decimal(d));
    }
}

/// The hexadecimal numeral of sixteen times a number and a digit is that of the number with
/// the digit behind it; that of a digit is the digit or the small letter for it.
pub proof fn lemma_hex_by_digit(n: nat, d: nat)
    requires
        d < 16,
    ensures
        hex(d).len() == 1,
        hex(d)[0] as u32 == (if d < 10 {
            0x30 + d
        } else {
            0x57 + d
        }),
        n > 0 ==> hex(16 * n + d) == hex(n) + hex(d),
{
    let all = (16 * n + d) as nat;
    assert(all / 16 == n && all % 16 == d);
    if n > 0 {
        assert(hex(all) =~= hex(n) + hex(d));
    }
}

/// A decimal numeral is made of digits, and of the number it is made for.
proof fn lemma_decimal_digits(n: nat)
    ensures
        decimal(n).len() > 0,
        forall|i: int| 0 <= i < decimal(n).len() ==> is_digit(#[trigger] decimal(n)[i]),
        digits_value(decimal(n)) == n,
    decreases n,
{
    if n < 10 {
        assert(decimal(n).drop_last() =~= Seq::<char>::empty());
        assert(digits_value(Seq::<char>::empty()) == 0);
    } else {
        lemma_decimal_digits(n / 10);
        assert(decimal(n).drop_last() =~= decimal(n / 10));
        assert forall|i: int| 0 <= i < decimal(n).len() implies is_digit(
            #[trigger] decimal(n)[i],
        ) by {
            if i < decimal(n / 10).len() {
                assert(decimal(n)[i] == decimal(n / 10)[i]);
            }
        }
    }
}

/// The decimal numeral of a number that fits reads back as that number, also with a plus
/// sign in front; that of a larger one does not.
pub proof fn lemma_decimal_reads_back(n: nat)
    ensures
        parsed_usize(decimal(n)) == (if n <= usize::MAX {
            Some(n)
        } else {
            None
        }),
        parsed_usize(seq!['+'] + decimal(n)) == parsed_usize(decimal(n)),
{
    lemma_decimal_digits(n);
    assert(is_digit(decimal(n)[0]));
    assert((seq!['+'] + decimal(n)).skip(1) =~= decimal(n));
}

/// One digit more makes ten times the number and the digit, where that fits, and nothing
/// where it does not; a text in which anything else stands is no number, and neither is the
/// empty one.
pub proof fn lemma_number_by_character(s: Seq<char>, c: char)
    ensures
        parsed_usize(Seq::<char>::empty()) is None,
        is_digit(c) ==> parsed_usize(seq![c]) == Some((c as u32 - 0x30) as nat),
        is_digit(c) ==> (parsed_usize(s) matches Some(n) ==> parsed_usize(s.push(c)) == (if 10 * n
            + (c as u32 - 0x30) <= usize::MAX {
            Some((10 * n + (c as u32 - 0x30)) as nat)
        } else {
            None
        })),
        !is_digit(c) ==> parsed_usize(s.push(c)) is None,
        s.len() > 0 && parsed_usize(s) is None && s != seq!['+'] ==> parsed_usize(s.push(c))
            is None,
{
    let longer = s.push(c);
    let digits = unsigned_digits(s);
    let more = unsigned_digits(longer);
    assert(seq![c].drop_last() =~= Seq::<char>::empty());
    assert(digits_value(Seq::<char>::empty()) == 0);
    if is_digit(c) {
        assert(unsigned_digits(seq![c]) == seq![c]);
        assert(seq![c].last() == c);
        assert(digits_value(seq![c]) == c as u32 - 0x30);
    }
    if s.len() > 0 {
        assert(more =~= digits.push(c));
        assert(more.drop_last() =~= digits);
        assert(more.last() == c);
        assert forall|i: int| 0 <= i < digits.len() implies more[i] == digits[i] by {}
        if s[0] == '+' && digits.len() == 0 {
            assert(s =~= seq!['+']);
        }
        if parsed_usize(longer) is Some {
            assert(is_digit(more[more.len() - 1]));
            assert forall|i: int| 0 <= i < digits.len() implies is_digit(#[trigger] digits[i]) by {
                assert(is_digit(more[i]));
            }
        }
        if is_digit(c) && parsed_usize(s) is Some {
            assert forall|i: int| 0 <= i < more.len() implies is_digit(#[trigger] more[i]) by {
                if i < digits.len() {
                    assert(is_digit(digits[i]));
                }
            }
        }
    } else {
        assert(longer =~= seq![c]);
        if c == '+' {
            assert(longer.skip(1) =~= Seq::<char>::empty());
        } else if !is_digit(c) {
            assert(!is_digit(more[0]));
        }
    }
}

/// Appends the numeral of `n` to a string.
fn push_numeral(out: &mut String, n: u64, base: u64)
    requires
        2 <= base <= 16,
    ensures
        final(out)@ == old(out)@ + numeral(n as nat, base as nat),
    decreases n,
{
    if n >= base {
        assert(n / base < n) by (nonlinear_arith)
            requires
                n >= base >= 2,
        ;
        push_numeral(out, n / base, base);
    }
    assert(n % base < base) by (nonlinear_arith)
        requires
            base >= 2,
    ;
    assert(n < base ==> n % base == n) by (nonlinear_arith)
        requires
            base >= 2,
    ;
    let d: u8 = (n % base) as u8;
    let c: char = if d < 10 {
        (48 + d) as char
    } else {
        (87 + d) as char
    };
    out.push(c);
    assert(out@ =~= old(out)@ + numeral(n as nat, base as nat));
}

/// The decimal numeral of `n`.
pub fn decimal_of(n: u64) -> (r: String)
    ensures
        r@ == decimal(n as nat),
{
    let mut out: String = String::new();
    push_numeral(&mut out, n, 10);
    assert(out@ =~= decimal(n as nat));
    out
}

/// The lower-case hexadecimal numeral of `n`.
pub fn hex_of(n: u64) -> (r: String)
    ensures
        r@ == hex(n as nat),
{
    let mut out: String = String::new();
    push_numeral(&mut out, n, 16);
    assert(out@ =~= hex(n as nat));
    out
}

/// The number written in `s`.
pub fn parse_usize(s: &str) -> (r: Option<usize>)
    ensures
        parsed_usize(s@) == (match r {
            Some(n) => Some(n as nat),
            None => None::<nat>,
        }),
{
    let chars = chars_of(s);
    let start: usize = if chars.len() > 0 && chars[0] == '+' {
        1
    } else {
        0
    };
    let ghost digits = unsigned_digits(s@);
    assert(digits =~= chars@.skip(start as int));
    if start == chars.len() {
        return None;
    }
    let mut value: usize = 0;
    let mut i: usize = start;
    assert(digits.take(0) =~= Seq::<char>::empty());
    while i < chars.len()
        invariant
            start <= i <= chars@.len(),
            digits == unsigned_digits(s@),
            digits == chars@.skip(start as int),
            digits.len() > 0,
            value == digits_value(digits.take(i - start)),
            forall|j: int| 0 <= j < i - start ==> is_digit(#[trigger] digits[j]),
        decreases chars@.len() - i,
    {
        let c: char = chars[i];
        assert(digits[i - start] == c);
        if c < '0' || '9' < c {
            return None;
        }
        let d: usize = c as usize - 48;
        assert(digits.take(i - start + 1).drop_last() =~= digits.take(i - start));
        if value > (usize::MAX - d) / 10 {
            proof {
                if forall|j: int| 0 <= j < digits.len() ==> is_digit(#[trigger] digits[j]) {
                    lemma_digits_grow(digits, i - start + 1);
                }
            }
            return None;
        }
        value = value * 10 + d;
        i += 1;
    }
    assert(digits.take(digits.len() as int) =~= digits);
    Some(value)
}

} // verus!
