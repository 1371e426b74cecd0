//! Decimal and hexadecimal numerals: writing them, and reading them back.
use crate::chars;
use crate::chars::{to_chars, trim};
use vstd::prelude::*;
use vstd::slice::slice_subrange;

verus! {

/// The numeral of a digit below sixteen, in lower case.
pub open spec fn numeral(d: nat) -> char {
    if d < 10 {
        ('0' as u32 + d) as char
    } else {
        ('a' as u32 + d - 10) as char
    }
}

/// `n` written in the given radix, without leading zeros.
pub open spec fn digits(n: nat, radix: nat) -> Seq<char>
    decreases n,
{
    if radix < 2 || n < radix {
        seq![numeral(n)]
    } else {
        proof {
            assert(n / radix < n) by (nonlinear_arith)
                requires
                    2 <= radix <= n,
            ;
        }
        digits(n / radix, radix).push(numeral(n % radix))
    }
}

pub open spec fn decimal(n: nat) -> Seq<char> {
    digits(n, 10)
}

pub open spec fn hexadecimal(n: nat) -> Seq<char> {
    digits(n, 16)
}

/// What a character stands for as a digit, in either case.
pub open spec fn digit_of(c: char, radix: nat) -> Option<nat> {
    let n = c as u32;
    let d = if '0' as u32 <= n <= '9' as u32 {
        (n - '0' as u32) as nat
    } else if 'a' as u32 <= n <= 'f' as u32 {
        (n - 'a' as u32 + 10) as nat
    } else if 'A' as u32 <= n <= 'F' as u32 {
        (n - 'A' as u32 + 10) as nat
    } else {
        radix
    };
    if d < radix {
        Some(d)
    } else {
        None
    }
}

/// The number that a row of digits stands for; `None` where one is no digit.
pub open spec fn value_of(s: Seq<char>, radix: nat) -> Option<nat>
    decreases s.len(),
{
    if s.len() == 0 {
        Some(0)
    } else {
        match (value_of(s.drop_last(), radix), digit_of(s.last(), radix)) {
            (Some(v), Some(d)) => Some(v * radix + d),
            _ => None,
        }
    }
}

/// The number that a text stands for: an optional plus sign, then one digit or
/// more, and nothing else.
pub open spec fn number_in(s: Seq<char>, radix: nat) -> Option<nat> {
    let body = if s.len() > 0 && s[0] == '+' {
        s.drop_first()
    } else {
        s
    };
    if body.len() == 0 {
        None
    } else {
        value_of(body, radix)
    }
}

/// The number that a text stands for, if it is at most `max`.
pub open spec fn number_up_to(s: Seq<char>, radix: nat, max: nat) -> Option<nat> {
    match number_in(s, radix) {
        Some(v) if v <= max => Some(v),
        _ => None,
    }
}

/// The number that a text stands for, where a `u32` can hold it.
pub open spec fn u32_in(s: Seq<char>, radix: nat) -> Option<u32> {
    match number_up_to(s, radix, u32::MAX as nat) {
        Some(v) => Some(v as u32),
        None => None,
    }
}

/// The number that a text stands for, where a `u64` can hold it.
pub open spec fn u64_in(s: Seq<char>, radix: nat) -> Option<u64> {
    match number_up_to(s, radix, u64::MAX as nat) {
        Some(v) => Some(v as u64),
        None => None,
    }
}

fn numeral_char(d: u64) -> (r: char)
    requires
        d < 16,
    ensures
        r == numeral(d as nat),
{
    let table: [char; 16] = [
        '0', '1', '2', '3', '4', '5', '6', '7', '8', '9', 'a', 'b', 'c', 'd', 'e', 'f',
    ];
    table[d as usize]
}

/// Appends `n`, written in the given radix.
pub fn push_digits(out: &mut Vec<char>, n: u64, radix: u64)
    requires
        2 <= radix <= 16,
    ensures
        final(out)@ == old(out)@ + digits(n as nat, radix as nat),
    decreases n,
{
    if n < radix {
        out.push(numeral_char(n));
        assert(out@ =~= old(out)@ + digits(n as nat, radix as nat));
    } else {
        assert(n / radix < n) by (nonlinear_arith)
            requires
                2 <= radix <= n,
        ;
        push_digits(out, n / radix, radix);
        out.push(numeral_char(n % radix));
        assert(out@ =~= old(out)@ + digits(n as nat, radix as nat));
    }
}

/// Appends `n` in decimal.
pub fn push_decimal(out: &mut Vec<char>, n: u64)
    ensures
        final(out)@ == old(out)@ + decimal(n as nat),
{
    push_digits(out, n, 10);
}

/// Appends `n` in hexadecimal.
pub fn push_hexadecimal(out: &mut Vec<char>, n: u64)
    ensures
        final(out)@ == old(out)@ + hexadecimal(n as nat),
{
    push_digits(out, n, 16);
}

/// A number in hexadecimal, with zeros in front up to `width` digits.
pub open spec fn padded(n: nat, width: nat) -> Seq<char> {
    let s = hexadecimal(n);
    if s.len() < width {
        Seq::new((width - s.len()) as nat, |i: int| '0') + s
    } else {
        s
    }
}

/// Appends `n` in hexadecimal, with zeros in front up to `width` digits.
pub fn push_padded(out: &mut Vec<char>, n: u64, width: usize)
    ensures
        final(out)@ == old(out)@ + padded(n as nat, width as nat),
{
    let mut digits: Vec<char> = Vec::new();
    push_hexadecimal(&mut digits, n);
    assert(digits@ =~= hexadecimal(n as nat));
    let mut zeros: usize = digits.len();
    let ghost before = out@;
    assert(out@ =~= before + Seq::new(0, |i: int| '0'));
    while zeros < width
        invariant
            digits@.len() <= zeros,
            digits@ == hexadecimal(n as nat),
            digits@.len() < width ==> zeros <= width,
            digits@.len() >= width ==> zeros == digits@.len(),
            out@ == before + Seq::new((zeros - digits@.len()) as nat, |i: int| '0'),
        decreases width - zeros,
    {
        out.push('0');
        zeros += 1;
        assert(out@ =~= before + Seq::new((zeros - digits@.len()) as nat, |i: int| '0'));
    }
    out.append(&mut digits);
    assert(out@ =~= before + padded(n as nat, width as nat));
}

fn digit(c: char, radix: u64) -> (r: Option<u64>)
    requires
        2 <= radix <= 16,
    ensures
        match digit_of(c, radix as nat) {
            Some(d) => r == Some(d as u64) && d < radix,
            None => r is None,
        },
{
    let n: u32 = c as u32;
    let d: u64 = if 48 <= n && n <= 57 {
        (n - 48) as u64
    } else if 97 <= n && n <= 102 {
        (n - 97 + 10) as u64
    } else if 65 <= n && n <= 70 {
        (n - 65 + 10) as u64
    } else {
        radix
    };
    if d < radix {
        Some(d)
    } else {
        None
    }
}

/// Reads a whole text as a number that is at most `max`.
pub fn parse_up_to(s: &[char], radix: u64, max: u64) -> (r: Option<u64>)
    requires
        2 <= radix <= 16,
    ensures
        match number_up_to(s@, radix as nat, max as nat) {
            Some(v) => r == Some(v as u64) && v <= max,
            None => r is None,
        },
{
    let start: usize = if s.len() > 0 && s[0] == '+' {
        1
    } else {
        0
    };
    if s.len() == start {
        return None;
    }
    let ghost body = s@.skip(start as int);
    assert(start == 1 ==> body =~= s@.drop_first());
    assert(start == 0 ==> body =~= s@);
    let mut value: u64 = 0;
    let mut i: usize = start;
    assert(body.take(0) =~= Seq::<char>::empty());
    while i < s.len()
        invariant
            2 <= radix <= 16,
            start <= 1,
            start <= i <= s@.len(),
            body == s@.skip(start as int),
            value <= max,
            value_of(body.take(i - start), radix as nat) == Some(value as nat),
            number_in(s@, radix as nat) == value_of(body, radix as nat),
        decreases s@.len() - i,
    {
        let ghost upto = body.take(i - start + 1);
        assert(upto.drop_last() =~= body.take(i - start));
        assert(upto.last() == s@[i as int]);
        match digit(s[i], radix) {
            None => {
                proof {
                    lemma_value_prefix(body, i - start + 1, radix as nat, max as nat);
                }
                return None;
            },
            Some(d) => {
                assert(value as int * radix as int + d as int <= 0xffff_ffff_ffff_ffff * 16 + 15)
                    by (nonlinear_arith)
                    requires
                        value <= 0xffff_ffff_ffff_ffff,
                        radix <= 16,
                        d <= 15,
                ;
                assert(value as int * radix as int >= 0) by (nonlinear_arith)
                    requires
                        value >= 0,
                        radix >= 0,
                ;
                let next: u128 = value as u128 * radix as u128 + d as u128;
                if next > max as u128 {
                    proof {
                        lemma_value_prefix(body, i - start + 1, radix as nat, max as nat);
                    }
                    return None;
                }
                value = next as u64;
            },
        }
        i += 1;
    }
    assert(body.take(i - start) =~= body);
    Some(value)
}

/// Reads a whole text as a `u32`.
pub fn parse_u32(s: &[char], radix: u64) -> (r: Option<u32>)
    requires
        2 <= radix <= 16,
    ensures
        r == u32_in(s@, radix as nat),
{
    match parse_up_to(s, radix, u32::MAX as u64) {
        Some(v) => Some(v as u32),
        None => None,
    }
}

/// Reads a whole text as a `u64`.
pub fn parse_u64(s: &[char], radix: u64) -> (r: Option<u64>)
    requires
        2 <= radix <= 16,
    ensures
        r == u64_in(s@, radix as nat),
{
    parse_up_to(s, radix, u64::MAX)
}

/// One of the letters that only a hexadecimal numeral holds.
pub open spec fn hex_letter(c: char) -> bool {
    'a' as u32 <= c as u32 <= 'f' as u32 || 'A' as u32 <= c as u32 <= 'F' as u32
}

/// The number that a peer's numeral stands for, whichever radix the peer took:
/// hexadecimal behind `0x` and wherever a letter stands in it, else decimal,
/// else hexadecimal. What is no number up to `max` counts as zero.
pub open spec fn auto_radix(s: Seq<char>, max: nat) -> nat {
    let t = chars::trimmed(s);
    if t.len() == 0 {
        0
    } else if t.len() >= 2 && t[0] == '0' && (t[1] == 'x' || t[1] == 'X') {
        or_zero(number_up_to(t.skip(2), 16, max))
    } else if exists|i: int| 0 <= i < t.len() && hex_letter(#[trigger] t[i]) {
        or_zero(number_up_to(t, 16, max))
    } else if number_up_to(t, 10, max) is Some {
        or_zero(number_up_to(t, 10, max))
    } else {
        or_zero(number_up_to(t, 16, max))
    }
}

/// The number that a hexadecimal numeral stands for, with or without `0x` in front.
/// What is no number up to `max` counts as zero.
pub open spec fn hex_number(s: Seq<char>, max: nat) -> nat {
    let t = chars::trimmed(s);
    if t.len() >= 2 && t[0] == '0' && (t[1] == 'x' || t[1] == 'X') {
        or_zero(number_up_to(t.skip(2), 16, max))
    } else {
        or_zero(number_up_to(t, 16, max))
    }
}

pub open spec fn or_zero(n: Option<nat>) -> nat {
    match n {
        Some(v) => v,
        None => 0,
    }
}

fn parse_or_zero(s: &[char], radix: u64, max: u64) -> (r: u64)
    requires
        2 <= radix <= 16,
    ensures
        r == or_zero(number_up_to(s@, radix as nat, max as nat)),
        r <= max,
{
    match parse_up_to(s, radix, max) {
        Some(v) => v,
        None => 0,
    }
}

fn has_hex_letter(s: &[char]) -> (r: bool)
    ensures
        r == exists|i: int| 0 <= i < s@.len() && hex_letter(#[trigger] s@[i]),
{
    let mut i: usize = 0;
    while i < s.len()
        invariant
            i <= s@.len(),
            forall|k: int| 0 <= k < i ==> !hex_letter(#[trigger] s@[k]),
        decreases s@.len() - i,
    {
        let n: u32 = s[i] as u32;
        if (97 <= n && n <= 102) || (65 <= n && n <= 70) {
            assert(hex_letter(s@[i as int]));
            return true;
        }
        i += 1;
    }
    false
}

/// Reads a numeral whose radix the text itself shows.
pub fn parse_auto_radix(s: &[char], max: u64) -> (r: u64)
    ensures
        r == auto_radix(s@, max as nat),
        r <= max,
{
    let t = trim(s);
    if t.len() == 0 {
        return 0;
    }
    if t.len() >= 2 && t[0] == '0' && (t[1] == 'x' || t[1] == 'X') {
        let body = slice_subrange(t.as_slice(), 2, t.len());
        assert(body@ =~= t@.skip(2));
        return parse_or_zero(body, 16, max);
    }
    if has_hex_letter(t.as_slice()) {
        return parse_or_zero(t.as_slice(), 16, max);
    }
    match parse_up_to(t.as_slice(), 10, max) {
        Some(v) => v,
        None => parse_or_zero(t.as_slice(), 16, max),
    }
}

/// Reads a hexadecimal numeral.
pub fn parse_hex_number(s: &[char], max: u64) -> (r: u64)
    ensures
        r == hex_number(s@, max as nat),
        r <= max,
{
    let t = trim(s);
    if t.len() >= 2 && t[0] == '0' && (t[1] == 'x' || t[1] == 'X') {
        let body = slice_subrange(t.as_slice(), 2, t.len());
        assert(body@ =~= t@.skip(2));
        return parse_or_zero(body, 16, max);
    }
    parse_or_zero(t.as_slice(), 16, max)
}

/// Reads a peer's 32-bit numeral; what is none counts as zero.
pub fn parse_u32_auto_radix(s: &str) -> (r: u32)
    ensures
        r == auto_radix(s@, u32::MAX as nat),
{
    let t = to_chars(s);
    parse_auto_radix(t.as_slice(), u32::MAX as u64) as u32
}

/// Reads a peer's 64-bit numeral; what is none counts as zero.
pub fn parse_u64_auto_radix(s: &str) -> (r: u64)
    ensures
        r == auto_radix(s@, u64::MAX as nat),
{
    let t = to_chars(s);
    parse_auto_radix(t.as_slice(), u64::MAX)
}

/// A row of digits that begins with no number, or with one above `max`, is no
/// number up to `max`.
pub proof fn lemma_value_prefix(s: Seq<char>, k: int, radix: nat, max: nat)
    requires
        0 <= k <= s.len(),
        radix >= 2,
        match value_of(s.take(k), radix) {
            Some(v) => v > max,
            None => true,
        },
    ensures
        match value_of(s, radix) {
            Some(v) => v > max,
            None => true,
        },
    decreases s.len() - k,
{
    if k < s.len() {
        let more = s.take(k + 1);
        assert(more.drop_last() =~= s.take(k));
        match (value_of(s.take(k), radix), digit_of(more.last(), radix)) {
            (Some(v), Some(d)) => {
                assert(v * radix + d >= v) by (nonlinear_arith)
                    requires
                        radix >= 2,
                        v >= 0,
                        d >= 0,
                ;
            },
            _ => {},
        }
        lemma_value_prefix(s, k + 1, radix, max);
    } else {
        assert(s.take(k) =~= s);
    }
}

/// A written number is made of numerals, the first of which is no sign.
pub proof fn lemma_digits_shape(n: nat, radix: nat)
    requires
        2 <= radix <= 16,
    ensures
        digits(n, radix).len() >= 1,
        forall|i: int|
            0 <= i < digits(n, radix).len() ==> exists|d: nat|
                d < radix && #[trigger] digits(n, radix)[i] == numeral(d),
    decreases n,
{
    if n >= radix {
        assert(n / radix < n && n % radix < radix) by (nonlinear_arith)
            requires
                2 <= radix <= n,
        ;
        lemma_digits_shape(n / radix, radix);
        assert forall|i: int| 0 <= i < digits(n, radix).len() implies exists|d: nat|
            d < radix && #[trigger] digits(n, radix)[i] == numeral(d) by {
            if i < digits(n / radix, radix).len() {
                assert(digits(n, radix)[i] == digits(n / radix, radix)[i]);
            } else {
                assert(digits(n, radix)[i] == numeral(n % radix));
            }
        }
    } else {
        assert(digits(n, radix)[0] == numeral(n));
    }
}

/// No character of a written number is white, a control character or a
/// separator of the wire format.
pub proof fn lemma_digits_plain(n: nat, radix: nat)
    requires
        2 <= radix <= 16,
    ensures
        forall|i: int|
            0 <= i < digits(n, radix).len() ==> {
                let c = #[trigger] digits(n, radix)[i];
                ||| '0' as u32 <= c as u32 <= '9' as u32
                ||| 'a' as u32 <= c as u32 <= 'f' as u32
            },
        digits(n, radix).len() >= 1,
{
    lemma_digits_shape(n, radix);
}

/// Reading back a written number gives the number.
pub proof fn law_number_round_trip(n: nat, radix: nat)
    requires
        2 <= radix <= 16,
    ensures
        number_in(digits(n, radix), radix) == Some(n),
{
    lemma_digits_plain(n, radix);
    lemma_value_of_digits(n, radix);
    assert(digits(n, radix)[0] != '+');
}

proof fn lemma_value_of_digits(n: nat, radix: nat)
    requires
        2 <= radix <= 16,
    ensures
        value_of(digits(n, radix), radix) == Some(n),
    decreases n,
{
    if n < radix {
        assert(digits(n, radix).drop_last() =~= Seq::<char>::empty());
        assert(value_of(Seq::<char>::empty(), radix) == Some(0nat));
        assert(0 * radix == 0) by (nonlinear_arith);
    } else {
        assert(n / radix < n && n % radix < radix && (n / radix) * radix + n % radix == n)
            by (nonlinear_arith)
            requires
                2 <= radix <= n,
        ;
        lemma_value_of_digits(n / radix, radix);
        assert(digits(n, radix).drop_last() =~= digits(n / radix, radix));
    }
}

} // verus!
