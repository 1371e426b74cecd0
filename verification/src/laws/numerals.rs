//! Numbers as they are written and read.
use crate::chars;
use crate::laws::texts;
use crate::number;
use vstd::prelude::*;

verus! {

/// What a digit counts.
pub open spec fn digit_value(c: char, radix: nat) -> Option<nat> {
    let n = c as u32;
    if 48 <= n <= 57 {
        Some((n - 48) as nat)
    } else if radix == 16 && 97 <= n <= 102 {
        Some((n - 87) as nat)
    } else if radix == 16 && 65 <= n <= 70 {
        Some((n - 55) as nat)
    } else {
        None
    }
}

/// Digits, and at least one of them.
pub open spec fn numeral(s: Seq<char>, radix: nat) -> bool {
    &&& s.len() > 0
    &&& forall|i: int| 0 <= i < s.len() ==> digit_value(#[trigger] s[i], radix) is Some
}

/// A number where it is small enough, else zero.
pub open spec fn up_to(n: Option<nat>, max: nat) -> nat {
    if n is Some && n->0 <= max {
        n->0
    } else {
        0
    }
}

proof fn lemma_digit(c: char, radix: nat)
    requires
        radix == 10 || radix == 16,
    ensures
        number::digit_of(c, radix) == digit_value(c, radix),
        digit_value(c, radix) is Some ==> c != '+' && !chars::white(c),
{
}

/// A numeral is read from its first digit to its last, each digit ten times or sixteen
/// times the next. Decimal digits are those from 0 to 9; among the hexadecimal ones are
/// the letters up to f, in both cases. A plus sign may stand in front; anything else
/// makes the text no number.
pub proof fn law_numeral_read(s: Seq<char>, c: char, radix: nat)
    requires
        radix == 10 || radix == 16,
        s.len() > 0,
        s[0] != '+',
        c != '+',
    ensures
        number::number_in(Seq::empty(), radix) is None,
        number::number_in(seq!['+'], radix) is None,
        number::number_in(seq![c], radix) == digit_value(c, radix),
        number::number_in(s.push(c), radix) == match (
            number::number_in(s, radix),
            digit_value(c, radix),
        ) {
            (Some(n), Some(d)) => Some(n * radix + d),
            _ => None,
        },
        number::number_in(s.push('+'), radix) is None,
        number::number_in(seq!['+'] + s, radix) == number::number_in(s, radix),
        number::number_in(seq!['+', '+'] + s, radix) is None,
{
    lemma_digit(c, radix);
    lemma_digit('+', radix);
    assert(s.push(c).drop_last() =~= s);
    assert(s.push('+').drop_last() =~= s);
    assert((seq!['+'] + s).drop_first() =~= s);
    assert(seq!['+'].drop_first() =~= Seq::<char>::empty());
    assert((seq!['+', '+'] + s).drop_first() =~= seq!['+'] + s);
    let one = seq![c];
    assert(one.drop_last() =~= Seq::<char>::empty());
    assert(number::value_of(Seq::<char>::empty(), radix) == Some(0nat));
    assert(0 * radix == 0) by (nonlinear_arith);
    assert(number::value_of(one, radix) == digit_value(c, radix));
    lemma_strange(seq!['+'] + s, 0, radix);
}

/// A number is read into a field of 32 or 64 bits where it fits, and nothing else is.
pub proof fn law_numbers_fit(s: Seq<char>, radix: nat, n: u32, m: u64)
    ensures
        number::u32_in(s, radix) == Some(n) <==> number::number_in(s, radix) == Some(n as nat),
        number::u64_in(s, radix) == Some(m) <==> number::number_in(s, radix) == Some(m as nat),
{
}

proof fn lemma_strange(s: Seq<char>, i: int, radix: nat)
    requires
        radix == 10 || radix == 16,
        0 <= i < s.len(),
        digit_value(s[i], radix) is None,
    ensures
        number::value_of(s, radix) is None,
    decreases s.len(),
{
    lemma_digit(s[i], radix);
    if i < s.len() - 1 {
        lemma_strange(s.drop_last(), i, radix);
    }
}

/// A numeral is a number; read as hexadecimal it is not less than read as decimal.
pub proof fn lemma_numeral(s: Seq<char>, radix: nat)
    requires
        radix == 10 || radix == 16,
        forall|i: int| 0 <= i < s.len() ==> digit_value(#[trigger] s[i], radix) is Some,
    ensures
        number::value_of(s, radix) is Some,
        radix == 10 ==> number::value_of(s, 16) is Some && number::value_of(s, 16)->0
            >= number::value_of(s, 10)->0,
    decreases s.len(),
{
    if s.len() > 0 {
        let init = s.drop_last();
        assert forall|i: int| 0 <= i < init.len() implies digit_value(#[trigger] init[i], radix)
            is Some by {
            assert(init[i] == s[i]);
        }
        lemma_numeral(init, radix);
        assert(digit_value(s[s.len() - 1], radix) is Some);
        lemma_digit(s.last(), radix);
        lemma_digit(s.last(), 16);
    }
}

proof fn lemma_numeral_tight(s: Seq<char>, radix: nat)
    requires
        radix == 10 || radix == 16,
        numeral(s, radix),
    ensures
        texts::tight(s),
        s[0] != '+',
        number::number_in(s, radix) == number::value_of(s, radix),
        number::number_in(s, radix) is Some,
        number::number_in(s, 16) == number::value_of(s, 16),
{
    lemma_digit(s[0], radix);
    assert(digit_value(s[s.len() - 1], radix) is Some);
    lemma_digit(s.last(), radix);
    lemma_numeral(s, radix);
}

/// A number of unknown radix is decimal where all its digits are; it is hexadecimal where
/// one of them is a letter, or where it stands behind `0x`. White space around it does
/// not matter. What is too large, or no number, counts as zero.
pub proof fn law_radix_found(before: Seq<char>, s: Seq<char>, after: Seq<char>, max: nat)
    requires
        texts::all_white(before),
        texts::all_white(after),
    ensures
        numeral(s, 10) ==> number::auto_radix(before + s + after, max) == up_to(
            number::number_in(s, 10),
            max,
        ),
        numeral(s, 16) && !numeral(s, 10) ==> number::auto_radix(before + s + after, max) == up_to(
            number::number_in(s, 16),
            max,
        ),
        numeral(s, 16) ==> number::auto_radix(before + (seq!['0', 'x'] + s) + after, max) == up_to(
            number::number_in(s, 16),
            max,
        ),
        numeral(s, 16) ==> number::auto_radix(before + (seq!['0', 'X'] + s) + after, max) == up_to(
            number::number_in(s, 16),
            max,
        ),
        s.len() == 0 ==> number::auto_radix(before + s + after, max) == 0,
{
    if numeral(s, 10) {
        lemma_numeral_tight(s, 10);
        lemma_numeral(s, 10);
        texts::law_trimming(before, s, after);
        assert forall|i: int| 0 <= i < s.len() implies !number::hex_letter(#[trigger] s[i]) by {
            assert(digit_value(s[i], 10) is Some);
        }
        if s.len() >= 2 {
            assert(digit_value(s[1], 10) is Some);
        }
    } else if numeral(s, 16) {
        lemma_numeral_tight(s, 16);
        texts::law_trimming(before, s, after);
        let i = choose|i: int| 0 <= i < s.len() && digit_value(#[trigger] s[i], 10) is None;
        assert(digit_value(s[i], 16) is Some);
        assert(number::hex_letter(s[i]));
        if s.len() >= 2 {
            assert(digit_value(s[1], 16) is Some);
        }
    }
    if numeral(s, 16) {
        lemma_numeral_tight(s, 16);
        let a = seq!['0', 'x'] + s;
        let b = seq!['0', 'X'] + s;
        assert(a.last() == s.last() && b.last() == s.last());
        texts::law_trimming(before, a, after);
        texts::law_trimming(before, b, after);
        assert(a.skip(2) =~= s);
        assert(b.skip(2) =~= s);
    }
    if s.len() == 0 {
        texts::law_trimming(before, s, after);
    }
}

/// A number that is known to be hexadecimal is read as such, also where all its digits are
/// decimal and whether or not `0x` stands in front.
pub proof fn law_hexadecimal_read(before: Seq<char>, s: Seq<char>, after: Seq<char>, max: nat)
    requires
        texts::all_white(before),
        texts::all_white(after),
    ensures
        numeral(s, 16) ==> number::hex_number(before + s + after, max) == up_to(
            number::number_in(s, 16),
            max,
        ),
        numeral(s, 16) ==> number::hex_number(before + (seq!['0', 'x'] + s) + after, max) == up_to(
            number::number_in(s, 16),
            max,
        ),
        numeral(s, 16) ==> number::hex_number(before + (seq!['0', 'X'] + s) + after, max) == up_to(
            number::number_in(s, 16),
            max,
        ),
        s.len() == 0 ==> number::hex_number(before + s + after, max) == 0,
{
    if numeral(s, 16) {
        lemma_numeral_tight(s, 16);
        let a = seq!['0', 'x'] + s;
        let b = seq!['0', 'X'] + s;
        assert(a.last() == s.last() && b.last() == s.last());
        texts::law_trimming(before, s, after);
        texts::law_trimming(before, a, after);
        texts::law_trimming(before, b, after);
        assert(a.skip(2) =~= s);
        assert(b.skip(2) =~= s);
        if s.len() >= 2 {
            assert(digit_value(s[1], 16) is Some);
        }
    }
    if s.len() == 0 {
        texts::law_trimming(before, s, after);
    }
}

/// A text with a character that is no digit counts as zero.
pub proof fn law_no_number_is_zero(s: Seq<char>, i: int, max: nat)
    requires
        texts::tight(s),
        0 <= i < s.len(),
        digit_value(s[i], 16) is None,
        s[i] != '+',
        !(i == 1 && s[0] == '0' && (s[1] == 'x' || s[1] == 'X')),
    ensures
        number::auto_radix(s, max) == 0,
        number::hex_number(s, max) == 0,
{
    let none = Seq::<char>::empty();
    texts::law_trimming(none, s, none);
    assert(none + s + none =~= s);
    if s.len() >= 2 && s[0] == '0' && (s[1] == 'x' || s[1] == 'X') {
        let t = s.skip(2);
        assert(t[i - 2] == s[i]);
        if t[0] == '+' {
            assert(t.drop_first()[i - 3] == s[i]);
            lemma_strange(t.drop_first(), i - 3, 16);
        } else {
            lemma_strange(t, i - 2, 16);
        }
    } else if s[0] == '+' {
        assert(s.drop_first()[i - 1] == s[i]);
        lemma_strange(s.drop_first(), i - 1, 16);
        lemma_strange(s.drop_first(), i - 1, 10);
    } else {
        lemma_strange(s, i, 16);
        lemma_strange(s, i, 10);
    }
}

/// A number is written in the digits from 0 to 9 and a to f, without zeros in front,
/// the last digit what is left over a multiple of the radix; where it is filled up, it
/// is filled up with zeros in front.
pub proof fn law_numbers_written(n: nat, radix: nat, width: nat)
    requires
        radix == 10 || radix == 16,
    ensures
        number::digits(n, radix).len() > 0,
        forall|i: int|
            0 <= i < number::digits(n, radix).len() ==> {
                let c = #[trigger] number::digits(n, radix)[i] as u32;
                48 <= c <= 57 || (radix == 16 && 97 <= c <= 102)
            },
        n > 0 ==> number::digits(n, radix)[0] != '0',
        n == 0 ==> number::digits(n, radix) == seq!['0'],
        number::number_in(number::digits(n, radix), radix) == Some(n),
        ({
            let h = number::hexadecimal(n);
            let p = number::padded(n, width);
            &&& h.len() >= width ==> p == h
            &&& h.len() < width ==> p.len() == width && p.skip(width - h.len()) == h && forall|
                i: int,
            |
                0 <= i < width - h.len() ==> #[trigger] p[i] == '0'
        }),
    decreases n,
{
    number::law_number_round_trip(n, radix);
    number::lemma_digits_plain(n, radix);
    if n >= radix {
        assert(0 < n / radix < n) by (nonlinear_arith)
            requires
                2 <= radix <= n,
        ;
        law_numbers_written(n / radix, radix, width);
        let s = number::digits(n, radix);
        let t = number::digits(n / radix, radix);
        assert(s[0] == t[0]);
        if radix == 10 {
            assert(n % radix < 10);
            assert forall|i: int| 0 <= i < s.len() implies 48 <= (#[trigger] s[i] as u32)
                <= 57 by {
                if i < t.len() {
                    assert(s[i] == t[i]);
                } else {
                    assert(s[i] == number::numeral(n % radix));
                }
            }
        }
    } else {
        assert(number::digits(n, radix) =~= seq![number::numeral(n)]);
    }
    let h = number::hexadecimal(n);
    let p = number::padded(n, width);
    if h.len() < width {
        assert(p.skip(width - h.len()) =~= h);
    } else {
        assert(p =~= h);
    }
}

} // verus!
