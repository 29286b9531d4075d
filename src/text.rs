use vstd::prelude::*;

use crate::timestamp::Timestamp;

verus! {

/// The character of decimal digit `d` (0 to 9).
pub open spec fn digit_char(d: int) -> char {
    seq!['0', '1', '2', '3', '4', '5', '6', '7', '8', '9'][d]
}

/// `c` is one of `0` to `9`.
pub open spec fn is_digit(c: char) -> bool {
    '0' <= c && c <= '9'
}

/// The value of a decimal digit character.
pub open spec fn digit_value(c: char) -> int {
    c as int - '0' as int
}

/// `n` in decimal, padded with leading zeros to at least `width` digits.
pub open spec fn decimal(n: nat, width: nat) -> Seq<char>
    decreases n + width,
{
    if n < 10 && width <= 1 {
        seq![digit_char(n as int)]
    } else {
        let rest = if width > 0 { (width - 1) as nat } else { 0 };
        decimal(n / 10, rest).push(digit_char((n % 10) as int))
    }
}

/// The number that a string of decimal digits spells.
pub open spec fn value_of(s: Seq<char>) -> int
    decreases s.len(),
{
    if s.len() == 0 {
        0
    } else {
        value_of(s.drop_last()) * 10 + digit_value(s.last())
    }
}

/// Ten to the power `w`.
pub open spec fn pow10(w: nat) -> nat
    decreases w,
{
    if w == 0 { 1 } else { 10 * pow10((w - 1) as nat) }
}

proof fn lemma_digit_char(d: int)
    requires
        0 <= d < 10,
    ensures
        is_digit(digit_char(d)),
        digit_value(digit_char(d)) == d,
{
}

/// `decimal` writes digits only, they spell `n`, and there are `width` of them
/// where `n` has no more.
pub proof fn lemma_decimal(n: nat, width: nat)
    ensures
        decimal(n, width).len() >= 1,
        forall|i: int|
            0 <= i < decimal(n, width).len() ==> is_digit(#[trigger] decimal(n, width)[i]),
        value_of(decimal(n, width)) == n,
        width >= 1 && n < pow10(width) ==> decimal(n, width).len() == width,
    decreases n + width,
{
    let s = decimal(n, width);
    if n < 10 && width <= 1 {
        lemma_digit_char(n as int);
        assert(s.drop_last() =~= Seq::<char>::empty());
        assert(value_of(s.drop_last()) == 0);
        if width >= 1 {
            assert(pow10(1) == 10) by { reveal_with_fuel(pow10, 2); }
        }
    } else {
        let w2: nat = if width > 0 { (width - 1) as nat } else { 0 };
        lemma_decimal(n / 10, w2);
        lemma_digit_char((n % 10) as int);
        let p = decimal(n / 10, w2);
        assert(s.drop_last() =~= p);
        assert(forall|i: int| 0 <= i < p.len() ==> #[trigger] s[i] == p[i]);
        assert(value_of(s) == (n / 10) * 10 + n % 10);
        assert((n / 10) * 10 + n % 10 == n) by (nonlinear_arith);
        if width >= 1 && n < pow10(width) {
            assert(pow10(width) == 10 * pow10(w2));
            assert(n / 10 < pow10(w2)) by (nonlinear_arith)
                requires n < pow10(width), pow10(width) == 10 * pow10(w2);
            if w2 == 0 {
                assert(n < 10);
                assert(false);
            }
        }
    }
}

/// Two numbers written at the same width give the same text only if they are equal.
pub proof fn lemma_decimal_injective(a: nat, b: nat, width: nat)
    requires
        decimal(a, width) == decimal(b, width),
    ensures
        a == b,
{
    lemma_decimal(a, width);
    lemma_decimal(b, width);
}

/// The year as chrono's `%Y` writes it: four digits for years 0 to 9999, and
/// otherwise a sign followed by at least four digits.
pub open spec fn year_text(year: int) -> Seq<char> {
    if 0 <= year <= 9999 {
        decimal(year as nat, 4)
    } else if year < 0 {
        seq!['-'] + decimal((-year) as nat, 4)
    } else {
        seq!['+'] + decimal(year as nat, 4)
    }
}

impl Timestamp {
    /// The timestamp as `DD-MM-YYYY HH:MM:SS`.
    pub open spec fn text(self) -> Seq<char> {
        decimal(self.day as nat, 2) + seq!['-'] + decimal(self.month as nat, 2) + seq!['-']
            + year_text(self.year as int) + seq![' '] + decimal(self.hour as nat, 2) + seq![':']
            + decimal(self.minute as nat, 2) + seq![':'] + decimal(self.second as nat, 2)
    }
}

/// `s` has the shape `dd-dd-dddd dd:dd:dd`, where each `d` is a decimal digit.
pub open spec fn has_layout(s: Seq<char>) -> bool {
    &&& s.len() == 19
    &&& forall|i: int|
        0 <= i < 19 ==> if i == 2 || i == 5 {
            #[trigger] s[i] == '-'
        } else if i == 10 {
            s[i] == ' '
        } else if i == 13 || i == 16 {
            s[i] == ':'
        } else {
            is_digit(s[i])
        }
}

proof fn lemma_two_digits(n: nat)
    requires
        n < 100,
    ensures
        decimal(n, 2).len() == 2,
        is_digit(decimal(n, 2)[0]),
        is_digit(decimal(n, 2)[1]),
        value_of(decimal(n, 2)) == n,
{
    assert(pow10(2) == 100) by { reveal_with_fuel(pow10, 3); }
    lemma_decimal(n, 2);
}

proof fn lemma_four_digits(n: nat)
    requires
        n < 10000,
    ensures
        decimal(n, 4).len() == 4,
        forall|i: int| 0 <= i < 4 ==> is_digit(#[trigger] decimal(n, 4)[i]),
        value_of(decimal(n, 4)) == n,
{
    assert(pow10(4) == 10000) by { reveal_with_fuel(pow10, 5); }
    lemma_decimal(n, 4);
}

/// Where the pieces of `t.text()` stand, for a well-formed `t` whose year
/// takes `year_text(t.year).len()` characters.
proof fn lemma_text_pieces(t: Timestamp)
    requires
        t.wf(),
    ensures
        ({
            let s = t.text();
            let y = year_text(t.year as int);
            let k = 6 + y.len() as int;
            &&& s.len() == k + 9
            &&& s.subrange(0, 2) == decimal(t.day as nat, 2)
            &&& s[2] == '-'
            &&& s.subrange(3, 5) == decimal(t.month as nat, 2)
            &&& s[5] == '-'
            &&& s.subrange(6, k) == y
            &&& s[k] == ' '
            &&& s.subrange(k + 1, k + 3) == decimal(t.hour as nat, 2)
            &&& s[k + 3] == ':'
            &&& s.subrange(k + 4, k + 6) == decimal(t.minute as nat, 2)
            &&& s[k + 6] == ':'
            &&& s.subrange(k + 7, k + 9) == decimal(t.second as nat, 2)
        }),
{
    lemma_two_digits(t.day as nat);
    lemma_two_digits(t.month as nat);
    lemma_two_digits(t.hour as nat);
    lemma_two_digits(t.minute as nat);
    lemma_two_digits(t.second as nat);
    let s = t.text();
    let y = year_text(t.year as int);
    let k = 6 + y.len() as int;
    assert(s.subrange(0, 2) =~= decimal(t.day as nat, 2));
    assert(s.subrange(3, 5) =~= decimal(t.month as nat, 2));
    assert(s.subrange(6, k) =~= y);
    assert(s.subrange(k + 1, k + 3) =~= decimal(t.hour as nat, 2));
    assert(s.subrange(k + 4, k + 6) =~= decimal(t.minute as nat, 2));
    assert(s.subrange(k + 7, k + 9) =~= decimal(t.second as nat, 2));
}

proof fn lemma_year_text(year: int)
    ensures
        0 <= year <= 9999 ==> {
            &&& year_text(year).len() == 4
            &&& forall|i: int| 0 <= i < 4 ==> is_digit(#[trigger] year_text(year)[i])
            &&& value_of(year_text(year)) == year
        },
        !(0 <= year <= 9999) ==> {
            &&& year_text(year).len() >= 1
            &&& year_text(year)[0] == (if year < 0 { '-' } else { '+' })
            &&& year_text(year).subrange(1, year_text(year).len() as int) == decimal(
                if year < 0 { -year } else { year } as nat,
                4,
            )
        },
{
    if 0 <= year <= 9999 {
        lemma_four_digits(year as nat);
    } else {
        let d = decimal(if year < 0 { -year } else { year } as nat, 4);
        lemma_decimal(if year < 0 { -year } else { year } as nat, 4);
        assert(year_text(year).subrange(1, year_text(year).len() as int) =~= d);
    }
}

proof fn lemma_year_text_injective(a: int, b: int)
    requires
        year_text(a) == year_text(b),
    ensures
        a == b,
{
    lemma_year_text(a);
    lemma_year_text(b);
    let y = year_text(a);
    if 0 <= a <= 9999 {
        if !(0 <= b <= 9999) {
            assert(is_digit(y[0]));
            assert(false);
        }
    } else {
        if 0 <= b <= 9999 {
            assert(is_digit(y[0]));
            assert(false);
        }
        lemma_decimal_injective(
            if a < 0 { -a } else { a } as nat,
            if b < 0 { -b } else { b } as nat,
            4,
        );
    }
}

/// For a year from 0 to 9999, the text of a well-formed timestamp always has
/// the shape `dd-dd-dddd dd:dd:dd`, each `d` a decimal digit.
pub proof fn lemma_text_layout(t: Timestamp)
    requires
        t.wf(),
        0 <= t.year <= 9999,
    ensures
        has_layout(t.text()),
{
    lemma_text_pieces(t);
    lemma_year_text(t.year as int);
    lemma_two_digits(t.day as nat);
    lemma_two_digits(t.month as nat);
    lemma_two_digits(t.hour as nat);
    lemma_two_digits(t.minute as nat);
    lemma_two_digits(t.second as nat);
    let s = t.text();
    assert forall|i: int| 0 <= i < 19 implies if i == 2 || i == 5 {
        #[trigger] s[i] == '-'
    } else if i == 10 {
        s[i] == ' '
    } else if i == 13 || i == 16 {
        s[i] == ':'
    } else {
        is_digit(s[i])
    } by {
        if 0 <= i < 2 {
            assert(s[i] == s.subrange(0, 2)[i]);
        } else if 3 <= i < 5 {
            assert(s[i] == s.subrange(3, 5)[i - 3]);
        } else if 6 <= i < 10 {
            assert(s[i] == s.subrange(6, 10)[i - 6]);
        } else if 11 <= i < 13 {
            assert(s[i] == s.subrange(11, 13)[i - 11]);
        } else if 14 <= i < 16 {
            assert(s[i] == s.subrange(14, 16)[i - 14]);
        } else if 17 <= i < 19 {
            assert(s[i] == s.subrange(17, 19)[i - 17]);
        }
    }
}

/// For a year from 0 to 9999, each field of the text of a well-formed timestamp
/// spells that field's value, which lies in its range: day 01 to 31, month 01 to
/// 12, hour 00 to 23, minute and second 00 to 59.
pub proof fn lemma_text_fields(t: Timestamp)
    requires
        t.wf(),
        0 <= t.year <= 9999,
    ensures
        ({
            let s = t.text();
            &&& value_of(s.subrange(0, 2)) == t.day && 1 <= t.day <= 31
            &&& value_of(s.subrange(3, 5)) == t.month && 1 <= t.month <= 12
            &&& value_of(s.subrange(6, 10)) == t.year
            &&& value_of(s.subrange(11, 13)) == t.hour && t.hour <= 23
            &&& value_of(s.subrange(14, 16)) == t.minute && t.minute <= 59
            &&& value_of(s.subrange(17, 19)) == t.second && t.second <= 59
        }),
{
    lemma_text_pieces(t);
    lemma_year_text(t.year as int);
    lemma_two_digits(t.day as nat);
    lemma_two_digits(t.month as nat);
    lemma_two_digits(t.hour as nat);
    lemma_two_digits(t.minute as nat);
    lemma_two_digits(t.second as nat);
}

/// Two well-formed timestamps that differ, even by one second, have different
/// texts.
pub proof fn lemma_text_injective(a: Timestamp, b: Timestamp)
    requires
        a.wf(),
        b.wf(),
        a != b,
    ensures
        a.text() != b.text(),
{
    if a.text() == b.text() {
        lemma_text_pieces(a);
        lemma_text_pieces(b);
        let ka = 6 + year_text(a.year as int).len() as int;
        assert(ka == 6 + year_text(b.year as int).len() as int);
        lemma_decimal_injective(a.day as nat, b.day as nat, 2);
        lemma_decimal_injective(a.month as nat, b.month as nat, 2);
        lemma_year_text_injective(a.year as int, b.year as int);
        lemma_decimal_injective(a.hour as nat, b.hour as nat, 2);
        lemma_decimal_injective(a.minute as nat, b.minute as nat, 2);
        lemma_decimal_injective(a.second as nat, b.second as nat, 2);
    }
}

} // verus!
