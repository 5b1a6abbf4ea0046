//! Decimal numerals: writing an integer down and reading it back.
use crate::text::chars_of;
use vstd::prelude::*;

verus! {

/// The decimal digit for a number below ten.
pub open spec fn digit(d: nat) -> char {
    if d == 0 {
        '0'
    } else if d == 1 {
        '1'
    } else if d == 2 {
        '2'
    } else if d == 3 {
        '3'
    } else if d == 4 {
        '4'
    } else if d == 5 {
        '5'
    } else if d == 6 {
        '6'
    } else if d == 7 {
        '7'
    } else if d == 8 {
        '8'
    } else {
        '9'
    }
}

/// Whether a character is one of the ten ASCII digits.
pub open spec fn is_digit(c: char) -> bool {
    '0' <= c <= '9'
}

/// The value of an ASCII digit.
pub open spec fn digit_value(c: char) -> nat
    recommends
        is_digit(c),
{
    (c as nat - '0' as nat) as nat
}

/// The numeral of a natural number, without leading zeros.
pub open spec fn numeral(n: nat) -> Seq<char>
    decreases n,
{
    if n < 10 {
        seq![digit(n)]
    } else {
        numeral(n / 10).push(digit(n % 10))
    }
}

/// The numeral of an integer: a minus sign in front of a negative one.
pub open spec fn decimal(n: int) -> Seq<char> {
    if n < 0 {
        seq!['-'] + numeral((-n) as nat)
    } else {
        numeral(n as nat)
    }
}

/// Whether every character is an ASCII digit.
pub open spec fn all_digits(s: Seq<char>) -> bool {
    forall|i: int| 0 <= i < s.len() ==> is_digit(#[trigger] s[i])
}

/// The number that a sequence of digits denotes.
pub open spec fn value(s: Seq<char>) -> nat
    decreases s.len(),
{
    if s.len() == 0 {
        0
    } else {
        10 * value(s.drop_last()) + digit_value(s.last())
    }
}

/// The integer that a text denotes: digits, at least one, after an optional
/// sign. Any other text, one with white space among them, denotes none.
pub open spec fn integer(s: Seq<char>) -> Option<int> {
    if s.len() == 0 {
        None
    } else {
        let signed = s[0] == '-' || s[0] == '+';
        let digits = if signed {
            s.drop_first()
        } else {
            s
        };
        if digits.len() == 0 || !all_digits(digits) {
            None
        } else if s[0] == '-' {
            Some(-(value(digits) as int))
        } else {
            Some(value(digits) as int)
        }
    }
}

/// The integer that a text denotes, where it lies in `min..=max`.
pub open spec fn integer_within(s: Seq<char>, min: int, max: int) -> Option<int> {
    match integer(s) {
        Some(n) => if min <= n <= max {
            Some(n)
        } else {
            None
        },
        None => None,
    }
}

fn digit_char(d: u8) -> (c: char)
    requires
        d < 10,
    ensures
        c == digit(d as nat),
{
    match d {
        0 => '0',
        1 => '1',
        2 => '2',
        3 => '3',
        4 => '4',
        5 => '5',
        6 => '6',
        7 => '7',
        8 => '8',
        _ => '9',
    }
}

/// The numeral of an unsigned number.
pub fn u64_text(n: u64) -> (r: String)
    ensures
        r@ == numeral(n as nat),
    decreases n,
{
    if n < 10 {
        let mut s = String::new();
        s.push(digit_char(n as u8));
        assert(s@ =~= seq![digit(n as nat)]);
        s
    } else {
        let mut s = u64_text(n / 10);
        s.push(digit_char((n % 10) as u8));
        s
    }
}

/// The numeral of a signed number.
pub fn i64_text(n: i64) -> (r: String)
    ensures
        r@ == decimal(n as int),
{
    if n >= 0 {
        u64_text(n as u64)
    } else {
        let size: u64 = if n == i64::MIN {
            0x8000_0000_0000_0000
        } else {
            (-n) as u64
        };
        let mut s = String::new();
        s.push('-');
        let digits = u64_text(size);
        s.append(digits.as_str());
        assert(s@ =~= seq!['-'] + numeral(size as nat));
        s
    }
}

/// The numeral of a count.
pub fn usize_text(n: usize) -> (r: String)
    ensures
        r@ == numeral(n as nat),
{
    u64_text(n as u64)
}

/// The number that the digits from `from` on denote; `None` where one of them
/// is no digit or the number is above `max`.
fn read_digits(chars: &Vec<char>, from: usize, max: u64) -> (r: Option<u64>)
    requires
        from <= chars@.len(),
        max <= 0x8000_0000_0000_0000,
    ensures
        match r {
            Some(n) => all_digits(chars@.skip(from as int)) && n == value(chars@.skip(from as int))
                && n <= max,
            None => !all_digits(chars@.skip(from as int)) || value(chars@.skip(from as int)) > max,
        },
{
    let ghost digits = chars@.skip(from as int);
    let mut n: u64 = 0;
    let mut big: bool = false;
    let mut i: usize = from;
    assert(digits.take(0).len() == 0);
    while i < chars.len()
        invariant
            from <= i <= chars@.len(),
            digits == chars@.skip(from as int),
            all_digits(digits.take(i - from)),
            n <= max <= 0x8000_0000_0000_0000,
            big ==> value(digits.take(i - from)) > max,
            !big ==> n == value(digits.take(i - from)),
        decreases chars@.len() - i,
    {
        let c = chars[i];
        let ghost seen = digits.take(i - from);
        let ghost more = digits.take(i + 1 - from);
        assert(more.drop_last() =~= seen);
        assert(more.last() == c);
        if !('0' <= c && c <= '9') {
            assert(!is_digit(digits[i - from]));
            return None;
        }
        let d: u64 = (c as u32 - '0' as u32) as u64;
        assert(forall|k: int| 0 <= k < more.len() - 1 ==> more[k] == #[trigger] seen[k]);
        assert forall|k: int| 0 <= k < more.len() implies is_digit(#[trigger] more[k]) by {
            if k < more.len() - 1 {
                assert(is_digit(seen[k]));
            }
        }
        if !big {
            let wide: u128 = n as u128 * 10 + d as u128;
            if wide > max as u128 {
                big = true;
            } else {
                n = wide as u64;
            }
        }
        i = i + 1;
    }
    assert(digits.take(digits.len() as int) =~= digits);
    if big {
        None
    } else {
        Some(n)
    }
}

/// Reads a signed number, as `str::parse::<i64>` does: an optional sign, then
/// digits. `None` for any other text and for a number out of range.
pub fn parse_i64(s: &str) -> (r: Option<i64>)
    ensures
        match r {
            Some(n) => integer_within(s@, i64::MIN as int, i64::MAX as int) == Some(n as int),
            None => integer_within(s@, i64::MIN as int, i64::MAX as int) is None,
        },
{
    let chars = chars_of(s);
    if chars.len() == 0 {
        return None;
    }
    let minus: bool = chars[0] == '-';
    let start: usize = if minus || chars[0] == '+' {
        1
    } else {
        0
    };
    if start == chars.len() {
        return None;
    }
    proof {
        if start == 1 {
            assert(s@.skip(1) =~= s@.drop_first());
        } else {
            assert(s@.skip(0) =~= s@);
        }
    }
    if minus {
        match read_digits(&chars, start, 0x8000_0000_0000_0000) {
            None => None,
            Some(n) => if n == 0x8000_0000_0000_0000 {
                Some(i64::MIN)
            } else {
                Some(-(n as i64))
            },
        }
    } else {
        match read_digits(&chars, start, 0x7fff_ffff_ffff_ffff) {
            None => None,
            Some(n) => Some(n as i64),
        }
    }
}

/// Reads a signed number, as `str::parse::<i32>` does.
pub fn parse_i32(s: &str) -> (r: Option<i32>)
    ensures
        match r {
            Some(n) => integer_within(s@, i32::MIN as int, i32::MAX as int) == Some(n as int),
            None => integer_within(s@, i32::MIN as int, i32::MAX as int) is None,
        },
{
    match parse_i64(s) {
        None => None,
        Some(n) => if i32::MIN as i64 <= n && n <= i32::MAX as i64 {
            Some(n as i32)
        } else {
            None
        },
    }
}

proof fn lemma_numeral(n: nat)
    ensures
        numeral(n).len() > 0,
        all_digits(numeral(n)),
        value(numeral(n)) == n,
    decreases n,
{
    reveal_with_fuel(value, 2);
    let s = numeral(n);
    if n < 10 {
        assert(s.drop_last().len() == 0);
    } else {
        lemma_numeral(n / 10);
        assert(s.drop_last() =~= numeral(n / 10));
    }
}

/// Reading the numeral of an integer gives the integer back.
pub proof fn numeral_reads_back(n: int)
    ensures
        integer(decimal(n)) == Some(n),
{
    if n < 0 {
        lemma_numeral((-n) as nat);
        assert(decimal(n).drop_first() =~= numeral((-n) as nat));
    } else {
        lemma_numeral(n as nat);
        assert(is_digit(numeral(n as nat)[0]));
    }
}

/// A numeral is written digit by digit, the last one at the end: that of a
/// number below ten is its digit, and one more digit stands for ten times the
/// number and the digit.
pub proof fn a_numeral_grows_by_a_digit(n: nat, d: nat)
    requires
        d < 10,
    ensures
        numeral(d) == seq![('0' as int + d) as char],
        n > 0 ==> numeral(10 * n + d) == numeral(n) + numeral(d),
        n > 0 ==> numeral(n)[0] != '0',
    decreases n,
{
    assert(digit(d) as int == '0' as int + d);
    if n > 0 {
        assert((10 * n + d) / 10 == n && (10 * n + d) % 10 == d) by (nonlinear_arith)
            requires
                d < 10,
        ;
        assert(numeral(10 * n + d) =~= numeral(n) + numeral(d));
        if n >= 10 {
            a_numeral_grows_by_a_digit(n / 10, n % 10);
            assert(numeral(n)[0] == numeral(n / 10)[0]) by {
                lemma_numeral(n / 10);
            }
        }
    }
}

/// The sign of an integer stands in front of its numeral, and only a negative
/// one has a sign.
pub proof fn only_a_negative_number_has_a_sign(n: int)
    requires
        n > 0,
    ensures
        decimal(n) == numeral(n as nat),
        decimal(0) == numeral(0),
        decimal(-n) == seq!['-'] + decimal(n),
{
}

/// A text denotes an integer exactly where it is made of ASCII digits, at least
/// one, behind at most one sign; a further digit makes it ten times as large and
/// adds the digit, and a minus sign makes it negative.
pub proof fn digits_denote_an_integer(s: Seq<char>, c: char)
    ensures
        integer(Seq::empty()) is None,
        integer(seq!['-']) is None,
        integer(seq!['+']) is None,
        integer(s.push(c)) is Some ==> '0' <= c <= '9',
        '0' <= c <= '9' ==> integer(seq![c]) == Some(c as int - '0' as int),
        '0' <= c <= '9' && integer(s) is Some ==> integer(s.push(c)) == Some(
            if s[0] == '-' {
                10 * integer(s)->0 - (c as int - '0' as int)
            } else {
                10 * integer(s)->0 + (c as int - '0' as int)
            },
        ),
        s.len() > 0 && '0' <= s[0] <= '9' ==> integer(seq!['+'] + s) == integer(s),
        s.len() > 0 && '0' <= s[0] <= '9' ==> integer(seq!['-'] + s) == (match integer(s) {
            Some(n) => Some(-n),
            None => None,
        }),
        integer(s) is Some ==> forall|i: int| 1 <= i < s.len() ==> '0' <= #[trigger] s[i] <= '9',
        integer(s) is Some ==> '0' <= s[0] <= '9' || ((s[0] == '-' || s[0] == '+') && s.len() > 1),
        s.len() > 0 && (forall|i: int| 0 <= i < s.len() ==> '0' <= #[trigger] s[i] <= '9')
            ==> integer(s) is Some,
{
    let t = s.push(c);
    assert(seq!['-'].drop_first().len() == 0);
    assert(seq!['+'].drop_first().len() == 0);
    if integer(t) is Some {
        let digits = if t[0] == '-' || t[0] == '+' {
            t.drop_first()
        } else {
            t
        };
        assert(digits[digits.len() - 1] == c);
    }
    if '0' <= c <= '9' {
        reveal_with_fuel(value, 2);
        assert(seq![c].drop_last().len() == 0);
        assert(is_digit(seq![c][0]));
        if integer(s) is Some {
            if s[0] == '-' || s[0] == '+' {
                let digits = s.drop_first();
                let more = t.drop_first();
                assert(more =~= digits.push(c));
                assert(more.drop_last() =~= digits);
                assert forall|i: int| 0 <= i < more.len() implies is_digit(#[trigger] more[i]) by {
                    if i < digits.len() {
                        assert(is_digit(digits[i]));
                    }
                }
            } else {
                assert(t.drop_last() =~= s);
                assert forall|i: int| 0 <= i < t.len() implies is_digit(#[trigger] t[i]) by {
                    if i < s.len() {
                        assert(is_digit(s[i]));
                    }
                }
            }
        }
    }
    if s.len() > 0 && '0' <= s[0] <= '9' {
        assert((seq!['+'] + s).drop_first() =~= s);
        assert((seq!['-'] + s).drop_first() =~= s);
    }
    if integer(s) is Some {
        assert forall|i: int| 1 <= i < s.len() implies '0' <= #[trigger] s[i] <= '9' by {
            if s[0] == '-' || s[0] == '+' {
                assert(is_digit(s.drop_first()[i - 1]));
            } else {
                assert(is_digit(s[i]));
            }
        }
        if s[0] != '-' && s[0] != '+' {
            assert(is_digit(s[0]));
        }
    }
}

/// A number is read within bounds exactly where the text denotes one that lies
/// within them.
pub proof fn a_number_is_read_within_its_bounds(s: Seq<char>, min: int, max: int, n: int)
    ensures
        integer_within(s, min, max) == Some(n) <==> integer(s) == Some(n) && min <= n <= max,
        integer_within(s, min, max) is None <==> (integer(s) matches Some(m) ==> m < min || max < m),
{
}

} // verus!
