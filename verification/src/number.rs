//! Decimal numbers as text.
use crate::text::chars_of;
use vstd::prelude::*;
use vstd::string::*;

verus! {

/// The decimal digit for a value below ten.
pub open spec fn digit(d: nat) -> char {
    ('0' as u32 + d) as char
}

/// A natural number in decimal, without leading zeros.
pub open spec fn decimal(n: nat) -> Seq<char>
    decreases n,
{
    if n < 10 {
        seq![digit(n)]
    } else {
        decimal(n / 10).push(digit(n % 10))
    }
}

/// An integer in decimal, with `-` in front of a negative one.
pub open spec fn decimal_int(n: int) -> Seq<char> {
    if n < 0 {
        seq!['-'] + decimal((-n) as nat)
    } else {
        decimal(n as nat)
    }
}

pub open spec fn is_digit(c: char) -> bool {
    '0' <= c <= '9'
}

pub open spec fn all_digits(s: Seq<char>) -> bool {
    forall|i: int| 0 <= i < s.len() ==> is_digit(#[trigger] s[i])
}

/// The value that a run of digits denotes.
pub open spec fn digits_value(s: Seq<char>) -> nat
    decreases s.len(),
{
    if s.len() == 0 {
        0
    } else {
        digits_value(s.drop_last()) * 10 + (s.last() as u32 - '0' as u32) as nat
    }
}

/// A non-empty run of digits whose value is at most `max`.
pub open spec fn parse_digits(s: Seq<char>, max: nat) -> Option<nat> {
    if s.len() > 0 && all_digits(s) && digits_value(s) <= max {
        Some(digits_value(s))
    } else {
        None
    }
}

/// A natural number of at most `max`: digits, with an optional `+` in front.
pub open spec fn parse_unsigned(s: Seq<char>, max: nat) -> Option<nat> {
    if s.len() > 0 && s[0] == '+' {
        parse_digits(s.skip(1), max)
    } else {
        parse_digits(s, max)
    }
}

/// An integer of at least `-(max + 1)` and at most `max`: digits, with an
/// optional `+` or `-` in front.
pub open spec fn parse_signed(s: Seq<char>, max: nat) -> Option<int> {
    if s.len() > 0 && s[0] == '-' {
        match parse_digits(s.skip(1), max + 1) {
            Some(n) => Some(-(n as int)),
            None => None,
        }
    } else {
        match parse_unsigned(s, max) {
            Some(n) => Some(n as int),
            None => None,
        }
    }
}

proof fn lemma_decimal(n: nat)
    ensures
        decimal(n).len() > 0,
        all_digits(decimal(n)),
        digits_value(decimal(n)) == n,
    decreases n,
{
    if n < 10 {
        assert(decimal(n).drop_last() =~= Seq::<char>::empty());
        assert(digits_value(Seq::<char>::empty()) == 0);
    } else {
        lemma_decimal(n / 10);
        assert(decimal(n).drop_last() =~= decimal(n / 10));
    }
}

/// Reading a number back gives the number that was written.
pub proof fn decimal_reads_back(n: nat, max: nat)
    requires
        n <= max,
    ensures
        parse_unsigned(decimal(n), max) == Some(n),
        all_digits(decimal(n)),
        decimal(n).len() > 0,
{
    lemma_decimal(n);
    assert(is_digit(decimal(n)[0]));
}

/// Reading an integer back gives the integer that was written.
pub proof fn decimal_int_reads_back(n: int, max: nat)
    requires
        -(max + 1) <= n <= max,
    ensures
        parse_signed(decimal_int(n), max) == Some(n),
{
    if n < 0 {
        lemma_decimal((-n) as nat);
        assert(decimal_int(n).skip(1) =~= decimal((-n) as nat));
    } else {
        decimal_reads_back(n as nat, max);
        assert(is_digit(decimal(n as nat)[0]));
    }
}

/// A number in decimal.
pub fn decimal_text(n: u64) -> (r: String)
    ensures
        r@ == decimal(n as nat),
    decreases n,
{
    let last: u32 = (n % 10) as u32;
    let c = digit_char(last);
    if n < 10 {
        let mut out = String::new();
        out.push(c);
        assert(out@ =~= decimal(n as nat));
        out
    } else {
        let mut out = decimal_text(n / 10);
        out.push(c);
        out
    }
}

fn digit_char(d: u32) -> (c: char)
    requires
        d < 10,
    ensures
        c == digit(d as nat),
{
    match d {
        0 => '0',
        1 => '1',
        2 => '2',
        3 => '3',
        4 => '4',
        5 => '5',
        6 => '6',
        7 => '7',
        8 => '8',
        _ => '9',
    }
}

/// A signed number in decimal.
pub fn decimal_int_text(n: i32) -> (r: String)
    ensures
        r@ == decimal_int(n as int),
{
    if n < 0 {
        let mut out = String::new();
        out.push('-');
        let size: i64 = -(n as i64);
        let rest = decimal_text(size as u64);
        out.append(rest.as_str());
        assert(out@ =~= decimal_int(n as int));
        out
    } else {
        decimal_text(n as u64)
    }
}

proof fn lemma_digits_value_grows(s: Seq<char>, n: int)
    requires
        0 <= n <= s.len(),
        all_digits(s),
    ensures
        digits_value(s.take(n)) <= digits_value(s),
    decreases s.len() - n,
{
    if n < s.len() {
        assert(s.take(n + 1).drop_last() =~= s.take(n));
        assert(is_digit(s.take(n + 1).last()));
        lemma_digits_value_grows(s, n + 1);
    } else {
        assert(s.take(n) =~= s);
    }
}

/// The value of the digits from `from` on, if they are digits and it is at most `max`.
fn read_digits(chars: &Vec<char>, from: usize, max: u128) -> (r: Option<u128>)
    requires
        from <= chars@.len(),
        max <= 0x1_0000_0000_0000_0000,
    ensures
        match r {
            Some(n) => parse_digits(chars@.skip(from as int), max as nat) == Some(n as nat),
            None => parse_digits(chars@.skip(from as int), max as nat) is None,
        },
{
    let ghost s = chars@.skip(from as int);
    if from == chars.len() {
        return None;
    }
    let mut total: u128 = 0;
    let mut i: usize = from;
    while i < chars.len()
        invariant
            from <= i <= chars@.len(),
            s == chars@.skip(from as int),
            total <= max <= 0x1_0000_0000_0000_0000,
            total == digits_value(s.take(i - from)),
            forall|j: int| 0 <= j < i - from ==> is_digit(#[trigger] s[j]),
        decreases chars@.len() - i,
    {
        let c = chars[i];
        proof {
            assert(s[i - from] == c);
            assert(s.take(i - from + 1).drop_last() =~= s.take(i - from));
            assert(s.take(i - from + 1).last() == c);
        }
        if !('0' <= c && c <= '9') {
            proof {
                assert(!is_digit(s[i - from]));
            }
            return None;
        }
        let next: u128 = total * 10 + (c as u32 - '0' as u32) as u128;
        if next > max {
            proof {
                if all_digits(s) {
                    lemma_digits_value_grows(s, i - from + 1);
                }
            }
            return None;
        }
        total = next;
        i = i + 1;
    }
    assert(s.take(i - from) =~= s);
    Some(total)
}

/// Read a `usize`: digits, with an optional `+` in front.
pub fn read_usize(s: &str) -> (r: Option<usize>)
    ensures
        match r {
            Some(n) => parse_unsigned(s@, usize::MAX as nat) == Some(n as nat),
            None => parse_unsigned(s@, usize::MAX as nat) is None,
        },
{
    let chars = chars_of(s);
    let from: usize = if chars.len() > 0 && chars[0] == '+' {
        1
    } else {
        0
    };
    proof {
        assert(chars@.skip(0) =~= chars@);
    }
    match read_digits(&chars, from, usize::MAX as u128) {
        Some(n) => Some(n as usize),
        None => None,
    }
}

/// Read an `i32`: digits, with an optional sign in front.
pub fn read_i32(s: &str) -> (r: Option<i32>)
    ensures
        match r {
            Some(n) => parse_signed(s@, i32::MAX as nat) == Some(n as int),
            None => parse_signed(s@, i32::MAX as nat) is None,
        },
{
    let chars = chars_of(s);
    proof {
        assert(chars@.skip(0) =~= chars@);
    }
    if chars.len() > 0 && chars[0] == '-' {
        match read_digits(&chars, 1, 0x8000_0000) {
            Some(n) => {
                let size: i64 = n as i64;
                let value: i64 = -size;
                Some(value as i32)
            },
            None => None,
        }
    } else {
        let from: usize = if chars.len() > 0 && chars[0] == '+' {
            1
        } else {
            0
        };
        match read_digits(&chars, from, 0x7fff_ffff) {
            Some(n) => Some(n as i32),
            None => None,
        }
    }
}

} // verus!
