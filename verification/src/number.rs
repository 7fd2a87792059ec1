//! Reading numbers from text.
use crate::text::{
    all_digits, digit_value, digits_value, lemma_radix_text_value, radix_text,
};
use vstd::prelude::*;
use vstd::string::StrSliceExecFns;

verus! {

/// Why a text is no number.
#[derive(Debug, Clone, Copy, PartialEq, Eq, Structural)]
pub enum NumberDefect {
    Empty,
    InvalidDigit,
    TooLarge,
}

impl NumberDefect {
    pub open spec fn text(self) -> Seq<char> {
        match self {
            NumberDefect::Empty => "cannot parse integer from empty string"@,
            NumberDefect::InvalidDigit => "invalid digit found in string"@,
            NumberDefect::TooLarge => "number too large to fit in target type"@,
        }
    }

    /// What is wrong with the text.
    pub fn to_text(self) -> (s: &'static str)
        ensures
            s@ == self.text(),
    {
        match self {
            NumberDefect::Empty => "cannot parse integer from empty string",
            NumberDefect::InvalidDigit => "invalid digit found in string",
            NumberDefect::TooLarge => "number too large to fit in target type",
        }
    }
}

/// The value of a digit in a base.
pub open spec fn digit_in(c: char, base: nat) -> Option<nat> {
    match digit_value(c) {
        Some(x) => if x < base {
            Some(x)
        } else {
            None
        },
        None => None,
    }
}

/// The number that digits spell from left to right, or what is wrong with the
/// first that cannot be taken.
pub open spec fn scanned(d: Seq<char>, base: nat, max: nat) -> Result<nat, NumberDefect>
    decreases d.len(),
{
    if d.len() == 0 {
        Ok(0)
    } else {
        match scanned(d.drop_last(), base, max) {
            Err(e) => Err(e),
            Ok(v) => match digit_in(d.last(), base) {
                None => Err(NumberDefect::InvalidDigit),
                Some(x) => if v * base + x > max {
                    Err(NumberDefect::TooLarge)
                } else {
                    Ok(v * base + x)
                },
            },
        }
    }
}

/// The number up to a bound that a text spells; a plus sign may stand before it.
pub open spec fn number_in(s: Seq<char>, base: nat, max: nat) -> Result<nat, NumberDefect> {
    if s.len() == 0 {
        Err(NumberDefect::Empty)
    } else if s[0] == '+' && s.len() > 1 {
        scanned(s.skip(1), base, max)
    } else {
        scanned(s, base, max)
    }
}

fn digit(c: char, base: u128) -> (r: Option<u128>)
    ensures
        match r {
            Some(d) => digit_in(c, base as nat) == Some(d as nat),
            None => digit_in(c, base as nat) is None,
        },
{
    let value: u128 = if '0' <= c && c <= '9' {
        (c as u128) - 48
    } else if 'a' <= c && c <= 'f' {
        (c as u128) - 87
    } else if 'A' <= c && c <= 'F' {
        (c as u128) - 55
    } else {
        return None;
    };
    if value < base {
        Some(value)
    } else {
        None
    }
}

proof fn lemma_scan_fails(d: Seq<char>, base: nat, max: nat, n: int)
    requires
        0 <= n <= d.len(),
        scanned(d.take(n), base, max) is Err,
    ensures
        scanned(d, base, max) == scanned(d.take(n), base, max),
    decreases d.len() - n,
{
    if n == d.len() {
        assert(d.take(n) =~= d);
    } else {
        assert(d.take(n + 1).drop_last() =~= d.take(n));
        lemma_scan_fails(d, base, max, n + 1);
    }
}

fn scan_from(s: &str, from: usize, base: u128, max: u128) -> (r: Result<u128, NumberDefect>)
    requires
        from <= s@.len(),
    ensures
        match (r, scanned(s@.skip(from as int), base as nat, max as nat)) {
            (Ok(a), Ok(b)) => a == b,
            (Err(e), Err(f)) => e == f,
            _ => false,
        },
{
    let len: usize = s.unicode_len();
    let ghost d = s@.skip(from as int);
    let ghost b = base as nat;
    let ghost m = max as nat;
    let mut value: u128 = 0;
    let mut i: usize = from;
    assert(d.take(0) =~= Seq::<char>::empty());
    while i < len
        invariant
            from <= i <= len,
            len == s@.len(),
            d == s@.skip(from as int),
            b == base as nat,
            m == max as nat,
            scanned(d.take(i - from), b, m) == Ok::<nat, NumberDefect>(value as nat),
        decreases len - i,
    {
        let c: char = s.get_char(i);
        proof {
            assert(d.take(i + 1 - from).drop_last() =~= d.take(i - from));
            assert(d.take(i + 1 - from).last() == c);
        }
        match digit(c, base) {
            None => {
                proof {
                    lemma_scan_fails(d, b, m, i + 1 - from);
                }
                return Err(NumberDefect::InvalidDigit);
            },
            Some(x) => {
                let next: Option<u128> = match value.checked_mul(base) {
                    Some(v) => v.checked_add(x),
                    None => None,
                };
                match next {
                    Some(v) if v <= max => {
                        value = v;
                    },
                    _ => {
                        proof {
                            lemma_scan_fails(d, b, m, i + 1 - from);
                        }
                        return Err(NumberDefect::TooLarge);
                    },
                }
            },
        }
        i += 1;
    }
    assert(d.take(i - from) =~= d);
    Ok(value)
}

/// Read the number that the rest of a text spells.
pub fn parse_number(s: &str, from: usize, base: u128, max: u128) -> (r: Result<u128, NumberDefect>)
    requires
        from <= s@.len(),
    ensures
        match (r, number_in(s@.skip(from as int), base as nat, max as nat)) {
            (Ok(a), Ok(b)) => a == b,
            (Err(e), Err(f)) => e == f,
            _ => false,
        },
{
    let len: usize = s.unicode_len();
    if from == len {
        return Err(NumberDefect::Empty);
    }
    if s.get_char(from) == '+' && len - from > 1 {
        assert(s@.skip(from as int).skip(1) =~= s@.skip(from + 1));
        scan_from(s, from + 1, base, max)
    } else {
        scan_from(s, from, base, max)
    }
}

/// A number that was read is within the bound.
pub proof fn lemma_number_bound(s: Seq<char>, base: nat, max: nat)
    ensures
        number_in(s, base, max) matches Ok(n) ==> n <= max,
{
    lemma_scan_bound(s, base, max);
    if s.len() > 0 {
        lemma_scan_bound(s.skip(1), base, max);
    }
}

proof fn lemma_scan_bound(d: Seq<char>, base: nat, max: nat)
    ensures
        scanned(d, base, max) matches Ok(n) ==> n <= max,
    decreases d.len(),
{
    if d.len() > 0 {
        lemma_scan_bound(d.drop_last(), base, max);
    }
}

proof fn lemma_scan_value(d: Seq<char>, base: nat, max: nat)
    requires
        all_digits(d, base),
        digits_value(d, base) <= max,
        base > 0,
    ensures
        scanned(d, base, max) == Ok::<nat, NumberDefect>(digits_value(d, base)),
    decreases d.len(),
{
    if d.len() > 0 {
        let head = d.drop_last();
        assert(all_digits(head, base)) by {
            assert forall|i: int| 0 <= i < head.len() implies (#[trigger] digit_value(
                head[i],
            ) matches Some(x) && x < base) by {
                assert(digit_value(d[i]) matches Some(x) && x < base);
            }
        }
        assert(digit_value(d[d.len() - 1]) is Some);
        let v = digits_value(head, base);
        assert(v <= v * base) by (nonlinear_arith)
            requires
                base > 0,
        ;
        lemma_scan_value(head, base, max);
    }
}

/// A number is read back from what it is written as.
pub proof fn law_number_round_trip(n: nat, base: nat, max: nat)
    requires
        2 <= base <= 16,
        n <= max,
    ensures
        number_in(radix_text(n, base), base, max) == Ok::<nat, NumberDefect>(n),
{
    let t = radix_text(n, base);
    lemma_radix_text_value(n, base);
    assert(t[0] != '+') by {
        assert(digit_value(t[0]) is Some);
    }
    lemma_scan_value(t, base, max);
}

/// What is read as a number is one or more digits of its base, after an optional plus
/// sign, whose value is within the bound; a number that is read is that value.
pub proof fn law_numbers_are_read(s: Seq<char>, base: nat, max: nat)
    requires
        base > 0,
    ensures
        ({
            let d = if s.len() > 1 && s[0] == '+' {
                s.skip(1)
            } else {
                s
            };
            &&& number_in(s, base, max) is Ok <==> s.len() > 0 && all_digits(d, base)
                && digits_value(d, base) <= max
            &&& number_in(s, base, max) matches Ok(n) ==> n == digits_value(d, base)
            &&& number_in(s, base, max) == Err::<nat, NumberDefect>(NumberDefect::Empty) <==> s.len()
                == 0
        }),
{
    let d = if s.len() > 1 && s[0] == '+' {
        s.skip(1)
    } else {
        s
    };
    lemma_scan_reads(d, base, max);
    if all_digits(d, base) && digits_value(d, base) <= max {
        lemma_scan_value(d, base, max);
    }
}

proof fn lemma_scan_reads(d: Seq<char>, base: nat, max: nat)
    ensures
        scanned(d, base, max) matches Ok(n) ==> all_digits(d, base) && n == digits_value(d, base)
            && (d.len() > 0 ==> n <= max),
        scanned(d, base, max) matches Err(e) ==> e != NumberDefect::Empty,
    decreases d.len(),
{
    if d.len() > 0 {
        let head = d.drop_last();
        lemma_scan_reads(head, base, max);
        if scanned(d, base, max) is Ok {
            assert forall|i: int| 0 <= i < d.len() implies (#[trigger] digit_value(
                d[i],
            ) matches Some(x) && x < base) by {
                if i < head.len() {
                    assert(digit_value(head[i]) matches Some(x) && x < base);
                }
            }
        }
    }
}

} // verus!
