//! Rendering and reading numbers as text, and byte-wise text equality.
use vstd::prelude::*;

verus! {

/// The character for digit value `d`, lower case above nine.
pub open spec fn digit_char(d: nat) -> char {
    if d < 10 {
        (48 + d) as char
    } else {
        (87 + d) as char
    }
}

/// `n` written in `base` with no leading zeros.
pub open spec fn radix_text(n: nat, base: nat) -> Seq<char>
    decreases n,
{
    if base < 2 || n < base {
        seq![digit_char(n)]
    } else {
        proof {
            assert(n / base < n) by (nonlinear_arith)
                requires
                    2 <= base <= n,
            ;
        }
        radix_text(n / base, base).push(digit_char(n % base))
    }
}

/// `n` in decimal.
pub open spec fn decimal(n: nat) -> Seq<char> {
    radix_text(n, 10)
}

/// `n` in hexadecimal with the customary prefix.
pub open spec fn hex(n: nat) -> Seq<char> {
    "0x"@ + radix_text(n, 16)
}

fn digit_text(d: u128) -> (s: &'static str)
    requires
        d < 16,
    ensures
        s@ == seq![digit_char(d as nat)],
{
    proof {
        reveal_strlit("0");
        reveal_strlit("1");
        reveal_strlit("2");
        reveal_strlit("3");
        reveal_strlit("4");
        reveal_strlit("5");
        reveal_strlit("6");
        reveal_strlit("7");
        reveal_strlit("8");
        reveal_strlit("9");
        reveal_strlit("a");
        reveal_strlit("b");
        reveal_strlit("c");
        reveal_strlit("d");
        reveal_strlit("e");
        reveal_strlit("f");
    }
    if d == 0 {
        "0"
    } else if d == 1 {
        "1"
    } else if d == 2 {
        "2"
    } else if d == 3 {
        "3"
    } else if d == 4 {
        "4"
    } else if d == 5 {
        "5"
    } else if d == 6 {
        "6"
    } else if d == 7 {
        "7"
    } else if d == 8 {
        "8"
    } else if d == 9 {
        "9"
    } else if d == 10 {
        "a"
    } else if d == 11 {
        "b"
    } else if d == 12 {
        "c"
    } else if d == 13 {
        "d"
    } else if d == 14 {
        "e"
    } else {
        "f"
    }
}

/// Write `n` in `base`.
pub fn to_radix(n: u128, base: u128) -> (s: String)
    requires
        2 <= base <= 16,
    ensures
        s@ == radix_text(n as nat, base as nat),
    decreases n,
{
    if n < base {
        digit_text(n).to_owned()
    } else {
        proof {
            assert(n / base < n) by (nonlinear_arith)
                requires
                    2 <= base <= n,
            ;
        }
        let mut s = to_radix(n / base, base);
        proof {
            assert(n % base < base) by (nonlinear_arith)
                requires
                    2 <= base,
            ;
        }
        s.append(digit_text(n % base));
        assert(s@ =~= radix_text(n as nat, base as nat));
        s
    }
}

/// Write `n` in decimal.
pub fn to_decimal(n: u128) -> (s: String)
    ensures
        s@ == decimal(n as nat),
{
    to_radix(n, 10)
}

/// Write `n` in hexadecimal with its prefix.
pub fn to_hex(n: u128) -> (s: String)
    ensures
        s@ == hex(n as nat),
{
    let mut s = "0x".to_owned();
    s.append(to_radix(n, 16).as_str());
    s
}

/// Whether a string is a given text.
pub fn is_text(s: &String, text: &str) -> (same: bool)
    ensures
        same == (s@ == text@),
{
    *s == text.to_owned()
}

/// Whether a switch that is on by default stays on: only an explicit no turns it
/// off.
pub fn on_by_default(flag: Option<&String>) -> (on: bool)
    ensures
        on == !(flag matches Some(t) && (t@ == "0"@ || t@ == "false"@ || t@ == "off"@)),
{
    match flag {
        Some(t) => !(is_text(t, "0") || is_text(t, "false") || is_text(t, "off")),
        None => true,
    }
}

/// Whether a switch that is off by default is turned on.
pub fn off_by_default(flag: Option<&String>) -> (on: bool)
    ensures
        on == (flag matches Some(t) && (t@ == "1"@ || t@ == "true"@ || t@ == "on"@)),
{
    match flag {
        Some(t) => is_text(t, "1") || is_text(t, "true") || is_text(t, "on"),
        None => false,
    }
}

/// A string literal followed by a string.
pub fn prefixed(prefix: &str, rest: &str) -> (s: String)
    ensures
        s@ == prefix@ + rest@,
{
    let mut s = prefix.to_owned();
    s.append(rest);
    s
}

/// A string in the form in which `str`'s `Debug` shows it.
pub uninterp spec fn quoted_of(text: Seq<char>) -> Seq<char>;

/// Calls `format!` with the `Debug` form of a `str`: the text in quotes, with the
/// characters escaped that cannot stand there plainly. The contract names the
/// result and says nothing of which characters are escaped, or how.
#[verifier::external_body]
pub(crate) fn quoted(text: &str) -> (s: String)
    ensures
        s@ == quoted_of(text@),
{
    format!("{:?}", text)
}

/// How an optional number is shown.
pub open spec fn optional(n: Option<u64>) -> Seq<char> {
    match n {
        Some(v) => "Some("@ + decimal(v as nat) + ")"@,
        None => "None"@,
    }
}

/// Write an optional number.
pub fn to_optional(n: Option<u64>) -> (s: String)
    ensures
        s@ == optional(n),
{
    match n {
        Some(v) => {
            let mut s = prefixed("Some(", to_decimal(v as u128).as_str());
            s.append(")");
            s
        },
        None => "None".to_owned(),
    }
}

/// Numbers in decimal, with a comma and a space between them.
pub open spec fn comma_separated(s: Seq<nat>) -> Seq<char>
    decreases s.len(),
{
    if s.len() == 0 {
        Seq::empty()
    } else if s.len() == 1 {
        decimal(s[0])
    } else {
        comma_separated(s.drop_last()) + ", "@ + decimal(s.last())
    }
}

/// A list of numbers as messages show it.
pub open spec fn bracketed(s: Seq<nat>) -> Seq<char> {
    "["@ + comma_separated(s) + "]"@
}

/// The numbers of a list of ids.
pub open spec fn id_numbers(ids: Seq<u64>) -> Seq<nat> {
    ids.map_values(|x: u64| x as nat)
}

/// The numbers of a list of bytes.
pub open spec fn byte_numbers(bytes: Seq<u8>) -> Seq<nat> {
    bytes.map_values(|x: u8| x as nat)
}

/// Write a list of ids.
pub fn to_bracketed(ids: &[u64]) -> (s: String)
    ensures
        s@ == bracketed(id_numbers(ids@)),
{
    let mut s = "[".to_owned();
    let ghost numbers = id_numbers(ids@);
    let mut i: usize = 0;
    assert(numbers.take(0) =~= Seq::<nat>::empty());
    assert(s@ =~= "["@ + comma_separated(numbers.take(0)));
    while i < ids.len()
        invariant
            i <= ids@.len(),
            numbers == id_numbers(ids@),
            s@ == "["@ + comma_separated(numbers.take(i as int)),
        decreases ids@.len() - i,
    {
        let ghost before = s@;
        if i > 0 {
            s.append(", ");
        }
        s.append(to_decimal(ids[i] as u128).as_str());
        proof {
            assert(numbers.take(i + 1).drop_last() =~= numbers.take(i as int));
            assert(numbers.take(i + 1).last() == numbers[i as int]);
            assert(s@ =~= "["@ + comma_separated(numbers.take(i + 1)));
        }
        i += 1;
    }
    assert(numbers.take(i as int) =~= numbers);
    s.append("]");
    s
}

/// Write a list of bytes.
pub fn to_bracketed_bytes(bytes: &[u8]) -> (s: String)
    ensures
        s@ == bracketed(byte_numbers(bytes@)),
{
    let mut wide: Vec<u64> = Vec::new();
    let mut i: usize = 0;
    while i < bytes.len()
        invariant
            i <= bytes@.len(),
            wide@.len() == i,
            forall|k: int| 0 <= k < i ==> #[trigger] wide@[k] == bytes@[k] as u64,
        decreases bytes@.len() - i,
    {
        wide.push(bytes[i] as u64);
        i += 1;
    }
    assert(id_numbers(wide@) =~= byte_numbers(bytes@));
    to_bracketed(&wide)
}

/// The value of a digit character in any base up to sixteen, if it is one.
pub open spec fn digit_value(c: char) -> Option<nat> {
    if '0' <= c <= '9' {
        Some((c as nat - 48) as nat)
    } else if 'a' <= c <= 'f' {
        Some((c as nat - 87) as nat)
    } else if 'A' <= c <= 'F' {
        Some((c as nat - 55) as nat)
    } else {
        None
    }
}

/// Whether every character is a digit of `base`.
pub open spec fn all_digits(s: Seq<char>, base: nat) -> bool {
    forall|i: int| 0 <= i < s.len() ==> (#[trigger] digit_value(s[i]) matches Some(d) && d < base)
}

/// The number that a digit sequence spells in `base`.
pub open spec fn digits_value(s: Seq<char>, base: nat) -> nat
    decreases s.len(),
{
    if s.len() == 0 {
        0
    } else {
        digits_value(s.drop_last(), base) * base + digit_value(s.last()).unwrap_or(0)
    }
}

/// A number's text is made of digits of its base and spells the number.
pub proof fn lemma_radix_text_value(n: nat, base: nat)
    requires
        2 <= base <= 16,
    ensures
        radix_text(n, base).len() > 0,
        all_digits(radix_text(n, base), base),
        digits_value(radix_text(n, base), base) == n,
    decreases n,
{
    let t = radix_text(n, base);
    if n < base {
        assert(t.drop_last() =~= Seq::<char>::empty());
        assert(digit_value(t[0]) == Some(n));
        let head = digits_value(t.drop_last(), base);
        assert(head == 0);
        assert(head * base == 0) by (nonlinear_arith)
            requires
                head == 0,
        ;
    } else {
        assert(n / base < n) by (nonlinear_arith)
            requires
                2 <= base <= n,
        ;
        lemma_radix_text_value(n / base, base);
        assert(t.drop_last() =~= radix_text(n / base, base));
        assert(n % base < base) by (nonlinear_arith)
            requires
                2 <= base,
        ;
        assert(digit_value(t.last()) == Some(n % base));
        assert((n / base) * base + n % base == n) by (nonlinear_arith)
            requires
                2 <= base,
        ;
        assert forall|i: int| 0 <= i < t.len() implies (#[trigger] digit_value(t[i]) matches Some(d)
            && d < base) by {
            if i < t.len() - 1 {
                assert(t[i] == radix_text(n / base, base)[i]);
            }
        }
    }
}

/// Different numbers have different texts.
pub proof fn lemma_radix_text_injective(a: nat, b: nat, base: nat)
    requires
        2 <= base <= 16,
        radix_text(a, base) == radix_text(b, base),
    ensures
        a == b,
{
    lemma_radix_text_value(a, base);
    lemma_radix_text_value(b, base);
}

/// Every character of a number's text is an ASCII digit or letter.
pub proof fn lemma_radix_text_ascii(n: nat, base: nat)
    requires
        2 <= base <= 16,
    ensures
        vstd::utf8::is_ascii_chars(radix_text(n, base)),
{
    lemma_radix_text_value(n, base);
    let t = radix_text(n, base);
    assert forall|i: int| 0 <= i < t.len() implies '\0' <= #[trigger] t[i] <= '\u{7f}' by {
        assert(digit_value(t[i]) is Some);
    }
}

} // verus!
