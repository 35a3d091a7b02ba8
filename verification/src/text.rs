//! Searching and reading text.
use vstd::prelude::*;

verus! {

/// `part` stands in `text` at position `at`.
pub open spec fn occurs_at(text: Seq<char>, part: Seq<char>, at: int) -> bool {
    0 <= at && at + part.len() <= text.len() && text.subrange(at, at + part.len()) == part
}

/// `part` stands somewhere in `text`.
pub open spec fn occurs_in(text: Seq<char>, part: Seq<char>) -> bool {
    exists|at: int| #[trigger] occurs_at(text, part, at)
}

/// Returns the characters of a text.
pub fn chars_of(text: &str) -> (chars: Vec<char>)
    ensures
        chars@ == text@,
{
    let mut chars: Vec<char> = Vec::new();
    for c in iter: text.chars()
        invariant
            iter.seq() == text@,
            chars@ == text@.take(iter.index() as int),
    {
        assert(text@.take(chars@.len() as int + 1) =~= text@.take(chars@.len() as int).push(c));
        chars.push(c);
    }
    assert(text@.take(text@.len() as int) =~= text@);
    chars
}

/// Returns true if `part` stands in `text` at position `at`.
fn matches_at(text: &Vec<char>, part: &Vec<char>, at: usize) -> (found: bool)
    requires
        at + part@.len() <= text@.len(),
    ensures
        found == occurs_at(text@, part@, at as int),
{
    let mut k: usize = 0;
    while k < part.len()
        invariant
            k <= part.len(),
            at + part@.len() <= text@.len(),
            at + part.len() <= text.len(),
            forall|j: int| 0 <= j < k ==> text@[at + j] == #[trigger] part@[j],
        decreases part.len() - k,
    {
        if text[at + k] != part[k] {
            assert(text@.subrange(at as int, at + part@.len())[k as int] != part@[k as int]);
            return false;
        }
        k += 1;
    }
    assert(text@.subrange(at as int, at + part@.len()) =~= part@);
    true
}

/// Returns true if `part` stands somewhere in `text`.
pub fn contains(text: &str, part: &str) -> (found: bool)
    ensures
        found == occurs_in(text@, part@),
{
    let all = chars_of(text);
    let wanted = chars_of(part);
    if wanted.len() > all.len() {
        return false;
    }
    let last: usize = all.len() - wanted.len();
    let mut at: usize = 0;
    while at < last
        invariant
            all@ == text@,
            wanted@ == part@,
            last == all@.len() - wanted@.len(),
            at <= last,
            forall|j: int| 0 <= j < at ==> !#[trigger] occurs_at(text@, part@, j),
        decreases last - at,
    {
        if matches_at(&all, &wanted, at) {
            return true;
        }
        at += 1;
    }
    matches_at(&all, &wanted, last)
}

/// Returns true if `text` starts with `part`.
pub fn starts_with(text: &str, part: &str) -> (found: bool)
    ensures
        found == occurs_at(text@, part@, 0),
{
    let all = chars_of(text);
    let wanted = chars_of(part);
    if wanted.len() > all.len() {
        return false;
    }
    matches_at(&all, &wanted, 0)
}

/// The value of a decimal digit.
pub open spec fn digit_of(c: char) -> Option<nat> {
    if '0' <= c <= '9' {
        Some((c as int - '0' as int) as nat)
    } else {
        None
    }
}

/// The number that the digits stand for, if they are digits.
pub open spec fn digits_value(digits: Seq<char>) -> Option<nat>
    decreases digits.len(),
{
    if digits.len() == 0 {
        Some(0)
    } else {
        match (digits_value(digits.drop_last()), digit_of(digits.last())) {
            (Some(value), Some(digit)) => Some(value * 10 + digit),
            _ => None,
        }
    }
}

/// The digits of a number: all of the text, or what follows a plus sign.
pub open spec fn digits_of(text: Seq<char>) -> Seq<char> {
    if text.len() > 0 && text[0] == '+' {
        text.skip(1)
    } else {
        text
    }
}

/// The number that a text stands for. It may have a plus sign, has at least one digit, and is at
/// most the largest of 64 bits.
pub open spec fn number_of(text: Seq<char>) -> Option<u64> {
    let digits = digits_of(text);
    match digits_value(digits) {
        Some(value) => if digits.len() > 0 && value <= u64::MAX {
            Some(value as u64)
        } else {
            None
        },
        None => None,
    }
}

/// If the first digits stand for no number, or for one that is too large, so do all of them.
proof fn lemma_digits_prefix(digits: Seq<char>, n: int)
    requires
        0 <= n <= digits.len(),
        digits_value(digits.take(n)) matches Some(value) ==> value > u64::MAX,
    ensures
        digits_value(digits) matches Some(value) ==> value > u64::MAX,
    decreases digits.len() - n,
{
    if n < digits.len() {
        assert(digits.take(n + 1).drop_last() =~= digits.take(n));
        lemma_digits_prefix(digits, n + 1);
    } else {
        assert(digits.take(n) =~= digits);
    }
}

/// Reads a decimal number.
pub fn parse_number(text: &str) -> (number: Option<u64>)
    ensures
        number == number_of(text@),
{
    let chars = chars_of(text);
    let start: usize = if chars.len() > 0 && chars[0] == '+' {
        1
    } else {
        0
    };
    if start == chars.len() {
        assert(digits_of(chars@).len() == 0);
        return None;
    }
    let ghost digits = digits_of(chars@);
    let mut value: u64 = 0;
    let mut i: usize = start;
    proof {
        assert(digits.take(0) =~= Seq::<char>::empty());
    }
    while i < chars.len()
        invariant
            start <= i <= chars.len(),
            chars@ == text@,
            digits == chars@.skip(start as int),
            digits == digits_of(text@),
            start < chars.len(),
            digits_value(digits.take(i - start)) == Some(value as nat),
        decreases chars.len() - i,
    {
        let c = chars[i];
        proof {
            assert(digits.take(i - start + 1).drop_last() =~= digits.take(i - start));
            assert(digits.take(i - start + 1).last() == c);
        }
        if c < '0' || c > '9' {
            proof {
                lemma_digits_prefix(digits, i - start + 1);
            }
            return None;
        }
        let digit: u64 = (c as u32 - '0' as u32) as u64;
        if value > (u64::MAX - digit) / 10 {
            proof {
                lemma_digits_prefix(digits, i - start + 1);
            }
            return None;
        }
        value = value * 10 + digit;
        i += 1;
    }
    proof {
        assert(digits.take(i - start) =~= digits);
    }
    Some(value)
}

/// The character of a digit below sixteen.
pub open spec fn digit_char(digit: nat) -> char {
    if digit < 10 {
        ('0' as int + digit) as char
    } else {
        ('a' as int + digit - 10) as char
    }
}

/// The decimal digits of a number, without leading zeros.
pub open spec fn decimal_of(number: nat) -> Seq<char>
    decreases number,
{
    if number < 10 {
        seq![digit_char(number)]
    } else {
        decimal_of(number / 10).push(digit_char(number % 10))
    }
}

/// The last `count` hexadecimal digits of a number.
pub open spec fn hex_of(number: nat, count: nat) -> Seq<char>
    decreases count,
{
    if count == 0 {
        Seq::empty()
    } else {
        hex_of(number / 16, (count - 1) as nat).push(digit_char(number % 16))
    }
}

/// The hexadecimal digits of bytes, two for each.
pub open spec fn bytes_hex(bytes: Seq<u8>) -> Seq<char>
    decreases bytes.len(),
{
    if bytes.len() == 0 {
        Seq::empty()
    } else {
        bytes_hex(bytes.drop_last()) + hex_of(bytes.last() as nat, 2)
    }
}

/// Distinct digits have distinct characters.
proof fn lemma_digit_char(a: nat, b: nat)
    requires
        a < 16,
        b < 16,
        digit_char(a) == digit_char(b),
    ensures
        a == b,
{
    assert(digit_char(a) as int == if a < 10 {
        48 + a
    } else {
        87 + a
    });
    assert(digit_char(b) as int == if b < 10 {
        48 + b
    } else {
        87 + b
    });
}

/// Distinct bytes have distinct digits.
proof fn lemma_byte_hex(a: u8, b: u8)
    requires
        hex_of(a as nat, 2) == hex_of(b as nat, 2),
    ensures
        a == b,
{
    reveal_with_fuel(hex_of, 3);
    let digits_a = hex_of(a as nat, 2);
    let digits_b = hex_of(b as nat, 2);
    assert(digits_a[0] == digit_char(a as nat / 16 % 16) && digits_a[1] == digit_char(a as nat % 16));
    assert(digits_b[0] == digit_char(b as nat / 16 % 16) && digits_b[1] == digit_char(b as nat % 16));
    lemma_digit_char(a as nat / 16 % 16, b as nat / 16 % 16);
    lemma_digit_char(a as nat % 16, b as nat % 16);
}

/// There are as many hexadecimal digits as asked for.
proof fn lemma_hex_len(number: nat, count: nat)
    ensures
        hex_of(number, count).len() == count,
    decreases count,
{
    if count > 0 {
        lemma_hex_len(number / 16, (count - 1) as nat);
    }
}

/// Bytes are determined by their hexadecimal digits.
pub proof fn lemma_bytes_hex(a: Seq<u8>, b: Seq<u8>)
    requires
        bytes_hex(a) == bytes_hex(b),
    ensures
        a == b,
    decreases a.len(),
{
    if a.len() == 0 || b.len() == 0 {
        if a.len() > 0 {
            lemma_hex_len(a.last() as nat, 2);
            assert(bytes_hex(a).len() >= 2);
        }
        if b.len() > 0 {
            lemma_hex_len(b.last() as nat, 2);
            assert(bytes_hex(b).len() >= 2);
        }
        assert(a =~= b);
    } else {
        lemma_hex_len(a.last() as nat, 2);
        lemma_hex_len(b.last() as nat, 2);
        let all = bytes_hex(a);
        let n = all.len() - 2;
        assert(all.take(n) =~= bytes_hex(a.drop_last()));
        assert(all.take(n) =~= bytes_hex(b.drop_last()));
        assert(all.skip(n) =~= hex_of(a.last() as nat, 2));
        assert(all.skip(n) =~= hex_of(b.last() as nat, 2));
        lemma_bytes_hex(a.drop_last(), b.drop_last());
        lemma_byte_hex(a.last(), b.last());
        assert(a =~= a.drop_last().push(a.last()));
        assert(b =~= b.drop_last().push(b.last()));
    }
}

/// Returns the text of a digit below sixteen.
fn digit_text(digit: u8) -> (text: &'static str)
    requires
        digit < 16,
    ensures
        text@ == seq![digit_char(digit as nat)],
{
    proof {
        reveal_strlit("0");
        reveal_strlit("1");
        reveal_strlit("2");
        reveal_strlit("3");
        reveal_strlit("4");
        reveal_strlit("5");
        reveal_strlit("6");
        reveal_strlit("7");
        reveal_strlit("8");
        reveal_strlit("9");
        reveal_strlit("a");
        reveal_strlit("b");
        reveal_strlit("c");
        reveal_strlit("d");
        reveal_strlit("e");
        reveal_strlit("f");
    }
    let text = match digit {
        0 => "0",
        1 => "1",
        2 => "2",
        3 => "3",
        4 => "4",
        5 => "5",
        6 => "6",
        7 => "7",
        8 => "8",
        9 => "9",
        10 => "a",
        11 => "b",
        12 => "c",
        13 => "d",
        14 => "e",
        _ => "f",
    };
    assert(text@ =~= seq![digit_char(digit as nat)]);
    text
}

/// Returns the decimal digits of a number.
pub fn decimal(number: u64) -> (text: String)
    ensures
        text@ == decimal_of(number as nat),
    decreases number,
{
    if number < 10 {
        digit_text(number as u8).to_owned()
    } else {
        let text = decimal(number / 10).concat(digit_text((number % 10) as u8));
        assert(text@ =~= decimal_of(number as nat));
        text
    }
}

/// Returns the last `count` hexadecimal digits of a number.
pub fn hex(number: u128, count: usize) -> (text: String)
    ensures
        text@ == hex_of(number as nat, count as nat),
    decreases count,
{
    if count == 0 {
        proof {
            reveal_strlit("");
        }
        let text = "".to_owned();
        assert(text@ =~= Seq::<char>::empty());
        text
    } else {
        let text = hex(number / 16, count - 1).concat(digit_text((number % 16) as u8));
        assert(text@ =~= hex_of(number as nat, count as nat));
        text
    }
}

/// The texts, with a comma between each and the next.
pub open spec fn joined(texts: Seq<Seq<char>>) -> Seq<char>
    decreases texts.len(),
{
    if texts.len() == 0 {
        Seq::empty()
    } else if texts.len() == 1 {
        texts[0]
    } else {
        joined(texts.drop_last()) + ", "@ + texts.last()
    }
}

} // verus!
