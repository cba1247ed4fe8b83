use vstd::prelude::*;

use crate::protocol::extended_command::chars_of;

verus! {

/// The value of a hexadecimal digit, in either case.
pub open spec fn hex_digit(c: char) -> Option<nat> {
    if '0' <= c <= '9' {
        Some((c as int - '0' as int) as nat)
    } else if 'a' <= c <= 'f' {
        Some((c as int - 'a' as int + 10) as nat)
    } else if 'A' <= c <= 'F' {
        Some((c as int - 'A' as int + 10) as nat)
    } else {
        None
    }
}

/// Every character of `s` is a hexadecimal digit.
pub open spec fn all_hex_digits(s: Seq<char>) -> bool {
    forall|i: int| 0 <= i < s.len() ==> (#[trigger] hex_digit(s[i])) is Some
}

/// The number that the hexadecimal digits `s` write, most significant first.
pub open spec fn hex_value(s: Seq<char>) -> nat
    decreases s.len(),
{
    if s.len() == 0 {
        0
    } else {
        hex_value(s.drop_last()) * 16 + hex_digit(s.last()).unwrap_or(0)
    }
}

/// The digits of a byte written in hexadecimal: all of `s`, or what follows
/// a leading `+`.
pub open spec fn hex_byte_digits(s: Seq<char>) -> Seq<char> {
    if s.len() > 0 && s[0] == '+' {
        s.drop_first()
    } else {
        s
    }
}

/// The byte that `s` writes in hexadecimal: an optional `+`, then at least
/// one hexadecimal digit, with a value of at most 255. `None` for any other
/// string.
pub open spec fn spec_parse_hex_byte(s: Seq<char>) -> Option<u8> {
    let digits = hex_byte_digits(s);
    if digits.len() > 0 && all_hex_digits(digits) && hex_value(digits) <= 255 {
        Some(hex_value(digits) as u8)
    } else {
        None
    }
}

/// A prefix of hexadecimal digits writes no larger a number than the whole.
proof fn lemma_hex_value_prefix(s: Seq<char>, k: int)
    requires
        0 <= k <= s.len(),
    ensures
        hex_value(s.take(k)) <= hex_value(s),
    decreases s.len(),
{
    if k < s.len() {
        lemma_hex_value_prefix(s.drop_last(), k);
        assert(s.drop_last().take(k) =~= s.take(k));
    } else {
        assert(s.take(k) =~= s);
    }
}

/// The value of a hexadecimal digit character.
fn hex_digit_value(c: char) -> (d: Option<u8>)
    ensures
        match d {
            Some(v) => hex_digit(c) == Some(v as nat),
            None => hex_digit(c) is None,
        },
{
    if '0' <= c && c <= '9' {
        Some((c as u32 - '0' as u32) as u8)
    } else if 'a' <= c && c <= 'f' {
        Some((c as u32 - 'a' as u32 + 10) as u8)
    } else if 'A' <= c && c <= 'F' {
        Some((c as u32 - 'A' as u32 + 10) as u8)
    } else {
        None
    }
}

/// Reads a byte written in hexadecimal, as the `Raw` display mode takes
/// its payload: an optional `+`, then digits in either case.
pub fn parse_hex_byte(s: &str) -> (r: Option<u8>)
    ensures
        r == spec_parse_hex_byte(s@),
{
    let chars = chars_of(s);
    let start: usize = if chars.len() > 0 && chars[0] == '+' { 1 } else { 0 };
    let ghost digits = hex_byte_digits(s@);
    assert(digits =~= chars@.subrange(start as int, chars@.len() as int));
    if chars.len() == start {
        return None;
    }
    let n = chars.len();
    let mut value: u32 = 0;
    let mut i: usize = start;
    while i < n
        invariant
            chars@ == s@,
            n == chars@.len(),
            start <= i <= n,
            digits == hex_byte_digits(s@),
            digits == chars@.subrange(start as int, n as int),
            all_hex_digits(digits.take(i - start)),
            value == hex_value(digits.take(i - start)),
            value <= 255,
        decreases n - i,
    {
        let ghost k: int = i - start;
        assert(digits.take(k + 1).drop_last() =~= digits.take(k));
        match hex_digit_value(chars[i]) {
            None => {
                assert(hex_digit(digits[k]) is None);
                return None;
            },
            Some(d) => {
                let next: u32 = value * 16 + d as u32;
                assert(next == hex_value(digits.take(k + 1)));
                if next > 255 {
                    proof {
                        if all_hex_digits(digits) {
                            lemma_hex_value_prefix(digits, k + 1);
                        }
                    }
                    return None;
                }
                value = next;
                i = i + 1;
            },
        }
    }
    assert(digits.take(n - start) =~= digits);
    Some(value as u8)
}

/// Reads the bytes of a `Raw` display mode payload, one hexadecimal word
/// per byte. `Err(i)` names the first word that is no byte.
pub fn parse_hex_payload(words: &[String]) -> (r: Result<Vec<u8>, usize>)
    ensures
        match r {
            Ok(bytes) => {
                &&& bytes@.len() == words@.len()
                &&& forall|i: int|
                    0 <= i < words@.len() ==> spec_parse_hex_byte(#[trigger] words@[i]@) == Some(
                        bytes@[i],
                    )
            },
            Err(i) => {
                &&& i < words@.len()
                &&& spec_parse_hex_byte(words@[i as int]@) is None
                &&& forall|j: int| 0 <= j < i ==> (#[trigger] spec_parse_hex_byte(words@[j]@)) is Some
            },
        },
{
    let mut bytes: Vec<u8> = Vec::new();
    let n = words.len();
    let mut i: usize = 0;
    while i < n
        invariant
            n == words@.len(),
            i <= n,
            bytes@.len() == i,
            forall|j: int| 0 <= j < i ==> spec_parse_hex_byte(#[trigger] words@[j]@) == Some(bytes@[j]),
        decreases n - i,
    {
        match parse_hex_byte(words[i].as_str()) {
            Some(b) => {
                bytes.push(b);
            },
            None => {
                return Err(i);
            },
        }
        i = i + 1;
    }
    Ok(bytes)
}

} // verus!
