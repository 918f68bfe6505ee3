//! Generated passwords: random bytes turned into text over a fixed alphabet,
//! and the reading of the length that was asked for.

use aes_gcm::aead::rand_core::RngCore;
use aes_gcm::aead::OsRng;
use vstd::prelude::*;
use vstd::utf8::*;

verus! {

/// The characters that a generated password is made of.
pub const PASSWORD_ALPHABET: &'static str = "ABCDEFGHIJKLMNOPQRSTUVWXYZabcdefghijklmnopqrstuvwxyz0123456789-_";

/// The number of characters in the alphabet. It divides 256, so every
/// character is as likely as any other.
pub const ALPHABET_LEN: usize = 64;

/// The character that stands for a random byte.
pub open spec fn password_char(byte: u8) -> char {
    PASSWORD_ALPHABET@[byte as int % ALPHABET_LEN as int]
}

/// The password that the random bytes `bytes` give: one character each.
pub open spec fn password_text(bytes: Seq<u8>) -> Seq<char> {
    Seq::new(bytes.len(), |i: int| password_char(bytes[i]))
}

/// A generated password is plain ASCII: it takes one byte for each
/// character.
pub proof fn lemma_password_text_is_ascii(bytes: Seq<u8>)
    ensures
        is_ascii_chars(password_text(bytes)),
        encode_utf8(password_text(bytes)).len() == bytes.len(),
{
    reveal_strlit("ABCDEFGHIJKLMNOPQRSTUVWXYZabcdefghijklmnopqrstuvwxyz0123456789-_");
    let text = password_text(bytes);
    assert forall|i: int| 0 <= i < text.len() implies '\0' <= #[trigger] text[i] <= '\u{7f}' by {
        let at = bytes[i] as int % ALPHABET_LEN as int;
        assert(text[i] == PASSWORD_ALPHABET@[at]);
    }
    is_ascii_chars_encode_utf8(text);
}

/// `OsRng.fill_bytes` over a buffer of `count` bytes. Nothing is promised of
/// the bytes but their number; the call stops the program where the system
/// has no random source to offer.
#[verifier::external_body]
fn random_bytes(count: usize) -> (bytes: Vec<u8>)
    ensures
        bytes@.len() == count,
{
    let mut bytes: Vec<u8> = vec![0u8; count];
    OsRng.fill_bytes(&mut bytes);
    bytes
}

/// Turns random bytes into a password, one character of the alphabet for
/// each byte.
pub fn password_from_bytes(bytes: &[u8]) -> (password: String)
    ensures
        password@ == password_text(bytes@),
        encode_utf8(password@).len() == bytes@.len(),
{
    proof {
        reveal_strlit("ABCDEFGHIJKLMNOPQRSTUVWXYZabcdefghijklmnopqrstuvwxyz0123456789-_");
        lemma_password_text_is_ascii(bytes@);
    }
    let mut password: String = String::new();
    let mut i: usize = 0;
    while i < bytes.len()
        invariant
            i <= bytes.len(),
            PASSWORD_ALPHABET@.len() == ALPHABET_LEN,
            password@ == password_text(bytes@.subrange(0, i as int)),
        decreases bytes.len() - i,
    {
        let at: usize = (bytes[i] % 64) as usize;
        password.append(PASSWORD_ALPHABET.substring_char(at, at + 1));
        assert(password@ =~= password_text(bytes@.subrange(0, i + 1)));
        i += 1;
    }
    assert(bytes@.subrange(0, i as int) =~= bytes@);
    password
}

/// A random password of `length` characters, each from the alphabet.
pub fn generate_password(length: usize) -> (password: String)
    ensures
        password@.len() == length,
        encode_utf8(password@).len() == length,
        exists|bytes: Seq<u8>| bytes.len() == length && password@ == #[trigger] password_text(bytes),
{
    let bytes: Vec<u8> = random_bytes(length);
    password_from_bytes(bytes.as_slice())
}

/// The largest length that can be asked for.
pub const MAX_LENGTH: usize = 2147483647;

/// The value of a decimal digit; `-1` for any other character.
pub open spec fn digit_value(c: char) -> int {
    if '0' <= c && c <= '9' {
        c as int - '0' as int
    } else {
        -1
    }
}

/// The number that a run of decimal digits writes.
pub open spec fn decimal_value(digits: Seq<char>) -> int
    decreases digits.len(),
{
    if digits.len() == 0 {
        0
    } else {
        10 * decimal_value(digits.drop_last()) + digit_value(digits.last())
    }
}

/// Whether `digits` is one decimal digit or more, and nothing else.
pub open spec fn is_decimal(digits: Seq<char>) -> bool {
    &&& digits.len() > 0
    &&& forall|i: int| 0 <= i < digits.len() ==> digit_value(#[trigger] digits[i]) >= 0
}

/// The text without the plus sign that may lead it.
pub open spec fn unsigned_part(text: Seq<char>) -> Seq<char> {
    if text.len() > 0 && text[0] == '+' {
        text.drop_first()
    } else {
        text
    }
}

/// The length that `text` asks for: decimal digits, after a plus sign or
/// none, that write a number up to `MAX_LENGTH`. Any other text asks for
/// nothing.
pub open spec fn length_asked(text: Seq<char>) -> Option<int> {
    if is_decimal(unsigned_part(text)) && decimal_value(unsigned_part(text)) <= MAX_LENGTH {
        Some(decimal_value(unsigned_part(text)))
    } else {
        None
    }
}

/// A longer run of digits does not write a smaller number.
pub proof fn lemma_decimal_value_grows(digits: Seq<char>, k: int)
    requires
        0 <= k <= digits.len(),
        forall|i: int| 0 <= i < digits.len() ==> digit_value(#[trigger] digits[i]) >= 0,
    ensures
        0 <= decimal_value(digits.subrange(0, k)) <= decimal_value(digits),
    decreases digits.len() - k,
{
    if k == digits.len() {
        assert(digits.subrange(0, k) =~= digits);
        lemma_decimal_value_nonnegative(digits);
    } else {
        let longer = digits.subrange(0, k + 1);
        assert(longer.drop_last() =~= digits.subrange(0, k));
        assert(longer.last() == digits[k]);
        lemma_decimal_value_nonnegative(digits.subrange(0, k));
        lemma_decimal_value_grows(digits, k + 1);
    }
}

/// A run of digits writes no negative number.
pub proof fn lemma_decimal_value_nonnegative(digits: Seq<char>)
    requires
        forall|i: int| 0 <= i < digits.len() ==> digit_value(#[trigger] digits[i]) >= 0,
    ensures
        0 <= decimal_value(digits),
    decreases digits.len(),
{
    if digits.len() > 0 {
        assert(digit_value(digits[digits.len() - 1]) >= 0);
        lemma_decimal_value_nonnegative(digits.drop_last());
    }
}

/// Reads the length that was typed.
pub fn parse_length(text: &str) -> (length: Option<usize>)
    ensures
        length is Some <==> length_asked(text@) is Some,
        length matches Some(n) ==> length_asked(text@) == Some(n as int),
{
    let count: usize = text.unicode_len();
    let start: usize = if count > 0 && text.get_char(0) == '+' { 1 } else { 0 };
    let ghost digits = unsigned_part(text@);
    assert(digits =~= text@.subrange(start as int, count as int));
    if start == count {
        return None;
    }
    let mut value: usize = 0;
    let mut i: usize = start;
    while i < count
        invariant
            start <= i <= count,
            count == text@.len(),
            digits == text@.subrange(start as int, count as int),
            digits == unsigned_part(text@),
            value == decimal_value(digits.subrange(0, i - start)),
            value <= MAX_LENGTH,
            forall|k: int| 0 <= k < i - start ==> digit_value(#[trigger] digits[k]) >= 0,
        decreases count - i,
    {
        let c: char = text.get_char(i);
        assert(c == digits[i - start]);
        if c < '0' || c > '9' {
            assert(digit_value(digits[i - start]) < 0);
            return None;
        }
        let digit: usize = (c as u32 - '0' as u32) as usize;
        assert(digits.subrange(0, i + 1 - start).drop_last() =~= digits.subrange(0, i - start));
        assert(digits.subrange(0, i + 1 - start).last() == c);
        if value > (MAX_LENGTH - digit) / 10 {
            proof {
                if is_decimal(digits) {
                    lemma_decimal_value_grows(digits, i + 1 - start);
                }
            }
            return None;
        }
        value = 10 * value + digit;
        i += 1;
    }
    assert(digits.subrange(0, i - start) =~= digits);
    Some(value)
}

} // verus!

