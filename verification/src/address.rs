//! Account addresses as text.
use cita_types::clean_0x;
use std::str::FromStr;
use vstd::prelude::*;
use vstd::utf8::{decode_utf8, valid_utf8};

verus! {

/// `text` without the `0x` that it may start with.
pub open spec fn without_0x(text: Seq<char>) -> Seq<char> {
    if text.len() >= 2 && text[0] == '0' && text[1] == 'x' {
        text.skip(2)
    } else {
        text
    }
}

/// `clean_0x` of cita-types: the text without one leading `0x`.
pub assume_specification[ clean_0x ](s: &str) -> (r: &str)
    ensures
        r@ == without_0x(s@),
;

/// The value of a hexadecimal digit.
pub open spec fn hex_digit(c: char) -> Option<nat> {
    if '0' <= c && c <= '9' {
        Some((c as nat - '0' as nat) as nat)
    } else if 'a' <= c && c <= 'f' {
        Some((c as nat - 'a' as nat + 10) as nat)
    } else if 'A' <= c && c <= 'F' {
        Some((c as nat - 'A' as nat + 10) as nat)
    } else {
        None
    }
}

/// The characters that may stand anywhere between hexadecimal digits.
pub open spec fn is_blank(c: char) -> bool {
    c == ' ' || c == '\r' || c == '\n' || c == '\t'
}

/// The twenty bytes that `text` spells: after a leading `0x`, which may be
/// missing, it has forty hexadecimal digits and blanks, and nothing else.
pub open spec fn hex_bytes(text: Seq<char>) -> Option<Seq<u8>> {
    let digits = without_0x(text).filter(|c: char| !is_blank(c));
    if digits.len() == 40 && forall|i: int|
        0 <= i < 40 ==> hex_digit(#[trigger] digits[i]) is Some {
        Some(
            Seq::new(
                20,
                |i: int|
                    (hex_digit(digits[2 * i])->0 * 16 + hex_digit(digits[2 * i + 1])->0) as u8,
            ),
        )
    } else {
        None
    }
}

/// `Address::from_str` of cita-types (the hash type of fixed-hash): the bytes
/// that the text spells, or nothing where it spells no address.
#[verifier::external_body]
pub(crate) fn parse_hex(text: &str) -> (r: Option<Vec<u8>>)
    ensures
        match r {
            Some(bytes) => hex_bytes(text@) == Some(bytes@),
            None => hex_bytes(text@) is None,
        },
{
    cita_types::Address::from_str(text).ok().map(|a| a.as_bytes().to_vec())
}

/// `std::str::from_utf8`: the text that the bytes encode, or nothing where
/// they are not UTF-8.
#[verifier::external_body]
pub(crate) fn utf8_text(bytes: &Vec<u8>) -> (r: Option<String>)
    ensures
        match r {
            Some(text) => valid_utf8(bytes@) && text@ == decode_utf8(bytes@),
            None => !valid_utf8(bytes@),
        },
{
    std::str::from_utf8(bytes).ok().map(|text| text.to_owned())
}

} // verus!
