//! Declarations and thin wrappers for the pieces of the standard library that
//! the verified code relies on but that vstd gives no specification for:
//! decimal number parsing, UTF-8 string construction, and the error types
//! those operations hand back.

use vstd::prelude::*;

verus! {

#[verifier::external_type_specification]
#[verifier::external_body]
pub struct ExParseIntError(std::num::ParseIntError);

#[verifier::external_type_specification]
#[verifier::external_body]
pub struct ExFromUtf8Error(std::string::FromUtf8Error);

#[verifier::external_type_specification]
#[verifier::external_body]
pub struct ExIoError(std::io::Error);

#[verifier::external_type_specification]
#[verifier::external_body]
#[verifier::reject_recursive_types(T)]
pub struct ExSender<T>(std::sync::mpsc::Sender<T>);

#[verifier::external_type_specification]
#[verifier::external_body]
#[verifier::reject_recursive_types(T)]
pub struct ExReceiver<T>(std::sync::mpsc::Receiver<T>);

/// A decimal digit.
pub open spec fn spec_is_dec_digit(c: char) -> bool {
    '0' as u32 <= c as u32 <= '9' as u32
}

/// The number written by a sequence of decimal digits, most significant first.
pub open spec fn spec_dec_value(s: Seq<char>) -> int
    decreases s.len(),
{
    if s.len() == 0 {
        0
    } else {
        spec_dec_value(s.drop_last()) * 10 + (s.last() as u32 - '0' as u32)
    }
}

/// The digits of an unsigned decimal literal as `str::parse` reads it: an
/// optional leading `+`, then the digits themselves.
pub open spec fn spec_dec_digits(s: Seq<char>) -> Seq<char> {
    if s.len() > 0 && s[0] == '+' {
        s.skip(1)
    } else {
        s
    }
}

/// Whether `str::parse` for an unsigned integer type accepts the text at all,
/// leaving the range check aside: an optional `+` sign followed by one or
/// more decimal digits.
pub open spec fn spec_is_dec_literal(s: Seq<char>) -> bool {
    &&& spec_dec_digits(s).len() > 0
    &&& forall|i: int|
        0 <= i < spec_dec_digits(s).len() ==> spec_is_dec_digit(#[trigger] spec_dec_digits(s)[i])
}

/// Relies on `str::parse::<u8>`: it accepts an optional `+` sign followed by
/// decimal digits, succeeds exactly when the written number fits, and fails
/// with a `ParseIntError` otherwise.
#[verifier::external_body]
pub fn parse_u8_dec(s: &str) -> (r: Result<u8, std::num::ParseIntError>)
    ensures
        (r is Ok) <==> (spec_is_dec_literal(s@) && spec_dec_value(spec_dec_digits(s@)) <= u8::MAX),
        r matches Ok(n) ==> n == spec_dec_value(spec_dec_digits(s@)),
{
    s.parse::<u8>()
}

/// Relies on `str::parse::<u16>`: the same grammar and range rule as for
/// `u8`, with the `u16` bound.
#[verifier::external_body]
pub fn parse_u16_dec(s: &str) -> (r: Result<u16, std::num::ParseIntError>)
    ensures
        (r is Ok) <==> (spec_is_dec_literal(s@) && spec_dec_value(spec_dec_digits(s@)) <= u16::MAX),
        r matches Ok(n) ==> n == spec_dec_value(spec_dec_digits(s@)),
{
    s.parse::<u16>()
}

/// Relies on `String::from_utf8`: bytes below 0x80 are ASCII, which is valid
/// UTF-8 and decodes to the characters with the same values.
#[verifier::external_body]
pub fn ascii_to_string(bytes: &[u8]) -> (s: String)
    requires
        forall|i: int| 0 <= i < bytes@.len() ==> bytes@[i] < 0x80,
    ensures
        s@.len() == bytes@.len(),
        forall|i: int| 0 <= i < bytes@.len() ==> s@[i] == bytes@[i] as char,
{
    String::from_utf8(bytes.to_vec()).unwrap()
}

/// Relies on `String::push`: it appends exactly the one character.
#[verifier::external_body]
pub fn push_char(s: &mut String, c: char)
    ensures
        final(s)@ == old(s)@.push(c),
{
    s.push(c);
}

/// The characters that lossy UTF-8 decoding yields for a byte sequence.
pub uninterp spec fn spec_utf8_lossy(bytes: Seq<u8>) -> Seq<char>;

/// Relies on `String::from_utf8_lossy`: the result is a function of the bytes
/// alone, and bytes below 0x80 decode one for one to the characters with the
/// same values.
#[verifier::external_body]
pub fn utf8_lossy_to_string(bytes: &[u8]) -> (s: String)
    ensures
        s@ == spec_utf8_lossy(bytes@),
        (forall|i: int| 0 <= i < bytes@.len() ==> bytes@[i] < 0x80) ==> (s@.len() == bytes@.len()
            && forall|i: int| 0 <= i < bytes@.len() ==> s@[i] == bytes@[i] as char),
{
    String::from_utf8_lossy(bytes).into_owned()
}

} // verus!
