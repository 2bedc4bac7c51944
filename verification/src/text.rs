//! The text forms of numbers and member ids that messages print.
use crate::member_id::MemberId;
use vstd::prelude::*;

verus! {

/// The lower-case hexadecimal digit of `d` (decimal digits are the first ten).
pub open spec fn digit_char(d: nat) -> char {
    seq!['0', '1', '2', '3', '4', '5', '6', '7', '8', '9', 'a', 'b', 'c', 'd', 'e', 'f'][d as int]
}

/// `n` written in decimal, without leading zeros.
pub open spec fn decimal(n: nat) -> Seq<char>
    decreases n,
{
    if n < 10 {
        seq![digit_char(n)]
    } else {
        decimal(n / 10).push(digit_char(n % 10))
    }
}

/// The last `count` hexadecimal digits of `n`, zero-padded, in lower case.
pub open spec fn hex_digits(n: nat, count: nat) -> Seq<char>
    decreases count,
{
    if count == 0 {
        Seq::empty()
    } else {
        hex_digits(n / 16, (count - 1) as nat).push(digit_char(n % 16))
    }
}

/// A member id written as a hyphenated UUID: 32 lower-case hexadecimal digits, most
/// significant first, grouped 8-4-4-4-12.
pub open spec fn member_id_text(id: MemberId) -> Seq<char> {
    let h = hex_digits(id as nat, 32);
    h.subrange(0, 8) + seq!['-'] + h.subrange(8, 12) + seq!['-'] + h.subrange(12, 16) + seq!['-'] + h.subrange(16, 20)
        + seq!['-'] + h.subrange(20, 32)
}

/// `n` in decimal, through `u32::to_string`, whose `Display` writes decimal digits with
/// no sign, padding or leading zeros.
#[verifier::external_body]
pub(crate) fn decimal_string(n: u32) -> (r: String)
    ensures
        r@ == decimal(n as nat),
{
    n.to_string()
}

/// `id` as a hyphenated lower-case UUID, through `uuid::Uuid::from_u128(id).to_string()`:
/// uuid reads the 128 bits most significant first, and its `Display` writes the
/// hyphenated lower-case form.
#[verifier::external_body]
pub(crate) fn member_id_string(id: MemberId) -> (r: String)
    ensures
        r@ == member_id_text(id),
{
    uuid::Uuid::from_u128(id).to_string()
}

} // verus!
