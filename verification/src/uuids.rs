//! Identifiers that are drawn at random.

use vstd::arithmetic::power::pow;
use vstd::prelude::*;

verus! {

/// Hexadecimal digit `i` of an identifier, from the left.
pub open spec fn nibble(id: u128, i: int) -> int {
    (id as int / pow(16, (31 - i) as nat)) % 16
}

pub open spec fn hex_char(n: int) -> char {
    if n < 10 {
        ('0' as int + n) as char
    } else {
        ('a' as int + n - 10) as char
    }
}

/// The hexadecimal digits of an identifier.
pub open spec fn simple(id: u128) -> Seq<char> {
    Seq::new(32, |i: int| hex_char(nibble(id, i)))
}

/// The hexadecimal digits of an identifier in groups of eight, four, four, four and twelve.
pub open spec fn hyphenated(id: u128) -> Seq<char> {
    let digits = simple(id);
    digits.subrange(0, 8) + seq!['-'] + digits.subrange(8, 12) + seq!['-'] + digits.subrange(12, 16) + seq!['-']
        + digits.subrange(16, 20) + seq!['-'] + digits.subrange(20, 32)
}

/// An identifier says of itself that it is random: its version is four, and its variant is that
/// of RFC 9562.
pub open spec fn is_random(id: u128) -> bool {
    nibble(id, 12) == 4 && 8 <= nibble(id, 16) <= 11
}

/// Draws an identifier with `uuid::Uuid::new_v4`. Its version and its variant are stated; chance
/// decides the rest.
#[verifier::external_body]
pub(crate) fn new_v4() -> (r: u128)
    ensures
        is_random(r),
{
    uuid::Uuid::new_v4().as_u128()
}

/// Writes an identifier with the `Display` of `uuid::Uuid`: in lower case, in groups.
#[verifier::external_body]
pub(crate) fn hyphenated_text(id: u128) -> (r: String)
    ensures
        r@ == hyphenated(id),
{
    uuid::Uuid::from_u128(id).to_string()
}

/// Writes an identifier with the `Display` of `uuid::fmt::Simple`: in lower case, without groups.
#[verifier::external_body]
pub(crate) fn simple_text(id: u128) -> (r: String)
    ensures
        r@ == simple(id),
{
    uuid::Uuid::from_u128(id).simple().to_string()
}

/// An identifier is written in thirty-two hexadecimal digits from its highest one down, with hyphens
/// behind the eighth, the twelfth, the sixteenth and the twentieth where they are asked for.
pub proof fn identifiers_are_written_in_hexadecimal(id: u128, i: int)
    requires
        0 <= i < 32,
    ensures
        simple(id).len() == 32,
        0 <= nibble(id, i) < 16,
        nibble(id, 31) == id as int % 16,
        nibble(id, i) < 10 ==> simple(id)[i] as int == '0' as int + nibble(id, i),
        nibble(id, i) >= 10 ==> simple(id)[i] as int == 'a' as int + nibble(id, i) - 10,
        hyphenated(id).len() == 36,
        hyphenated(id)[8] == '-' && hyphenated(id)[13] == '-' && hyphenated(id)[18] == '-' && hyphenated(id)[23] == '-',
        hyphenated(id)[i + if i < 8 {
            0int
        } else if i < 12 {
            1
        } else if i < 16 {
            2
        } else if i < 20 {
            3
        } else {
            4
        }] == simple(id)[i],
{
    vstd::arithmetic::power::lemma_pow0(16);
}

/// The digits of an identifier are those of its value to the base of sixteen: without the last one
/// they are those of a sixteenth of it, moved on by one place.
pub proof fn digits_are_those_of_the_value(id: u128, i: int)
    requires
        0 <= i < 31,
    ensures
        nibble(id, 31) == id as int % 16,
        nibble(id, i) == nibble((id / 16) as u128, i + 1),
{
    let k = (30 - i) as nat;
    vstd::arithmetic::power::lemma_pow0(16);
    vstd::arithmetic::power::lemma_pow_adds(16, 1, k);
    vstd::arithmetic::power::lemma_pow1(16);
    vstd::arithmetic::power::lemma_pow_positive(16, k);
    vstd::arithmetic::div_mod::lemma_div_denominator(id as int, 16, pow(16, k));
    assert(pow(16, (31 - i) as nat) == 16 * pow(16, k));
}

}
