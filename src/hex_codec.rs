use vstd::prelude::*;
use crate::types::GroupId;

verus! {

/// The lowercase hexadecimal digit for `n`, for `0 <= n < 16`.
pub open spec fn hex_digit(n: int) -> char {
    seq!['0', '1', '2', '3', '4', '5', '6', '7', '8', '9', 'a', 'b', 'c', 'd', 'e', 'f'][n]
}

/// Lowercase hexadecimal text of a byte string, two digits per byte, high nibble first.
pub open spec fn hex_of(b: Seq<u8>) -> Seq<char> {
    Seq::new(
        2 * b.len(),
        |i: int| if i % 2 == 0 { hex_digit(b[i / 2] as int / 16) } else { hex_digit(b[i / 2] as int % 16) },
    )
}

/// Whether `c` is a hexadecimal digit, in either case.
pub open spec fn is_hex_char(c: char) -> bool {
    ('0' <= c && c <= '9') || ('a' <= c && c <= 'f') || ('A' <= c && c <= 'F')
}

/// The value of a hexadecimal digit.
pub open spec fn hex_value(c: char) -> int {
    if '0' <= c && c <= '9' {
        (c as u32) as int - ('0' as u32) as int
    } else if 'a' <= c && c <= 'f' {
        (c as u32) as int - ('a' as u32) as int + 10
    } else {
        (c as u32) as int - ('A' as u32) as int + 10
    }
}

/// Whether `s` is hexadecimal text: an even number of hexadecimal digits.
pub open spec fn is_hex(s: Seq<char>) -> bool {
    &&& s.len() % 2 == 0
    &&& forall|i: int| 0 <= i < s.len() ==> is_hex_char(#[trigger] s[i])
}

/// The bytes that hexadecimal text denotes, two digits per byte.
pub open spec fn unhex(s: Seq<char>) -> Seq<u8> {
    Seq::new(s.len() / 2, |i: int| (hex_value(s[2 * i]) * 16 + hex_value(s[2 * i + 1])) as u8)
}

#[verifier::external_type_specification]
#[verifier::external_body]
pub struct ExFromHexError(hex::FromHexError);

/// Relies on hex::encode: each byte becomes two lowercase digits, high nibble first.
#[verifier::external_body]
pub(crate) fn to_hex(b: &Vec<u8>) -> (r: String)
    ensures
        r@ == hex_of(b@),
{
    hex::encode(b)
}

/// Relies on hex::decode: it succeeds exactly on an even number of hexadecimal
/// digits (either case) and yields one byte per pair, high nibble first.
#[verifier::external_body]
pub(crate) fn from_hex(s: &str) -> (r: Result<Vec<u8>, hex::FromHexError>)
    ensures
        r.is_ok() <==> is_hex(s@),
        r matches Ok(v) ==> v@ == unhex(s@),
{
    hex::decode(s)
}

/// Why a group identifier text was refused.
#[derive(Clone, Copy, Debug, PartialEq, Eq, Structural)]
pub enum GroupIdError {
    /// The text is not hexadecimal.
    InvalidHex,
    /// The text is hexadecimal but does not denote exactly 32 bytes.
    WrongLength,
}

/// Decodes the hexadecimal text of a group identifier.
pub fn parse_group_id(id: &str) -> (r: Result<GroupId, GroupIdError>)
    ensures
        r matches Ok(g) ==> g@ == unhex(id@),
        r is Ok <==> is_hex(id@) && id@.len() == 64,
        r == Err::<GroupId, GroupIdError>(GroupIdError::InvalidHex) <==> !is_hex(id@),
        r == Err::<GroupId, GroupIdError>(GroupIdError::WrongLength) <==> is_hex(id@)
            && id@.len() != 64,
{
    let bytes = match from_hex(id) {
        Ok(v) => v,
        Err(_) => return Err(GroupIdError::InvalidHex),
    };
    if bytes.len() != 32 {
        return Err(GroupIdError::WrongLength);
    }
    let mut g: GroupId = [0u8; 32];
    let mut i: usize = 0;
    while i < 32
        invariant
            0 <= i <= 32,
            bytes@.len() == 32,
            forall|j: int| 0 <= j < i ==> g@[j] == bytes@[j],
        decreases 32 - i,
    {
        g[i] = bytes[i];
        i += 1;
    }
    assert(g@ =~= bytes@);
    Ok(g)
}

} // verus!
