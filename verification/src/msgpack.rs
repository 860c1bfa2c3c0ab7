use vstd::prelude::*;

use crate::text::be_bytes;

verus! {

/// The MessagePack form of an unsigned integer, in its shortest encoding.
pub open spec fn msgpack_uint(v: u64) -> Seq<u8> {
    if v < 0x80 {
        seq![v as u8]
    } else if v < 0x100 {
        seq![0xccu8, v as u8]
    } else if v < 0x1_0000 {
        seq![0xcdu8] + be_bytes(v as nat, 2)
    } else if v < 0x1_0000_0000 {
        seq![0xceu8] + be_bytes(v as nat, 4)
    } else {
        seq![0xcfu8] + be_bytes(v as nat, 8)
    }
}

/// The MessagePack header of an array of `n` elements.
pub open spec fn msgpack_array_header(n: nat) -> Seq<u8> {
    if n < 16 {
        seq![(0x90 + n) as u8]
    } else if n < 0x1_0000 {
        seq![0xdcu8] + be_bytes(n, 2)
    } else {
        seq![0xddu8] + be_bytes(n, 4)
    }
}

/// The encodings of the integers, one after the other.
pub open spec fn msgpack_uints(s: Seq<u64>) -> Seq<u8>
    decreases s.len(),
{
    if s.len() == 0 {
        Seq::empty()
    } else {
        msgpack_uints(s.drop_last()) + msgpack_uint(s.last())
    }
}

/// The MessagePack form of a list of unsigned integers: an array of them.
pub open spec fn msgpack_u64_array(s: Seq<u64>) -> Seq<u8> {
    msgpack_array_header(s.len()) + msgpack_uints(s)
}

#[verifier::external_type_specification]
#[verifier::external_body]
pub struct ExEncodeError(rmp_serde::encode::Error);

/// Calls `rmp_serde::to_vec` on a list of integers. The serializer writes the array
/// header of `write_array_len`, then each element through `write_uint`, which picks the
/// shortest encoding, into a growing vector; it fails only when that vector cannot grow.
/// The contract states the bytes of a success and nothing of a failure.
#[verifier::external_body]
pub(crate) fn encode_u64_array(values: &Vec<u64>) -> (r: Result<Vec<u8>, rmp_serde::encode::Error>)
    requires
        values@.len() <= u32::MAX,
    ensures
        r matches Ok(bytes) ==> bytes@ == msgpack_u64_array(values@),
{
    rmp_serde::to_vec(values)
}

} // verus!
