//! What holds of the codec as a whole: the length of an encoding, the round
//! trip through encode and decode, and the uniqueness of the canonical form.

use crate::class::SizeClass;
use crate::le::{
    le_bytes, lemma_le_bytes_index, lemma_le_bytes_len, lemma_le_bytes_of_le_value,
    lemma_le_value_bound,
    lemma_le_value_of_le_bytes, lemma_pow256_monotone, lemma_pow256_widths, pow256,
};
use crate::varint::{Decoded, VarInt};
use vstd::prelude::*;

verus! {

/// A value fits the payload of its canonical class, and of no class before
/// it in the table.
pub proof fn lemma_class_bounds(value: u64)
    ensures
        value <= SizeClass::spec_classify(value).spec_max(),
        SizeClass::spec_classify(value) != SizeClass::U8 ==> value < pow256(
            SizeClass::spec_classify(value).spec_payload_width(),
        ),
        SizeClass::spec_classify(value) == SizeClass::U16 ==> value > SizeClass::U8.spec_max(),
        SizeClass::spec_classify(value) == SizeClass::U32 ==> value > SizeClass::U16.spec_max(),
        SizeClass::spec_classify(value) == SizeClass::U64 ==> value > SizeClass::U32.spec_max(),
{
    lemma_pow256_widths();
}

/// The encoding of a value is as long as `get_size` says: 1, 3, 5 or 9
/// bytes.
pub proof fn lemma_encoded_len(value: u64)
    ensures
        VarInt::spec_encode(value).len() == VarInt::spec_get_size(value),
        VarInt::spec_get_size(value) == 1 || VarInt::spec_get_size(value) == 3
            || VarInt::spec_get_size(value) == 5 || VarInt::spec_get_size(value) == 9,
{
    let class = SizeClass::spec_classify(value);
    lemma_le_bytes_len(value as nat, class.spec_payload_width());
}

/// The range table, written out: a value up to 252 is its own single byte;
/// a larger one is the tag of the smallest width that holds it, then its
/// bytes from the least significant up.
pub proof fn lemma_encode_table(value: u64)
    ensures
        value <= 252 ==> VarInt::spec_encode(value) == seq![value as u8],
        253 <= value <= 0xffff ==> VarInt::spec_encode(value) == seq![
            0xfdu8,
            (value % 256) as u8,
            (value / 0x100 % 256) as u8,
        ],
        0x1_0000 <= value <= 0xffff_ffff ==> VarInt::spec_encode(value) == seq![
            0xfeu8,
            (value % 256) as u8,
            (value / 0x100 % 256) as u8,
            (value / 0x1_0000 % 256) as u8,
            (value / 0x100_0000 % 256) as u8,
        ],
        0x1_0000_0000 <= value ==> VarInt::spec_encode(value) == seq![
            0xffu8,
            (value % 256) as u8,
            (value / 0x100 % 256) as u8,
            (value / 0x1_0000 % 256) as u8,
            (value / 0x100_0000 % 256) as u8,
            (value / 0x1_0000_0000 % 256) as u8,
            (value / 0x100_0000_0000 % 256) as u8,
            (value / 0x1_0000_0000_0000 % 256) as u8,
            (value / 0x100_0000_0000_0000 % 256) as u8,
        ],
{
    reveal_with_fuel(pow256, 9);
    let class = SizeClass::spec_classify(value);
    let width = class.spec_payload_width();
    let encoded = VarInt::spec_encode(value);
    let v = value as nat;
    lemma_le_bytes_len(v, width);
    let payload = le_bytes(v, width);
    assert forall|i: int| 0 <= i < width implies #[trigger] encoded[1 + i] == payload[i] by {}
    if value <= 252 {
        assert(encoded =~= seq![value as u8]);
    } else if value <= 0xffff {
        lemma_le_bytes_index(v, width, 0);
        lemma_le_bytes_index(v, width, 1);
        assert(encoded[1] == payload[0] && encoded[2] == payload[1]);
        assert(encoded =~= seq![0xfdu8, (value % 256) as u8, (value / 0x100 % 256) as u8]);
    } else if value <= 0xffff_ffff {
        lemma_le_bytes_index(v, width, 0);
        lemma_le_bytes_index(v, width, 1);
        assert(encoded[1] == payload[0] && encoded[2] == payload[1]);
        lemma_le_bytes_index(v, width, 2);
        lemma_le_bytes_index(v, width, 3);
        assert(encoded[3] == payload[2] && encoded[4] == payload[3]);
        assert(encoded =~= seq![
            0xfeu8,
            (value % 256) as u8,
            (value / 0x100 % 256) as u8,
            (value / 0x1_0000 % 256) as u8,
            (value / 0x100_0000 % 256) as u8,
        ]);
    } else {
        lemma_le_bytes_index(v, width, 0);
        lemma_le_bytes_index(v, width, 1);
        assert(encoded[1] == payload[0] && encoded[2] == payload[1]);
        lemma_le_bytes_index(v, width, 2);
        lemma_le_bytes_index(v, width, 3);
        assert(encoded[3] == payload[2] && encoded[4] == payload[3]);
        lemma_le_bytes_index(v, width, 4);
        lemma_le_bytes_index(v, width, 5);
        assert(encoded[5] == payload[4] && encoded[6] == payload[5]);
        lemma_le_bytes_index(v, width, 6);
        lemma_le_bytes_index(v, width, 7);
        assert(encoded[7] == payload[6] && encoded[8] == payload[7]);
        assert(encoded =~= seq![
            0xffu8,
            (value % 256) as u8,
            (value / 0x100 % 256) as u8,
            (value / 0x1_0000 % 256) as u8,
            (value / 0x100_0000 % 256) as u8,
            (value / 0x1_0000_0000 % 256) as u8,
            (value / 0x100_0000_0000 % 256) as u8,
            (value / 0x1_0000_0000_0000 % 256) as u8,
            (value / 0x100_0000_0000_0000 % 256) as u8,
        ]);
    }
}

/// Whatever bytes decode, the value they spell fits in 64 bits, and the
/// count of bytes consumed is the length that the first byte announces.
pub proof fn lemma_decoded_fits(bytes: Seq<u8>)
    requires
        !VarInt::spec_truncated(bytes),
    ensures
        VarInt::spec_head_value(bytes) <= u64::MAX,
        VarInt::spec_decode(bytes) matches Some(d) && d.value == VarInt::spec_head_value(bytes)
            && d.bytes_consumed == SizeClass::spec_from_discriminator(
            bytes[0],
        ).spec_encoded_len() && d.bytes_consumed <= bytes.len(),
{
    let class = SizeClass::spec_from_discriminator(bytes[0]);
    let payload = bytes.subrange(1, class.spec_encoded_len() as int);
    lemma_le_value_bound(payload);
    lemma_pow256_monotone(payload.len(), 8);
    lemma_pow256_widths();
}

/// Round trip within a stream: decoding an encoding gives the value back
/// and consumes exactly the encoding, whatever bytes follow it.
pub proof fn lemma_round_trip_in_stream(value: u64, rest: Seq<u8>)
    ensures
        VarInt::spec_decode(VarInt::spec_encode(value) + rest) == Some(
            Decoded { value, bytes_consumed: VarInt::spec_encode(value).len() as usize },
        ),
        VarInt::spec_encode(value).len() == VarInt::spec_get_size(value),
{
    let class = SizeClass::spec_classify(value);
    let width = class.spec_payload_width();
    let encoded = VarInt::spec_encode(value);
    let stream = encoded + rest;
    lemma_encoded_len(value);
    lemma_class_bounds(value);
    assert(stream[0] == encoded[0]);
    assert(SizeClass::spec_from_discriminator(stream[0]) == class);
    if class != SizeClass::U8 {
        assert(stream.subrange(1, class.spec_encoded_len() as int) =~= le_bytes(
            value as nat,
            width,
        ));
        lemma_le_value_of_le_bytes(value as nat, width);
    }
}

/// Round trip: for every `u64`, decoding its encoding gives the value back,
/// and the count of bytes consumed is the length of the encoding.
pub proof fn lemma_round_trip(value: u64)
    ensures
        VarInt::spec_decode(VarInt::spec_encode(value)) == Some(
            Decoded { value, bytes_consumed: VarInt::spec_encode(value).len() as usize },
        ),
{
    lemma_round_trip_in_stream(value, Seq::<u8>::empty());
    assert(VarInt::spec_encode(value) + Seq::<u8>::empty() =~= VarInt::spec_encode(value));
}

/// Two values with the same encoding are the same value.
pub proof fn lemma_encode_injective(a: u64, b: u64)
    requires
        VarInt::spec_encode(a) == VarInt::spec_encode(b),
    ensures
        a == b,
{
    lemma_round_trip(a);
    lemma_round_trip(b);
}

/// Decoding looks at the encoding alone: bytes appended to an input that
/// decodes do not change the result.
pub proof fn lemma_decode_ignores_rest(bytes: Seq<u8>, rest: Seq<u8>)
    requires
        !VarInt::spec_truncated(bytes),
    ensures
        VarInt::spec_decode(bytes + rest) == VarInt::spec_decode(bytes),
{
    let class = SizeClass::spec_from_discriminator(bytes[0]);
    let len = class.spec_encoded_len() as int;
    assert((bytes + rest)[0] == bytes[0]);
    assert((bytes + rest).subrange(1, len) =~= bytes.subrange(1, len));
}

/// The canonical encoding is the shortest: no input that decodes to a value
/// spells it in fewer bytes than `encode` does.
pub proof fn lemma_canonical_is_shortest(bytes: Seq<u8>)
    requires
        !VarInt::spec_truncated(bytes),
    ensures
        VarInt::spec_decode(bytes) matches Some(d) && VarInt::spec_get_size(d.value)
            <= d.bytes_consumed,
{
    let class = SizeClass::spec_from_discriminator(bytes[0]);
    let payload = bytes.subrange(1, class.spec_encoded_len() as int);
    lemma_decoded_fits(bytes);
    lemma_le_value_bound(payload);
    lemma_pow256_widths();
}

/// The canonical encoding is unique: an input that decodes to a value in as
/// many bytes as `encode` writes for it begins with that very encoding.
pub proof fn lemma_canonical_is_unique(bytes: Seq<u8>)
    requires
        !VarInt::spec_truncated(bytes),
        VarInt::spec_get_size(VarInt::spec_decode(bytes).unwrap().value) == VarInt::spec_decode(
            bytes,
        ).unwrap().bytes_consumed,
    ensures
        VarInt::spec_encode(VarInt::spec_decode(bytes).unwrap().value) == bytes.subrange(
            0,
            VarInt::spec_decode(bytes).unwrap().bytes_consumed as int,
        ),
{
    let d = VarInt::spec_decode(bytes).unwrap();
    let class = SizeClass::spec_from_discriminator(bytes[0]);
    let len = class.spec_encoded_len() as int;
    let payload = bytes.subrange(1, len);
    lemma_decoded_fits(bytes);
    lemma_class_bounds(d.value);
    assert(SizeClass::spec_classify(d.value) == class);
    if class != SizeClass::U8 {
        lemma_le_bytes_of_le_value(payload);
    }
    assert(VarInt::spec_encode(d.value) =~= bytes.subrange(0, len));
}

} // verus!
