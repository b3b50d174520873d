//! The codec: encode, decode and the length of an encoding.

use crate::class::SizeClass;
use crate::le::{le_bytes, le_value, lemma_le_bytes_len, read_le, write_le};
use vstd::prelude::*;

verus! {

/// The CompactSize codec. It holds no state: its functions are pure.
pub struct VarInt;

/// Why the codec refused an input.
#[derive(Clone, Copy, Debug, PartialEq, Eq, Structural)]
pub enum VarIntError {
    /// The input ends before the encoding that its first byte announces.
    TruncatedInput,
    /// The value is outside what the format can represent. No `u64` is.
    InvalidRange,
}

/// A decoded value, with the number of input bytes that spelled it.
#[derive(Clone, Copy, Debug, PartialEq, Eq, Structural)]
pub struct Decoded {
    /// The magnitude.
    pub value: u64,
    /// How many bytes of the input the encoding took: 1, 3, 5 or 9.
    pub bytes_consumed: usize,
}

impl VarInt {
    /// The canonical encoding of `value`: the first byte of its class, then
    /// the class's payload in little-endian order.
    pub open spec fn spec_encode(value: u64) -> Seq<u8> {
        let class = SizeClass::spec_classify(value);
        seq![class.spec_first_byte(value)] + le_bytes(value as nat, class.spec_payload_width())
    }

    /// The length of the canonical encoding of `value`.
    pub open spec fn spec_get_size(value: u64) -> nat {
        SizeClass::spec_classify(value).spec_encoded_len()
    }

    /// Whether `bytes` ends before the encoding that its first byte
    /// announces; an empty input announces nothing and is truncated too.
    pub open spec fn spec_truncated(bytes: Seq<u8>) -> bool {
        bytes.len() == 0 || bytes.len() < SizeClass::spec_from_discriminator(
            bytes[0],
        ).spec_encoded_len()
    }

    /// The value at the head of `bytes`: the first byte itself where it is
    /// no tag, the little-endian payload behind the tag otherwise.
    pub open spec fn spec_head_value(bytes: Seq<u8>) -> nat
        recommends
            !Self::spec_truncated(bytes),
    {
        let class = SizeClass::spec_from_discriminator(bytes[0]);
        match class {
            SizeClass::U8 => bytes[0] as nat,
            _ => le_value(bytes.subrange(1, class.spec_encoded_len() as int)),
        }
    }

    /// What decoding the head of `bytes` gives, `None` where the input is
    /// truncated. Bytes behind the encoding are not looked at.
    pub open spec fn spec_decode(bytes: Seq<u8>) -> Option<Decoded> {
        if Self::spec_truncated(bytes) {
            None
        } else {
            Some(
                Decoded {
                    value: Self::spec_head_value(bytes) as u64,
                    bytes_consumed: SizeClass::spec_from_discriminator(
                        bytes[0],
                    ).spec_encoded_len() as usize,
                },
            )
        }
    }

    /// Encodes `size` canonically. Every `u64` has an encoding, so the
    /// result is always `Ok`.
    pub fn encode(size: u64) -> (r: Result<Vec<u8>, VarIntError>)
        ensures
            r matches Ok(bytes) && bytes@ == Self::spec_encode(size) && bytes@.len()
                == Self::spec_get_size(size),
    {
        let class = SizeClass::classify(size);
        let mut out: Vec<u8> = Vec::new();
        out.push(class.first_byte(size));
        write_le(&mut out, size, class.payload_width());
        proof {
            lemma_le_bytes_len(size as nat, class.spec_payload_width());
            assert(out@ =~= Self::spec_encode(size));
        }
        Ok(out)
    }

    /// Decodes the value at the head of `bytes` and says how many bytes it
    /// took, so that a caller can move on to what follows. Fails with
    /// `TruncatedInput`, and with nothing else, exactly when the input is
    /// empty or shorter than its first byte announces.
    pub fn decode(bytes: &[u8]) -> (r: Result<Decoded, VarIntError>)
        ensures
            match r {
                Ok(d) => Self::spec_decode(bytes@) == Some(d) && d.value == Self::spec_head_value(
                    bytes@,
                ) && d.bytes_consumed <= bytes.len(),
                Err(e) => e == VarIntError::TruncatedInput && Self::spec_truncated(bytes@),
            },
    {
        if bytes.len() == 0 {
            return Err(VarIntError::TruncatedInput);
        }
        let first: u8 = bytes[0];
        let class = SizeClass::from_discriminator(first);
        let len: usize = class.encoded_len();
        if bytes.len() < len {
            return Err(VarIntError::TruncatedInput);
        }
        let value: u64 = match class {
            SizeClass::U8 => first as u64,
            _ => read_le(bytes, 1, class.payload_width()),
        };
        Ok(Decoded { value, bytes_consumed: len })
    }

    /// The number of bytes that `encode` writes for `varint`: 1, 3, 5 or 9.
    /// The result is always `Ok` and depends on `varint` alone, so repeated
    /// calls on one value agree.
    pub fn get_size(varint: u64) -> (r: Result<u8, VarIntError>)
        ensures
            r matches Ok(n) && n == Self::spec_get_size(varint),
    {
        let len: usize = SizeClass::classify(varint).encoded_len();
        Ok(len as u8)
    }
}

} // verus!
