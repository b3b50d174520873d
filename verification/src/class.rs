//! The range table of the format, in one place: which length class a value
//! falls in, and which class a first byte announces.

use vstd::prelude::*;

verus! {

/// The largest value that is written as a single byte.
pub const MAX_DIRECT: u64 = 252;

/// First byte of an encoding that carries two more bytes.
pub const TAG_U16: u8 = 0xfd;

/// First byte of an encoding that carries four more bytes.
pub const TAG_U32: u8 = 0xfe;

/// First byte of an encoding that carries eight more bytes.
pub const TAG_U64: u8 = 0xff;

/// The four length classes of the encoding.
#[derive(Clone, Copy, Debug, PartialEq, Eq, Structural)]
pub enum SizeClass {
    /// The value is its own single byte.
    U8,
    /// A tag byte, then two bytes.
    U16,
    /// A tag byte, then four bytes.
    U32,
    /// A tag byte, then eight bytes.
    U64,
}

impl SizeClass {
    /// The largest value that the class can carry.
    pub open spec fn spec_max(self) -> u64 {
        match self {
            SizeClass::U8 => MAX_DIRECT,
            SizeClass::U16 => 0xffff,
            SizeClass::U32 => 0xffff_ffff,
            SizeClass::U64 => 0xffff_ffff_ffff_ffff,
        }
    }

    /// The number of bytes that follow the first one.
    pub open spec fn spec_payload_width(self) -> nat {
        match self {
            SizeClass::U8 => 0,
            SizeClass::U16 => 2,
            SizeClass::U32 => 4,
            SizeClass::U64 => 8,
        }
    }

    /// The length of an encoding of this class: 1, 3, 5 or 9.
    pub open spec fn spec_encoded_len(self) -> nat {
        1 + self.spec_payload_width()
    }

    /// The canonical class of `value`: the first one in the table whose
    /// closed range holds it.
    pub open spec fn spec_classify(value: u64) -> SizeClass {
        if value <= SizeClass::U8.spec_max() {
            SizeClass::U8
        } else if value <= SizeClass::U16.spec_max() {
            SizeClass::U16
        } else if value <= SizeClass::U32.spec_max() {
            SizeClass::U32
        } else {
            SizeClass::U64
        }
    }

    /// The class that a first byte announces.
    pub open spec fn spec_from_discriminator(first: u8) -> SizeClass {
        if first == TAG_U16 {
            SizeClass::U16
        } else if first == TAG_U32 {
            SizeClass::U32
        } else if first == TAG_U64 {
            SizeClass::U64
        } else {
            SizeClass::U8
        }
    }

    /// The first byte of the encoding of `value` in this class: the class's
    /// tag, or, where the value is written directly, its low byte, which for
    /// every value of that class is the value itself.
    pub open spec fn spec_first_byte(self, value: u64) -> u8 {
        match self {
            SizeClass::U8 => (value % 256) as u8,
            SizeClass::U16 => TAG_U16,
            SizeClass::U32 => TAG_U32,
            SizeClass::U64 => TAG_U64,
        }
    }

    /// The canonical class of `value`. Total over `u64`: every value, both
    /// ends of every range included, has exactly one class.
    pub fn classify(value: u64) -> (class: SizeClass)
        ensures
            class == Self::spec_classify(value),
    {
        if value <= MAX_DIRECT {
            SizeClass::U8
        } else if value <= 0xffff {
            SizeClass::U16
        } else if value <= 0xffff_ffff {
            SizeClass::U32
        } else {
            SizeClass::U64
        }
    }

    /// The class that a first byte announces. Every byte below `0xfd` stands
    /// for itself.
    pub fn from_discriminator(first: u8) -> (class: SizeClass)
        ensures
            class == Self::spec_from_discriminator(first),
    {
        if first == TAG_U16 {
            SizeClass::U16
        } else if first == TAG_U32 {
            SizeClass::U32
        } else if first == TAG_U64 {
            SizeClass::U64
        } else {
            SizeClass::U8
        }
    }

    /// The number of bytes that follow the first one.
    pub fn payload_width(self) -> (width: usize)
        ensures
            width == self.spec_payload_width(),
    {
        match self {
            SizeClass::U8 => 0,
            SizeClass::U16 => 2,
            SizeClass::U32 => 4,
            SizeClass::U64 => 8,
        }
    }

    /// The length of an encoding of this class.
    pub fn encoded_len(self) -> (len: usize)
        ensures
            len == self.spec_encoded_len(),
    {
        1 + self.payload_width()
    }

    /// The first byte of the encoding of `value` in this class.
    pub fn first_byte(self, value: u64) -> (first: u8)
        ensures
            first == self.spec_first_byte(value),
    {
        match self {
            SizeClass::U8 => (value % 256) as u8,
            SizeClass::U16 => TAG_U16,
            SizeClass::U32 => TAG_U32,
            SizeClass::U64 => TAG_U64,
        }
    }
}

} // verus!
