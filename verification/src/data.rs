use vstd::bytes::*;
use vstd::prelude::*;

verus! {

/// A machine word of the virtual machine. Programs are compiled for a word size of
/// 16, 32 or 64 bits; the variant also records that size.
#[derive(Clone, Copy, Debug, PartialEq, Eq, Structural)]
pub enum Data {
    B16(i16),
    B32(i32),
    B64(i64),
}

/// The word of the given size with the value `v` cut down to that size (two's complement
/// truncation, as `as i16` / `as i32` / `as i64` do).
pub open spec fn word_of(size: Data, v: int) -> Data {
    match size {
        Data::B16(_) => Data::B16(v as i16),
        Data::B32(_) => Data::B32(v as i32),
        Data::B64(_) => Data::B64(v as i64),
    }
}

/// The word of the given size whose value is `b`: 1 for true, 0 for false.
pub open spec fn word_of_bool(size: Data, b: bool) -> Data {
    word_of(size, if b { 1int } else { 0int })
}

/// The word of the given size read from the first bytes of `bytes`, little endian.
pub open spec fn decode(size: Data, bytes: Seq<u8>) -> Data {
    match size {
        Data::B16(_) => Data::B16(spec_u16_from_le_bytes(bytes.subrange(0, 2)) as i16),
        Data::B32(_) => Data::B32(spec_u32_from_le_bytes(bytes.subrange(0, 4)) as i32),
        Data::B64(_) => Data::B64(spec_u64_from_le_bytes(bytes.subrange(0, 8)) as i64),
    }
}

impl Data {
    /// The number of bytes of a word of this size.
    pub open spec fn width(self) -> nat {
        match self {
            Data::B16(_) => 2,
            Data::B32(_) => 4,
            Data::B64(_) => 8,
        }
    }

    /// The value of the word as an integer.
    pub open spec fn value(self) -> int {
        match self {
            Data::B16(x) => x as int,
            Data::B32(x) => x as int,
            Data::B64(x) => x as int,
        }
    }

    /// Whether both words have the same size.
    pub open spec fn same_size(self, other: Data) -> bool {
        self.width() == other.width()
    }

    /// The little-endian bytes of the word.
    pub open spec fn encode(self) -> Seq<u8> {
        match self {
            Data::B16(x) => spec_u16_to_le_bytes(x as u16),
            Data::B32(x) => spec_u32_to_le_bytes(x as u32),
            Data::B64(x) => spec_u64_to_le_bytes(x as u64),
        }
    }

    /// The value of the word as an `i64`.
    pub fn i64(&self) -> (v: i64)
        ensures
            v as int == self.value(),
    {
        match *self {
            Data::B16(x) => x as i64,
            Data::B32(x) => x as i64,
            Data::B64(x) => x,
        }
    }

    /// The little-endian bytes of the word.
    pub fn to_bytes(&self) -> (bytes: Vec<u8>)
        ensures
            bytes@ == self.encode(),
            bytes@.len() == self.width(),
    {
        proof {
            lemma_encode_len(*self);
        }
        match *self {
            Data::B16(x) => u16_to_le_bytes(x as u16),
            Data::B32(x) => u32_to_le_bytes(x as u32),
            Data::B64(x) => u64_to_le_bytes(x as u64),
        }
    }

    /// The number of bytes of a word of this size.
    pub fn size(&self) -> (n: usize)
        ensures
            n == self.width(),
    {
        match *self {
            Data::B16(_) => 2,
            Data::B32(_) => 4,
            Data::B64(_) => 8,
        }
    }
}

impl From<Data> for i64 {
    fn from(d: Data) -> (v: i64) {
        d.i64()
    }
}

impl vstd::std_specs::convert::FromSpecImpl<Data> for i64 {
    open spec fn obeys_from_spec() -> bool {
        true
    }

    open spec fn from_spec(d: Data) -> i64 {
        d.value() as i64
    }
}

/// The word of the size of `size` with the value `v` cut down to that size.
pub fn make_word(size: &Data, v: i64) -> (d: Data)
    ensures
        d == word_of(*size, v as int),
{
    match *size {
        Data::B16(_) => Data::B16(v as i16),
        Data::B32(_) => Data::B32(v as i32),
        Data::B64(_) => Data::B64(v),
    }
}

/// Reads a word of the size of `size` from the first bytes of `bytes`.
pub fn decode_word(size: &Data, bytes: &[u8]) -> (d: Data)
    requires
        bytes@.len() >= size.width(),
    ensures
        d == decode(*size, bytes@),
{
    match *size {
        Data::B16(_) => {
            let b = vstd::slice::slice_subrange(bytes, 0, 2);
            Data::B16(u16_from_le_bytes(b) as i16)
        },
        Data::B32(_) => {
            let b = vstd::slice::slice_subrange(bytes, 0, 4);
            Data::B32(u32_from_le_bytes(b) as i32)
        },
        Data::B64(_) => {
            let b = vstd::slice::slice_subrange(bytes, 0, 8);
            Data::B64(u64_from_le_bytes(b) as i64)
        },
    }
}

/// The bytes of a word are as many as its size says.
pub proof fn lemma_encode_len(d: Data)
    ensures
        d.encode().len() == d.width(),
{
    lemma_auto_spec_u16_to_from_le_bytes();
    lemma_auto_spec_u32_to_from_le_bytes();
    lemma_auto_spec_u64_to_from_le_bytes();
}

/// Reading a word back from its bytes gives the word: what is written is what is read.
pub proof fn lemma_decode_encode(d: Data, rest: Seq<u8>)
    ensures
        decode(d, d.encode() + rest) == d,
        d.encode().len() == d.width(),
{
    lemma_auto_spec_u16_to_from_le_bytes();
    lemma_auto_spec_u32_to_from_le_bytes();
    lemma_auto_spec_u64_to_from_le_bytes();
    let e = d.encode();
    assert((e + rest).subrange(0, e.len() as int) =~= e);
    match d {
        Data::B16(x) => {
            assert((x as u16) as i16 == x) by (bit_vector);
        },
        Data::B32(x) => {
            assert((x as u32) as i32 == x) by (bit_vector);
        },
        Data::B64(x) => {
            assert((x as u64) as i64 == x) by (bit_vector);
        },
    }
}

/// A word made from its own value is that word.
pub proof fn lemma_word_of_value(d: Data)
    ensures
        word_of(d, d.value()) == d,
{
}

/// Cutting a value down to a word size and reading its value gives a value of that size
/// that agrees with the given value on all values the size can hold.
pub proof fn lemma_word_of_small(size: Data, v: int)
    requires
        size matches Data::B16(_) ==> i16::MIN <= v <= i16::MAX,
        size matches Data::B32(_) ==> i32::MIN <= v <= i32::MAX,
        size matches Data::B64(_) ==> i64::MIN <= v <= i64::MAX,
    ensures
        word_of(size, v).value() == v,
        word_of(size, v).same_size(size),
{
}

} // verus!
