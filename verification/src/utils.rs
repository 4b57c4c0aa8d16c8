//! The byte source that the decoders read from, and reads of fixed-width
//! big-endian numbers.

use crate::smf::SMFError;
use vstd::arithmetic::div_mod::lemma_fundamental_div_mod_converse;
use vstd::prelude::*;

verus! {

/// A forward-only cursor over a block of bytes: the one source that every
/// decoder reads from. Its view is the bytes that have not been read yet.
/// A read that fails consumes nothing.
#[derive(Clone, Copy, Debug)]
pub struct ByteReader<'a> {
    data: &'a [u8],
    pos: usize,
}

impl<'a> View for ByteReader<'a> {
    type V = Seq<u8>;

    /// The bytes that have not been consumed yet.
    closed spec fn view(&self) -> Seq<u8> {
        self.data@.skip(self.pos as int)
    }
}

impl<'a> ByteReader<'a> {
    #[verifier::type_invariant]
    closed spec fn inv(self) -> bool {
        self.pos <= self.data@.len()
    }

    /// A reader positioned at the start of `data`.
    pub fn new(data: &'a [u8]) -> (reader: Self)
        ensures
            reader@ == data@,
    {
        ByteReader { data, pos: 0 }
    }

    /// The number of bytes left.
    pub fn remaining(&self) -> (n: usize)
        ensures
            n == self@.len(),
    {
        proof {
            use_type_invariant(self);
        }
        self.data.len() - self.pos
    }

    /// The next byte, without consuming it.
    pub fn peek(&self) -> (b: Option<u8>)
        ensures
            b == (if self@.len() > 0 { Some(self@[0]) } else { None }),
    {
        proof {
            use_type_invariant(self);
        }
        if self.pos < self.data.len() {
            Some(self.data[self.pos])
        } else {
            None
        }
    }

    /// Consumes the next byte and returns it.
    pub fn read_u8(&mut self) -> (result: Result<u8, SMFError>)
        ensures
            old(self)@.len() > 0 ==> {
                &&& result == Ok::<u8, SMFError>(old(self)@[0])
                &&& final(self)@ == old(self)@.skip(1)
            },
            old(self)@.len() == 0 ==> {
                &&& result == Err::<u8, SMFError>(SMFError::IoError)
                &&& *final(self) == *old(self)
            },
    {
        match self.peek() {
            Some(byte) => {
                self.advance(1);
                Ok(byte)
            },
            None => Err(SMFError::IoError),
        }
    }

    /// Consumes `n` bytes.
    fn advance(&mut self, n: usize)
        requires
            n <= old(self)@.len(),
        ensures
            final(self)@ == old(self)@.skip(n as int),
    {
        proof {
            use_type_invariant(&*self);
            assert(self.data.len() == self.data@.len());
        }
        self.pos = self.pos + n;
    }
}

/// Fills `data` with the next bytes of `reader`, or fails where fewer are
/// left. Returns the number of bytes read.
pub fn read_all(reader: &mut ByteReader, data: &mut [u8]) -> (result: Result<usize, SMFError>)
    ensures
        old(reader)@.len() >= old(data)@.len() ==> {
            &&& result == Ok::<usize, SMFError>(old(data)@.len() as usize)
            &&& final(data)@ == old(reader)@.take(old(data)@.len() as int)
            &&& final(reader)@ == old(reader)@.skip(old(data)@.len() as int)
        },
        old(reader)@.len() < old(data)@.len() ==> {
            &&& result == Err::<usize, SMFError>(SMFError::IoError)
            &&& final(data)@ == old(data)@
            &&& *final(reader) == *old(reader)
        },
{
    let n = data.len();
    if reader.remaining() < n {
        return Err(SMFError::IoError);
    }
    let ghost start = reader@;
    let mut i: usize = 0;
    while i < n
        invariant
            i <= n,
            n == data@.len(),
            n <= start.len(),
            reader@ == start.skip(i as int),
            data@.take(i as int) == start.take(i as int),
        decreases n - i,
    {
        let b = reader.peek().unwrap();
        reader.advance(1);
        data[i] = b;
        i = i + 1;
    }
    Ok(n)
}

/// The number that `bytes` spells in base 256, most significant byte first.
pub open spec fn big_endian_value(bytes: Seq<u8>) -> nat
    decreases bytes.len(),
{
    if bytes.len() == 0 {
        0
    } else {
        big_endian_value(bytes.drop_last()) * 256 + bytes.last() as nat
    }
}

/// A big-endian number of `bytes.len()` digits is below `256^len`; spelled
/// out for the widths the file format uses.
pub proof fn lemma_big_endian_bound(bytes: Seq<u8>)
    ensures
        bytes.len() <= 2 ==> big_endian_value(bytes) <= 0xffff,
        bytes.len() <= 3 ==> big_endian_value(bytes) <= 0xff_ffff,
        bytes.len() <= 4 ==> big_endian_value(bytes) <= 0xffff_ffff,
{
    reveal_with_fuel(big_endian_value, 5);
}

/// Reads four bytes as a number, most significant byte first.
pub fn read_big_endian_u32(reader: &mut ByteReader) -> (result: Result<u32, SMFError>)
    ensures
        old(reader)@.len() >= 4 ==> {
            &&& result == Ok::<u32, SMFError>(big_endian_value(old(reader)@.take(4)) as u32)
            &&& final(reader)@ == old(reader)@.skip(4)
        },
        old(reader)@.len() < 4 ==> {
            &&& result == Err::<u32, SMFError>(SMFError::IoError)
            &&& *final(reader) == *old(reader)
        },
{
    let mut data_arr = [0u8; 4];
    read_all(reader, &mut data_arr)?;
    let mut data: u32 = 0;
    let mut i: usize = 0;
    while i < 4
        invariant
            i <= 4,
            data == big_endian_value(data_arr@.take(i as int)),
        decreases 4 - i,
    {
        proof {
            assert(data_arr@.take(i + 1).drop_last() == data_arr@.take(i as int));
            lemma_big_endian_bound(data_arr@.take(i as int));
            lemma_big_endian_bound(data_arr@.take(i + 1));
        }
        data = data * 256 + data_arr[i] as u32;
        i = i + 1;
    }
    assert(data_arr@.take(4) == data_arr@);
    Ok(data)
}

/// Reads two bytes as a number, most significant byte first.
pub fn read_big_endian_u16(reader: &mut ByteReader) -> (result: Result<u16, SMFError>)
    ensures
        old(reader)@.len() >= 2 ==> {
            &&& result == Ok::<u16, SMFError>(big_endian_value(old(reader)@.take(2)) as u16)
            &&& final(reader)@ == old(reader)@.skip(2)
        },
        old(reader)@.len() < 2 ==> {
            &&& result == Err::<u16, SMFError>(SMFError::IoError)
            &&& *final(reader) == *old(reader)
        },
{
    let mut data_arr = [0u8; 2];
    read_all(reader, &mut data_arr)?;
    let mut data: u16 = 0;
    let mut i: usize = 0;
    while i < 2
        invariant
            i <= 2,
            data == big_endian_value(data_arr@.take(i as int)),
        decreases 2 - i,
    {
        proof {
            assert(data_arr@.take(i + 1).drop_last() == data_arr@.take(i as int));
            lemma_big_endian_bound(data_arr@.take(i as int));
            lemma_big_endian_bound(data_arr@.take(i + 1));
        }
        data = data * 256 + data_arr[i] as u16;
        i = i + 1;
    }
    assert(data_arr@.take(2) == data_arr@);
    Ok(data)
}

/// Shifting a 32-bit number up by one byte and adding a byte is the same
/// step on the unbounded number, reduced to 32 bits.
proof fn lemma_shift_in_byte(value: nat, data: u32, byte: u8)
    requires
        data == value % 0x1_0000_0000,
    ensures
        (data << 8) + byte <= u32::MAX,
        (data << 8) + byte == (value * 256 + byte) % 0x1_0000_0000,
{
    let high = value / 0x1_0000_0000;
    assert(data << 8 == (data % 0x100_0000) * 256) by (bit_vector);
    let kept = (data % 0x100_0000) as nat;
    let lost = (data / 0x100_0000) as nat;
    let sum = kept * 256 + byte;
    assert(value * 256 + byte == (high * 256 + lost) * 0x1_0000_0000 + sum);
    lemma_fundamental_div_mod_converse(
        (value * 256 + byte) as int,
        0x1_0000_0000,
        (high * 256 + lost) as int,
        sum as int,
    );
}

/// The number that the bytes spell, most significant byte first; of a
/// number that takes more than four bytes, the low 32 bits.
pub fn vector_to_big_endian_u32(data_arr: &mut Vec<u8>) -> (data: u32)
    ensures
        final(data_arr)@ == old(data_arr)@,
        data == big_endian_value(old(data_arr)@) % 0x1_0000_0000,
        old(data_arr)@.len() <= 4 ==> data == big_endian_value(old(data_arr)@),
{
    let mut data: u32 = 0;
    let mut i: usize = 0;
    while i < data_arr.len()
        invariant
            i <= data_arr@.len(),
            data == big_endian_value(data_arr@.take(i as int)) % 0x1_0000_0000,
        decreases data_arr@.len() - i,
    {
        proof {
            assert(data_arr@.take(i + 1).drop_last() == data_arr@.take(i as int));
            lemma_shift_in_byte(
                big_endian_value(data_arr@.take(i as int)),
                data,
                data_arr@[i as int],
            );
        }
        data = (data << 8) + data_arr[i] as u32;
        i = i + 1;
    }
    proof {
        assert(data_arr@.take(i as int) == data_arr@);
        lemma_big_endian_bound(data_arr@);
    }
    data
}

/// Reads the next `length` bytes, or fails where fewer are left.
pub fn read_vector(reader: &mut ByteReader, length: u32) -> (result: Result<Vec<u8>, SMFError>)
    ensures
        old(reader)@.len() >= length ==> {
            &&& result matches Ok(data)
            &&& data@ == old(reader)@.take(length as int)
            &&& final(reader)@ == old(reader)@.skip(length as int)
        },
        old(reader)@.len() < length ==> {
            &&& result == Err::<Vec<u8>, SMFError>(SMFError::IoError)
            &&& *final(reader) == *old(reader)
        },
{
    if reader.remaining() < length as usize {
        return Err(SMFError::IoError);
    }
    let mut data: Vec<u8> = vec![0; length as usize];
    read_all(reader, data.as_mut_slice())?;
    Ok(data)
}

} // verus!
