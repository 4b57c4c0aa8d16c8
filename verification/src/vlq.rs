//! Variable-length quantities: numbers written seven bits to a byte, most
//! significant group first, with the high bit set on every byte but the last.

use crate::smf::SMFError;
use vstd::arithmetic::div_mod::lemma_div_denominator;
use vstd::prelude::*;

verus! {

/// The number that the low seven bits of each byte spell in base 128, most
/// significant byte first.
pub open spec fn vlq_value(bytes: Seq<u8>) -> nat
    decreases bytes.len(),
{
    if bytes.len() == 0 {
        0
    } else {
        vlq_value(bytes.drop_last()) * 128 + (bytes.last() % 128) as nat
    }
}

/// Whether the quantity that `bytes` starts with takes exactly `n` bytes:
/// byte `n - 1` is the first one without the continuation bit.
pub open spec fn vlq_ends_at(bytes: Seq<u8>, n: int) -> bool {
    &&& 0 < n <= bytes.len()
    &&& bytes[n - 1] < 0x80
    &&& forall|i: int| 0 <= i < n - 1 ==> bytes[i] >= 0x80
}

/// The quantity that `bytes` starts with and the number of bytes it takes.
/// There is none where the number does not fit in 32 bits, and none where
/// the bytes end before the quantity does.
pub open spec fn parse_vlq(bytes: Seq<u8>) -> Result<(u32, nat), SMFError> {
    if exists|n: int| vlq_ends_at(bytes, n) {
        let n = choose|n: int| vlq_ends_at(bytes, n);
        let value = vlq_value(bytes.take(n));
        if value <= u32::MAX {
            Ok((value as u32, n as nat))
        } else {
            Err(SMFError::VlqOverflow)
        }
    } else if vlq_value(bytes) <= u32::MAX {
        Err(SMFError::IoError)
    } else {
        Err(SMFError::VlqOverflow)
    }
}

/// A quantity ends in one place only.
pub proof fn lemma_vlq_end_unique(bytes: Seq<u8>, n: int, m: int)
    requires
        vlq_ends_at(bytes, n),
        vlq_ends_at(bytes, m),
    ensures
        n == m,
{
    if n < m {
        assert(bytes[n - 1] >= 0x80);
    } else if m < n {
        assert(bytes[m - 1] >= 0x80);
    }
}

/// What `parse_vlq` gives for a quantity known to end after `n` bytes.
pub proof fn lemma_parse_vlq_terminated(bytes: Seq<u8>, n: int)
    requires
        vlq_ends_at(bytes, n),
    ensures
        vlq_value(bytes.take(n)) <= u32::MAX ==> parse_vlq(bytes) == Ok::<(u32, nat), SMFError>(
            (vlq_value(bytes.take(n)) as u32, n as nat),
        ),
        vlq_value(bytes.take(n)) > u32::MAX ==> parse_vlq(bytes) == Err::<(u32, nat), SMFError>(
            SMFError::VlqOverflow,
        ),
{
    let chosen = choose|n: int| vlq_ends_at(bytes, n);
    lemma_vlq_end_unique(bytes, n, chosen);
}

/// What `parse_vlq` gives where every byte has the continuation bit.
pub proof fn lemma_parse_vlq_unterminated(bytes: Seq<u8>)
    requires
        forall|i: int| 0 <= i < bytes.len() ==> bytes[i] >= 0x80,
    ensures
        vlq_value(bytes) <= u32::MAX ==> parse_vlq(bytes) == Err::<(u32, nat), SMFError>(
            SMFError::IoError,
        ),
        vlq_value(bytes) > u32::MAX ==> parse_vlq(bytes) == Err::<(u32, nat), SMFError>(
            SMFError::VlqOverflow,
        ),
{
    assert forall|n: int| !vlq_ends_at(bytes, n) by {
        if 0 < n <= bytes.len() {
            assert(bytes[n - 1] >= 0x80);
        }
    }
}

/// Reading further bytes never makes the number smaller.
pub proof fn lemma_vlq_value_grows(bytes: Seq<u8>, shorter: int, longer: int)
    requires
        0 <= shorter <= longer <= bytes.len(),
    ensures
        vlq_value(bytes.take(shorter)) <= vlq_value(bytes.take(longer)),
    decreases longer - shorter,
{
    if shorter < longer {
        lemma_vlq_value_grows(bytes, shorter, longer - 1);
        assert(bytes.take(longer).drop_last() == bytes.take(longer - 1));
        assert(vlq_value(bytes.take(longer - 1)) * 128 >= vlq_value(bytes.take(longer - 1)));
    }
}

/// A quantity whose first bytes already spell more than 32 bits is an
/// overflow, wherever it ends.
pub proof fn lemma_parse_vlq_overflow(bytes: Seq<u8>, n: int)
    requires
        0 < n <= bytes.len(),
        forall|i: int| 0 <= i < n - 1 ==> bytes[i] >= 0x80,
        vlq_value(bytes.take(n)) > u32::MAX,
    ensures
        parse_vlq(bytes) == Err::<(u32, nat), SMFError>(SMFError::VlqOverflow),
{
    if exists|m: int| vlq_ends_at(bytes, m) {
        let m = choose|m: int| vlq_ends_at(bytes, m);
        if m < n {
            assert(bytes[m - 1] >= 0x80);
        }
        lemma_vlq_value_grows(bytes, n, m);
    } else {
        lemma_vlq_value_grows(bytes, n, bytes.len() as int);
        assert(bytes.take(bytes.len() as int) == bytes);
    }
}

/// The bytes that spell `high` seven bits at a time with the continuation
/// bit set on each; none for 0.
pub open spec fn vlq_continuation(high: nat) -> Seq<u8>
    decreases high,
{
    if high == 0 {
        Seq::empty()
    } else {
        vlq_continuation(high / 128).push((0x80 + high % 128) as u8)
    }
}

/// The shortest way to write `value` as a variable-length quantity.
pub open spec fn vlq_encoding(value: nat) -> Seq<u8> {
    vlq_continuation(value / 128).push((value % 128) as u8)
}

/// The continuation bytes of `high` all carry the continuation bit and
/// spell `high`.
pub proof fn lemma_vlq_continuation(high: nat)
    ensures
        forall|i: int|
            0 <= i < vlq_continuation(high).len() ==> #[trigger] vlq_continuation(high)[i] >= 0x80,
        vlq_value(vlq_continuation(high)) == high,
    decreases high,
{
    if high != 0 {
        lemma_vlq_continuation(high / 128);
        let shorter = vlq_continuation(high / 128);
        let byte = (0x80 + high % 128) as u8;
        assert(shorter.push(byte).drop_last() == shorter);
    }
}

/// A number below `128^4` is written in at most four bytes, and no other is.
pub proof fn lemma_vlq_encoding_len(value: nat)
    ensures
        vlq_encoding(value).len() >= 1,
        vlq_encoding(value).len() <= 4 <==> value < 0x1000_0000,
        value <= u32::MAX ==> vlq_encoding(value).len() <= 5,
{
    reveal_with_fuel(vlq_continuation, 6);
}

/// Writing a number that fits in 32 bits and reading it back gives the
/// number, and the reading stops where the writing did, whatever follows.
pub proof fn lemma_vlq_round_trip(value: nat, rest: Seq<u8>)
    requires
        value <= u32::MAX,
    ensures
        parse_vlq(vlq_encoding(value) + rest) == Ok::<(u32, nat), SMFError>(
            (value as u32, vlq_encoding(value).len()),
        ),
{
    let written = vlq_encoding(value);
    let bytes = written + rest;
    let n = written.len() as int;
    lemma_vlq_continuation(value / 128);
    assert(written.drop_last() == vlq_continuation(value / 128));
    assert(bytes.take(n) == written);
    assert forall|i: int| 0 <= i < n - 1 implies bytes[i] >= 0x80 by {
        assert(bytes[i] == vlq_continuation(value / 128)[i]);
    }
    assert(vlq_ends_at(bytes, n));
    lemma_parse_vlq_terminated(bytes, n);
}

/// Every number that is written in at most four bytes is read back as
/// itself.
pub proof fn lemma_vlq_round_trip_short(value: nat)
    requires
        vlq_encoding(value).len() <= 4,
    ensures
        parse_vlq(vlq_encoding(value)) == Ok::<(u32, nat), SMFError>(
            (value as u32, vlq_encoding(value).len()),
        ),
{
    lemma_vlq_encoding_len(value);
    lemma_vlq_round_trip(value, Seq::empty());
}

/// Writes `value` as a variable-length quantity, in as few bytes as it takes.
pub fn encode_variable_len(value: u32) -> (bytes: Vec<u8>)
    ensures
        bytes@ == vlq_encoding(value as nat),
{
    let mut bytes: Vec<u8> = Vec::new();
    let mut divisor: u32 = 0x1000_0000;
    while divisor >= 128
        invariant
            divisor == 0x1000_0000 || divisor == 0x20_0000 || divisor == 0x4000 || divisor == 0x80
                || divisor == 1,
            bytes@ == vlq_continuation((value as nat / divisor as nat) / 128),
        decreases divisor,
    {
        let high = value / divisor;
        if high != 0 {
            bytes.push(0x80 + (high % 128) as u8);
        }
        proof {
            lemma_div_denominator(value as int, divisor as int / 128, 128);
        }
        divisor = divisor / 128;
    }
    bytes.push((value % 128) as u8);
    bytes
}

} // verus!
