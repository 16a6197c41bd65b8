//! The link layer frame checksum.
//!
//! The wire uses the reflected CRC-16-CCITT polynomial `0x8408` with the
//! nonstandard initial value `0x8408`; the conformance vectors pin this choice
//! bit-exactly.

use vstd::prelude::*;

verus! {

/// One shift step of the reflected CRC: divide by x, folding the polynomial
/// back in when a bit falls off the low end.
pub open spec fn crc16_shift(c: u16) -> u16 {
    if c & 1 == 1 {
        (c >> 1) ^ 0x8408
    } else {
        c >> 1
    }
}

/// `n` successive shift steps.
pub open spec fn crc16_shifts(c: u16, n: nat) -> u16
    decreases n,
{
    if n == 0 {
        c
    } else {
        crc16_shift(crc16_shifts(c, (n - 1) as nat))
    }
}

/// Folding one input byte into the running CRC.
pub open spec fn crc16_byte(c: u16, b: u8) -> u16 {
    crc16_shifts(c ^ (b as u16), 8)
}

/// The CRC of a whole byte sequence.
pub open spec fn crc16_spec(s: Seq<u8>) -> u16
    decreases s.len(),
{
    if s.len() == 0 {
        0x8408
    } else {
        crc16_byte(crc16_spec(s.drop_last()), s.last())
    }
}

/// Calculate the frame CRC of a byte slice.
pub fn crc16(data: &[u8]) -> (r: u16)
    ensures
        r == crc16_spec(data@),
{
    let mut c: u16 = 0x8408;
    let mut i: usize = 0;
    while i < data.len()
        invariant
            i <= data@.len(),
            c == crc16_spec(data@.take(i as int)),
        decreases data@.len() - i,
    {
        let b = data[i];
        c = c ^ (b as u16);
        let ghost start = c;
        let mut k: usize = 0;
        while k < 8
            invariant
                k <= 8,
                c == crc16_shifts(start, k as nat),
        decreases 8 - k,
        {
            if c & 1 == 1 {
                c = (c >> 1) ^ 0x8408;
            } else {
                c = c >> 1;
            }
            k = k + 1;
        }
        proof {
            assert(data@.take(i + 1).drop_last() =~= data@.take(i as int));
            assert(data@.take(i + 1).last() == data@[i as int]);
        }
        i = i + 1;
    }
    proof {
        assert(data@.take(data@.len() as int) =~= data@);
    }
    c
}

} // verus!
