//! Printable identifiers derived from hardware addresses.
//!
//! A hardware address renders as colon-separated uppercase hex octets. For
//! the module vendor's address prefix there is additionally a compact barcode
//! form: a leading nibble, a dash, the remaining nibbles with leading zeroes
//! skipped, and a one-letter checksum from a four-bit CRC.

use vstd::prelude::*;

use crate::pv::LongAddress;

verus! {

/// The uppercase hex digit for a nibble.
pub open spec fn hex_char(n: u8) -> char
    recommends
        n < 16,
{
    if n == 0 {
        '0'
    } else if n == 1 {
        '1'
    } else if n == 2 {
        '2'
    } else if n == 3 {
        '3'
    } else if n == 4 {
        '4'
    } else if n == 5 {
        '5'
    } else if n == 6 {
        '6'
    } else if n == 7 {
        '7'
    } else if n == 8 {
        '8'
    } else if n == 9 {
        '9'
    } else if n == 10 {
        'A'
    } else if n == 11 {
        'B'
    } else if n == 12 {
        'C'
    } else if n == 13 {
        'D'
    } else if n == 14 {
        'E'
    } else {
        'F'
    }
}

/// The two hex digits of a byte.
pub open spec fn byte_hex(b: u8) -> Seq<char> {
    seq![hex_char(b >> 4), hex_char(b & 0x0f)]
}

/// Colon-separated uppercase hex octets.
pub open spec fn hex_colon(bytes: Seq<u8>) -> Seq<char>
    decreases bytes.len(),
{
    if bytes.len() == 0 {
        Seq::empty()
    } else if bytes.len() == 1 {
        byte_hex(bytes[0])
    } else {
        byte_hex(bytes[0]) + seq![':'] + hex_colon(bytes.skip(1))
    }
}

/// Append one hex digit to a string.
fn push_hex_char(s: &mut String, n: u8)
    requires
        n < 16,
    ensures
        final(s)@ == old(s)@ + seq![hex_char(n)],
{
    let d = match n {
        0 => "0",
        1 => "1",
        2 => "2",
        3 => "3",
        4 => "4",
        5 => "5",
        6 => "6",
        7 => "7",
        8 => "8",
        9 => "9",
        10 => "A",
        11 => "B",
        12 => "C",
        13 => "D",
        14 => "E",
        _ => "F",
    };
    proof {
        reveal_strlit("0");
        reveal_strlit("1");
        reveal_strlit("2");
        reveal_strlit("3");
        reveal_strlit("4");
        reveal_strlit("5");
        reveal_strlit("6");
        reveal_strlit("7");
        reveal_strlit("8");
        reveal_strlit("9");
        reveal_strlit("A");
        reveal_strlit("B");
        reveal_strlit("C");
        reveal_strlit("D");
        reveal_strlit("E");
        reveal_strlit("F");
        assert(d@ =~= seq![hex_char(n)]);
    }
    s.append(d);
}

/// Append a byte's two hex digits to a string.
fn push_byte_hex(s: &mut String, b: u8)
    ensures
        final(s)@ == old(s)@ + byte_hex(b),
{
    proof {
        assert(b >> 4 < 16 && b & 0x0f < 16) by (bit_vector);
    }
    push_hex_char(s, b >> 4);
    push_hex_char(s, b & 0x0f);
    proof {
        assert(s@ =~= old(s)@ + byte_hex(b));
    }
}

/// Render a hardware address as colon-separated uppercase hex octets.
pub fn format_long_address(addr: &LongAddress) -> (r: String)
    ensures
        r@ == hex_colon(addr@),
{
    let mut s = String::new();
    let bytes: &[u8] = addr.0.as_slice();
    push_byte_hex(&mut s, bytes[0]);
    let mut i: usize = 1;
    while i < 8
        invariant
            1 <= i <= 8,
            bytes@ == addr@,
            bytes@.len() == 8,
            s@ == hex_colon(addr@.take(i as int)),
        decreases 8 - i,
    {
        let sep = ":";
        proof {
            reveal_strlit(":");
        }
        s.append(sep);
        push_byte_hex(&mut s, bytes[i]);
        proof {
            lemma_hex_colon_snoc(addr@.take(i + 1));
            assert(addr@.take(i + 1).drop_last() =~= addr@.take(i as int));
            assert(s@ =~= hex_colon(addr@.take(i + 1)));
        }
        i = i + 1;
    }
    proof {
        assert(addr@.take(8) =~= addr@);
    }
    s
}

/// Rendering one more byte appends a colon and its digits.
proof fn lemma_hex_colon_snoc(bytes: Seq<u8>)
    requires
        bytes.len() >= 2,
    ensures
        hex_colon(bytes) == hex_colon(bytes.drop_last()) + seq![':'] + byte_hex(bytes.last()),
    decreases bytes.len(),
{
    if bytes.len() == 2 {
        reveal_with_fuel(hex_colon, 3);
        assert(bytes.skip(1) =~= seq![bytes[1]]);
        assert(bytes.drop_last() =~= seq![bytes[0]]);
        assert(hex_colon(bytes) =~= hex_colon(bytes.drop_last()) + seq![':'] + byte_hex(
            bytes.last(),
        ));
    } else {
        lemma_hex_colon_snoc(bytes.skip(1));
        assert(bytes.skip(1).drop_last() =~= bytes.drop_last().skip(1));
        assert(bytes.skip(1).last() == bytes.last());
        assert(hex_colon(bytes) =~= hex_colon(bytes.drop_last()) + seq![':'] + byte_hex(
            bytes.last(),
        ));
    }
}

/// One shift step of the four-bit checksum: multiply by x modulo the
/// polynomial, over an eight-bit window.
pub open spec fn bc_shift(r: u8) -> u8 {
    if r & 0x80 == 0x80 {
        (((r * 2) % 256) as u8) ^ 0x30
    } else {
        ((r * 2) % 256) as u8
    }
}

/// `n` successive shift steps.
pub open spec fn bc_shifts(r: u8, n: nat) -> u8
    decreases n,
{
    if n == 0 {
        r
    } else {
        bc_shift(bc_shifts(r, (n - 1) as nat))
    }
}

/// Folding one byte into the running four-bit checksum.
pub open spec fn bc_byte(c: u8, b: u8) -> u8
    recommends
        c < 16,
{
    bc_shifts((b ^ (c * 16) as u8) as u8, 8) >> 4
}

/// The four-bit checksum of a byte sequence, starting from the fixed seed.
pub open spec fn bc_crc(bytes: Seq<u8>) -> u8
    decreases bytes.len(),
{
    if bytes.len() == 0 {
        2
    } else {
        bc_byte(bc_crc(bytes.drop_last()), bytes.last())
    }
}

/// The checksum letter for a four-bit value.
pub open spec fn bc_code_char(n: u8) -> char
    recommends
        n < 16,
{
    if n == 0 {
        'G'
    } else if n == 1 {
        'H'
    } else if n == 2 {
        'J'
    } else if n == 3 {
        'K'
    } else if n == 4 {
        'L'
    } else if n == 5 {
        'M'
    } else if n == 6 {
        'N'
    } else if n == 7 {
        'P'
    } else if n == 8 {
        'R'
    } else if n == 9 {
        'S'
    } else if n == 10 {
        'T'
    } else if n == 11 {
        'V'
    } else if n == 12 {
        'W'
    } else if n == 13 {
        'X'
    } else if n == 14 {
        'Y'
    } else {
        'Z'
    }
}

/// Every folded checksum stays a nibble.
proof fn lemma_bc_byte_bound(c: u8, b: u8)
    ensures
        bc_byte(c, b) < 16,
{
    assert(bc_shifts((b ^ (c * 16) as u8) as u8, 8) >> 4 < 16) by (bit_vector);
}

/// Compute the four-bit checksum of an address.
fn barcode_crc(addr: &LongAddress) -> (r: u8)
    ensures
        r == bc_crc(addr@),
        r < 16,
{
    let bytes: &[u8] = addr.0.as_slice();
    let mut c: u8 = 2;
    let mut i: usize = 0;
    while i < 8
        invariant
            i <= 8,
            bytes@ == addr@,
            bytes@.len() == 8,
            c == bc_crc(addr@.take(i as int)),
            c < 16,
        decreases 8 - i,
    {
        let b = bytes[i];
        let mut r: u8 = b ^ (c << 4);
        proof {
            assert(c < 16 ==> (c << 4) == (c * 16) as u8) by (bit_vector);
        }
        let ghost start = r;
        let mut k: usize = 0;
        while k < 8
            invariant
                k <= 8,
                r == bc_shifts(start, k as nat),
            decreases 8 - k,
        {
            if r & 0x80 == 0x80 {
                r = (r.wrapping_mul(2)) ^ 0x30;
            } else {
                r = r.wrapping_mul(2);
            }
            proof {
                assert(bc_shifts(start, (k + 1) as nat) == bc_shift(bc_shifts(start, k as nat)));
            }
            k = k + 1;
        }
        c = r >> 4;
        proof {
            lemma_bc_byte_bound(bc_crc(addr@.take(i as int)), b);
            assert(addr@.take(i + 1).drop_last() =~= addr@.take(i as int));
            assert(addr@.take(i + 1).last() == addr@[i as int]);
            assert(r >> 4 < 16) by (bit_vector);
        }
        i = i + 1;
    }
    proof {
        assert(addr@.take(8) =~= addr@);
    }
    c
}

/// The nibbles of the compact barcode body, highest first.
pub open spec fn bc_nibbles(a: Seq<u8>) -> Seq<u8>
    recommends
        a.len() == 8,
{
    seq![
        (a[3] & 0x0f) as u8,
        a[4] >> 4,
        (a[4] & 0x0f) as u8,
        a[5] >> 4,
        (a[5] & 0x0f) as u8,
        a[6] >> 4,
        (a[6] & 0x0f) as u8,
        a[7] >> 4,
        (a[7] & 0x0f) as u8,
    ]
}

/// The nibbles with their leading zeroes skipped.
pub open spec fn bc_skip_zeroes(ns: Seq<u8>) -> Seq<u8>
    decreases ns.len(),
{
    if ns.len() == 0 {
        Seq::empty()
    } else if ns[0] == 0 {
        bc_skip_zeroes(ns.skip(1))
    } else {
        ns
    }
}

/// Does the address carry the vendor prefix that has a compact barcode form?
pub open spec fn bc_has_prefix(a: Seq<u8>) -> bool {
    a.len() == 8 && a[0] == 0x04 && a[1] == 0xc0 && a[2] == 0x5b
}

/// The rendered barcode of an address: the compact form under the vendor
/// prefix, the plain hex form otherwise.
pub open spec fn barcode_chars(a: Seq<u8>) -> Seq<char>
    recommends
        a.len() == 8,
{
    if bc_has_prefix(a) {
        seq![hex_char(a[3] >> 4), '-'] + bc_skip_zeroes(bc_nibbles(a)).map_values(
            |n: u8| hex_char(n),
        ) + seq![bc_code_char(bc_crc(a))]
    } else {
        hex_colon(a)
    }
}

/// A derived printable identifier for a hardware address.
#[derive(Debug, Copy, Clone, Eq, PartialEq, Ord, PartialOrd)]
pub struct Barcode(pub LongAddress);

impl View for Barcode {
    type V = Seq<u8>;

    open spec fn view(&self) -> Seq<u8> {
        self.0@
    }
}

impl Barcode {
    /// Render the barcode.
    #[verifier::rlimit(60)]
    pub fn render(&self) -> (r: String)
        ensures
            r@ == barcode_chars(self@),
    {
        let a: &[u8] = self.0.0.as_slice();
        if !(a[0] == 0x04 && a[1] == 0xc0 && a[2] == 0x5b) {
            return format_long_address(&self.0);
        }
        let mut s = String::new();
        proof {
            let b3 = self@[3];
            assert(b3 >> 4 < 16) by (bit_vector);
        }
        push_hex_char(&mut s, a[3] >> 4);
        proof {
            reveal_strlit("-");
        }
        s.append("-");
        let nibbles: [u8; 9] = [
            a[3] & 0x0f,
            a[4] >> 4,
            a[4] & 0x0f,
            a[5] >> 4,
            a[5] & 0x0f,
            a[6] >> 4,
            a[6] & 0x0f,
            a[7] >> 4,
            a[7] & 0x0f,
        ];
        proof {
            assert(nibbles@ =~= bc_nibbles(self@));
        }
        let mut i: usize = 0;
        // Skip the leading zero nibbles.
        while i < 9 && nibbles[i] == 0
            invariant
                i <= 9,
                nibbles@ == bc_nibbles(self@),
                forall|j: int| 0 <= j < i ==> bc_nibbles(self@)[j] == 0,
            decreases 9 - i,
        {
            i = i + 1;
        }
        proof {
            lemma_bc_skip_zeroes_at(bc_nibbles(self@), i as int);
        }
        let ghost tail = bc_skip_zeroes(bc_nibbles(self@));
        let ghost base = s@;
        let start = i;
        while i < 9
            invariant
                start <= i <= 9,
                nibbles@ == bc_nibbles(self@),
                tail == bc_nibbles(self@).skip(start as int),
                s@ == base + tail.map_values(|n: u8| hex_char(n)).take(i - start),
            decreases 9 - i,
        {
            let n = nibbles[i];
            proof {
                let b3 = self@[3];
                let b4 = self@[4];
                let b5 = self@[5];
                let b6 = self@[6];
                let b7 = self@[7];
                assert(b3 & 0x0f < 16 && b4 >> 4 < 16 && b4 & 0x0f < 16 && b5 >> 4 < 16 && b5
                    & 0x0f < 16 && b6 >> 4 < 16 && b6 & 0x0f < 16 && b7 >> 4 < 16 && b7 & 0x0f
                    < 16) by (bit_vector);
                assert(forall|j: int|
                    0 <= j < bc_nibbles(self@).len() ==> (#[trigger] bc_nibbles(self@)[j]) < 16);
            }
            push_hex_char(&mut s, n);
            proof {
                assert(tail.map_values(|x: u8| hex_char(x)).take(i + 1 - start) =~= tail.map_values(
                    |x: u8| hex_char(x),
                ).take(i - start).push(hex_char(tail[i - start])));
                assert(s@ =~= base + tail.map_values(|x: u8| hex_char(x)).take(i + 1 - start));
            }
            i = i + 1;
        }
        proof {
            assert(tail.map_values(|x: u8| hex_char(x)).take(9 - start) =~= tail.map_values(
                |x: u8| hex_char(x),
            ));
        }
        let c = barcode_crc(&self.0);
        let code = match c {
            0 => "G",
            1 => "H",
            2 => "J",
            3 => "K",
            4 => "L",
            5 => "M",
            6 => "N",
            7 => "P",
            8 => "R",
            9 => "S",
            10 => "T",
            11 => "V",
            12 => "W",
            13 => "X",
            14 => "Y",
            _ => "Z",
        };
        proof {
            reveal_strlit("G");
            reveal_strlit("H");
            reveal_strlit("J");
            reveal_strlit("K");
            reveal_strlit("L");
            reveal_strlit("M");
            reveal_strlit("N");
            reveal_strlit("P");
            reveal_strlit("R");
            reveal_strlit("S");
            reveal_strlit("T");
            reveal_strlit("V");
            reveal_strlit("W");
            reveal_strlit("X");
            reveal_strlit("Y");
            reveal_strlit("Z");
            assert(code@ =~= seq![bc_code_char(c)]);
        }
        s.append(code);
        proof {
            assert(s@ =~= barcode_chars(self@));
        }
        s
    }
}

/// Skipping zeroes from a prefix of zero nibbles is skipping to the first
/// position that is nonzero, or to the end.
proof fn lemma_bc_skip_zeroes_at(ns: Seq<u8>, i: int)
    requires
        0 <= i <= ns.len(),
        forall|j: int| 0 <= j < i ==> ns[j] == 0,
        i < ns.len() ==> ns[i] != 0,
    ensures
        bc_skip_zeroes(ns) == ns.skip(i),
    decreases i,
{
    if i == 0 {
        assert(ns.skip(0) =~= ns);
    } else {
        assert(ns[0] == 0);
        lemma_bc_skip_zeroes_at(ns.skip(1), i - 1);
        assert(ns.skip(1).skip(i - 1) =~= ns.skip(i));
    }
}

} // verus!
