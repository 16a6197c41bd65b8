//! Link layer byte escaping.
//!
//! Seven byte values carry framing or radio significance and may not appear
//! bare inside a frame body. Each is written as `0x7E` followed by a one-byte
//! code; the trailer code `0x08` and the preamble terminator `0x07` are
//! reserved and never produced by escaping.

use vstd::prelude::*;

verus! {

/// The escape marker byte.
pub const ESCAPE_BYTE: u8 = 0x7e;

/// Does this byte value require escaping on the wire?
pub open spec fn is_special(b: u8) -> bool {
    b == 0x7e || b == 0x23 || b == 0x24 || b == 0x25 || b == 0xa3 || b == 0xa4 || b == 0xa5
}

/// The escape code written after `0x7E` for a special byte.
pub open spec fn escape_code(b: u8) -> u8 {
    if b == 0x7e {
        0x00
    } else if b == 0x24 {
        0x01
    } else if b == 0x23 {
        0x02
    } else if b == 0x25 {
        0x03
    } else if b == 0xa4 {
        0x04
    } else if b == 0xa3 {
        0x05
    } else {
        0x06
    }
}

/// Is this a valid escape code, and if so, which byte does it stand for?
pub open spec fn is_escape_code(c: u8) -> bool {
    c <= 0x06
}

/// The byte value a valid escape code stands for.
pub open spec fn unescape_code(c: u8) -> u8 {
    if c == 0x00 {
        0x7e
    } else if c == 0x01 {
        0x24
    } else if c == 0x02 {
        0x23
    } else if c == 0x03 {
        0x25
    } else if c == 0x04 {
        0xa4
    } else if c == 0x05 {
        0xa3
    } else {
        0xa5
    }
}

/// The wire form of a single byte: itself, or marker plus code.
pub open spec fn escape_byte(b: u8) -> Seq<u8> {
    if is_special(b) {
        seq![ESCAPE_BYTE, escape_code(b)]
    } else {
        seq![b]
    }
}

/// The wire form of a byte sequence.
pub open spec fn escape_seq(s: Seq<u8>) -> Seq<u8>
    decreases s.len(),
{
    if s.len() == 0 {
        Seq::empty()
    } else {
        escape_byte(s[0]) + escape_seq(s.skip(1))
    }
}

/// A sequence is properly escaped when every special byte in it occurs as a
/// marker immediately followed by a valid code. Only such sequences can have
/// been produced by [`escape_seq`].
pub open spec fn properly_escaped(s: Seq<u8>) -> bool
    decreases s.len(),
{
    if s.len() == 0 {
        true
    } else if s[0] == ESCAPE_BYTE {
        s.len() >= 2 && is_escape_code(s[1]) && properly_escaped(s.skip(2))
    } else {
        !is_special(s[0]) && properly_escaped(s.skip(1))
    }
}

/// The bytes a properly escaped sequence stands for.
pub open spec fn unescape_seq(s: Seq<u8>) -> Seq<u8>
    recommends
        properly_escaped(s),
    decreases s.len(),
{
    if s.len() == 0 {
        Seq::empty()
    } else if s[0] == ESCAPE_BYTE {
        if s.len() >= 2 {
            seq![unescape_code(s[1])] + unescape_seq(s.skip(2))
        } else {
            Seq::empty()
        }
    } else {
        seq![s[0]] + unescape_seq(s.skip(1))
    }
}

/// Unescaping inverts escaping: decoding the wire form of any byte sequence
/// yields that sequence back, and the wire form is always properly escaped.
pub proof fn lemma_unescape_escape(s: Seq<u8>)
    ensures
        properly_escaped(escape_seq(s)),
        unescape_seq(escape_seq(s)) == s,
    decreases s.len(),
{
    if s.len() == 0 {
        assert(unescape_seq(escape_seq(s)) =~= s);
    } else {
        lemma_unescape_escape(s.skip(1));
        let e = escape_seq(s);
        if is_special(s[0]) {
            assert(e =~= seq![ESCAPE_BYTE, escape_code(s[0])] + escape_seq(s.skip(1)));
            assert(e.skip(2) =~= escape_seq(s.skip(1)));
            assert(unescape_code(escape_code(s[0])) == s[0]);
            assert(unescape_seq(e) =~= s);
        } else {
            assert(e =~= seq![s[0]] + escape_seq(s.skip(1)));
            assert(e.skip(1) =~= escape_seq(s.skip(1)));
            assert(unescape_seq(e) =~= s);
        }
    }
}

/// Escaping inverts unescaping on properly escaped input: any sequence in
/// which every special byte stands inside a marker-code pair re-encodes to
/// itself. (A sequence holding a raw special byte other than the marker, such
/// as a lone `0xA3`, is not properly escaped, and re-encoding expands it.)
pub proof fn lemma_escape_unescape(s: Seq<u8>)
    requires
        properly_escaped(s),
    ensures
        escape_seq(unescape_seq(s)) == s,
    decreases s.len(),
{
    if s.len() == 0 {
        assert(escape_seq(unescape_seq(s)) =~= s);
    } else if s[0] == ESCAPE_BYTE {
        lemma_escape_unescape(s.skip(2));
        let u = unescape_seq(s);
        assert(u =~= seq![unescape_code(s[1])] + unescape_seq(s.skip(2)));
        assert(u[0] == unescape_code(s[1]));
        assert(u.skip(1) =~= unescape_seq(s.skip(2)));
        assert(is_special(u[0]) && escape_code(u[0]) == s[1]);
        assert(escape_seq(u) =~= s);
    } else {
        lemma_escape_unescape(s.skip(1));
        let u = unescape_seq(s);
        assert(u =~= seq![s[0]] + unescape_seq(s.skip(1)));
        assert(u.skip(1) =~= unescape_seq(s.skip(1)));
        assert(escape_seq(u) =~= s);
    }
}

/// Append the escaped form of `input` to `output`.
pub fn escape(input: &[u8], output: &mut Vec<u8>)
    ensures
        final(output)@ == old(output)@ + escape_seq(input@),
{
    let mut i: usize = 0;
    while i < input.len()
        invariant
            i <= input@.len(),
            output@ == old(output)@ + escape_seq(input@.take(i as int)),
        decreases input@.len() - i,
    {
        let b = input[i];
        if b == 0x7e {
            output.push(0x7e);
            output.push(0x00);
        } else if b == 0x24 {
            output.push(0x7e);
            output.push(0x01);
        } else if b == 0x23 {
            output.push(0x7e);
            output.push(0x02);
        } else if b == 0x25 {
            output.push(0x7e);
            output.push(0x03);
        } else if b == 0xa4 {
            output.push(0x7e);
            output.push(0x04);
        } else if b == 0xa3 {
            output.push(0x7e);
            output.push(0x05);
        } else if b == 0xa5 {
            output.push(0x7e);
            output.push(0x06);
        } else {
            output.push(b);
        }
        proof {
            lemma_escape_seq_snoc(input@.take(i + 1));
            assert(input@.take(i + 1).drop_last() =~= input@.take(i as int));
        }
        i = i + 1;
    }
    proof {
        assert(input@.take(input@.len() as int) =~= input@);
    }
}

/// Escaping a sequence is escaping all but the last byte, then the last.
pub proof fn lemma_escape_seq_snoc(s: Seq<u8>)
    requires
        s.len() > 0,
    ensures
        escape_seq(s) == escape_seq(s.drop_last()) + escape_byte(s.last()),
    decreases s.len(),
{
    if s.len() == 1 {
        assert(escape_seq(s.drop_last()) =~= Seq::<u8>::empty());
        assert(escape_seq(s) =~= escape_byte(s[0]) + escape_seq(s.skip(1)));
        assert(s.skip(1) =~= Seq::<u8>::empty());
        assert(escape_seq(s) =~= escape_seq(s.drop_last()) + escape_byte(s.last()));
    } else {
        lemma_escape_seq_snoc(s.skip(1));
        assert(s.skip(1).drop_last() =~= s.drop_last().skip(1));
        assert(s.skip(1).last() == s.last());
        assert(escape_seq(s) =~= escape_byte(s[0]) + escape_seq(s.skip(1)));
        assert(escape_seq(s.drop_last()) =~= escape_byte(s[0]) + escape_seq(s.drop_last().skip(1)));
        assert(escape_seq(s) =~= escape_seq(s.drop_last()) + escape_byte(s.last()));
    }
}

/// Decode one byte following the escape marker, if its code is valid.
pub fn unescaped_byte(code: u8) -> (r: Option<u8>)
    ensures
        r is Some <==> is_escape_code(code),
        r is Some ==> r->0 == unescape_code(code),
{
    match code {
        0x00 => Some(0x7e),
        0x01 => Some(0x24),
        0x02 => Some(0x23),
        0x03 => Some(0x25),
        0x04 => Some(0xa4),
        0x05 => Some(0xa3),
        0x06 => Some(0xa5),
        _ => None,
    }
}

} // verus!
