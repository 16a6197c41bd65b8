//! Link layer value types and frame encoding.
//!
//! A frame on the wire is a direction-specific preamble, the escaped body
//! (address, type, payload and a little-endian CRC) and the `7E 08` trailer.

use vstd::prelude::*;

use crate::crc::{crc16, crc16_spec};
use crate::escape::{escape, escape_seq};

verus! {

/// Largest unescaped frame body (address, type, payload and CRC) the receiver
/// will buffer; longer frames force a resynchronization.
pub const MAX_BODY: usize = 512;

/// Largest payload a legal frame can carry: the body less the two address
/// bytes, two type bytes and two CRC bytes.
pub const MAX_PAYLOAD: usize = 506;

/// A gateway identifier is a 14-bit value; 0 and 0x3FFF are reserved.
pub open spec fn valid_gateway_id(v: u16) -> bool {
    1 <= v <= 0x3ffe
}

/// A 14-bit gateway identifier in the range `1..=0x3FFE`.
///
/// The reserved wire values 0 and `0x3FFF` are rejected at construction, so a
/// `GatewayID` held by observer state is always a real, assignable identifier.
#[derive(Debug, Copy, Clone, Eq, PartialEq, Ord, PartialOrd, Hash, Structural)]
pub struct GatewayID {
    id: u16,
}

/// The error returned when a gateway identifier is out of range.
#[derive(Debug, Copy, Clone, Eq, PartialEq, Structural)]
pub struct InvalidGatewayID(pub u16);

impl View for GatewayID {
    type V = u16;

    closed spec fn view(&self) -> u16 {
        self.id
    }
}

impl GatewayID {
    /// Every constructed identifier lies in the valid range.
    pub open spec fn wf(&self) -> bool {
        valid_gateway_id(self@)
    }

    /// Construct a gateway identifier, rejecting reserved and oversized values.
    pub fn new(value: u16) -> (r: Result<GatewayID, InvalidGatewayID>)
        ensures
            r is Ok <==> valid_gateway_id(value),
            r is Ok ==> r->Ok_0@ == value && r->Ok_0.wf(),
            r is Err ==> r->Err_0 == (InvalidGatewayID(value)),
    {
        if 1 <= value && value <= 0x3ffe {
            Ok(GatewayID { id: value })
        } else {
            Err(InvalidGatewayID(value))
        }
    }

    /// The numeric value of the identifier.
    pub fn get(&self) -> (r: u16)
        ensures
            r == self@,
    {
        self.id
    }
}

/// A link layer address: a direction and the raw 14-bit gateway identifier
/// field, exactly as it stands on the wire.
///
/// The field may hold the reserved values 0 and `0x3FFF` (enumeration uses the
/// all-zeroes address); [`Address::gateway_id`] narrows it to a validated
/// [`GatewayID`].
#[derive(Debug, Copy, Clone, Eq, PartialEq, Structural)]
pub enum Address {
    /// From the indicated gateway, to the controller.
    From(u16),
    /// To the indicated gateway, from the controller.
    To(u16),
}

/// An address is well formed when its identifier field fits in 14 bits.
pub open spec fn addr_wf(a: Address) -> bool {
    match a {
        Address::From(v) => v <= 0x3fff,
        Address::To(v) => v <= 0x3fff,
    }
}

/// The 16-bit wire form of an address: the direction in the top bit, the
/// identifier in the low 14 bits, bit 14 zero.
pub open spec fn addr_u16(a: Address) -> u16 {
    match a {
        Address::From(v) => (v & 0x3fff) | 0x8000,
        Address::To(v) => v & 0x3fff,
    }
}

/// Decoding an address from its 16-bit wire form: the top bit gives the
/// direction and the low 14 bits the identifier; bit 14 is ignored.
pub open spec fn addr_of_u16(v: u16) -> Address {
    if v & 0x8000 == 0x8000 {
        Address::From(v & 0x3fff)
    } else {
        Address::To(v & 0x3fff)
    }
}

/// Address decoding inverts address encoding.
pub proof fn lemma_addr_roundtrip(a: Address)
    requires
        addr_wf(a),
    ensures
        addr_of_u16(addr_u16(a)) == a,
{
    match a {
        Address::From(v) => {
            assert(v <= 0x3fff ==> ((v & 0x3fff) | 0x8000) & 0x8000 == 0x8000) by (bit_vector);
            assert(v <= 0x3fff ==> ((v & 0x3fff) | 0x8000) & 0x3fff == v) by (bit_vector);
        }
        Address::To(v) => {
            assert(v <= 0x3fff ==> (v & 0x3fff) & 0x8000 == 0) by (bit_vector);
            assert(v <= 0x3fff ==> (v & 0x3fff) & 0x3fff == v) by (bit_vector);
        }
    }
}

impl Address {
    /// The validated gateway identifier this address names, if it names one.
    pub fn gateway_id(&self) -> (r: Option<GatewayID>)
        ensures
            r is Some <==> valid_gateway_id(self.id_value()),
            r is Some ==> r->0@ == self.id_value() && r->0.wf(),
    {
        let v = match *self {
            Address::From(v) => v,
            Address::To(v) => v,
        };
        match GatewayID::new(v) {
            Ok(id) => Some(id),
            Err(_) => None,
        }
    }

    /// The raw identifier field, whatever direction the address has.
    pub open spec fn id_value(&self) -> u16 {
        match *self {
            Address::From(v) => v,
            Address::To(v) => v,
        }
    }

    /// Is this an address from a gateway towards the controller?
    pub fn is_from(&self) -> (r: bool)
        ensures
            r == (self is From),
    {
        match *self {
            Address::From(_) => true,
            Address::To(_) => false,
        }
    }
}

/// The high byte of a 16-bit big-endian field.
pub open spec fn u16_hi(v: u16) -> u8 {
    (v >> 8) as u8
}

/// The low byte of a 16-bit big-endian field.
pub open spec fn u16_lo(v: u16) -> u8 {
    (v & 0xff) as u8
}

/// A 16-bit value read from two big-endian bytes.
pub open spec fn u16_be(hi: u8, lo: u8) -> u16 {
    ((hi as u16) << 8) | (lo as u16)
}

/// Reading back the two big-endian bytes of a value yields the value.
pub proof fn lemma_u16_be_roundtrip(v: u16)
    ensures
        u16_be(u16_hi(v), u16_lo(v)) == v,
{
    assert((((v >> 8) as u8) as u16) << 8 | (((v & 0xff) as u8) as u16) == v) by (bit_vector);
}

/// A link layer frame type.
///
/// The protocol uses a closed set of request/response pairs, named by the
/// associated constants.
#[derive(Debug, Copy, Clone, Eq, PartialEq, Hash, Structural)]
pub struct Type(pub u16);

impl Type {
    pub const RECEIVE_REQUEST: u16 = 0x0148;

    pub const RECEIVE_RESPONSE: u16 = 0x0149;

    pub const COMMAND_REQUEST: u16 = 0x0b0f;

    pub const COMMAND_RESPONSE: u16 = 0x0b10;

    pub const PING_REQUEST: u16 = 0x0b00;

    pub const PING_RESPONSE: u16 = 0x0b01;

    pub const ENUMERATION_START_REQUEST: u16 = 0x0014;

    pub const ENUMERATION_START_RESPONSE: u16 = 0x0015;

    pub const ENUMERATION_REQUEST: u16 = 0x0038;

    pub const ENUMERATION_RESPONSE: u16 = 0x0039;

    pub const ASSIGN_GATEWAY_ID_REQUEST: u16 = 0x003c;

    pub const ASSIGN_GATEWAY_ID_RESPONSE: u16 = 0x003d;

    pub const IDENTIFY_REQUEST: u16 = 0x003a;

    pub const IDENTIFY_RESPONSE: u16 = 0x003b;

    pub const VERSION_REQUEST: u16 = 0x000a;

    pub const VERSION_RESPONSE: u16 = 0x000b;

    pub const ENUMERATION_END_REQUEST: u16 = 0x0e02;

    pub const ENUMERATION_END_RESPONSE: u16 = 0x0006;
}

/// A link layer frame: whose it is, what it is, and what it carries.
///
/// Every frame handed to the transport layer has already passed its CRC.
#[derive(Debug, Clone, Eq, PartialEq)]
pub struct Frame {
    pub address: Address,
    pub frame_type: Type,
    pub payload: Vec<u8>,
}

/// The mathematical shape of a frame.
#[verifier::ext_equal]
pub struct FrameView {
    pub address: Address,
    pub frame_type: u16,
    pub payload: Seq<u8>,
}

impl View for Frame {
    type V = FrameView;

    open spec fn view(&self) -> FrameView {
        FrameView { address: self.address, frame_type: self.frame_type.0, payload: self.payload@ }
    }
}

/// A frame is legal when its address is well formed and its payload fits the
/// receiver's body bound.
pub open spec fn frame_wf(f: FrameView) -> bool {
    addr_wf(f.address) && f.payload.len() <= MAX_PAYLOAD
}

/// The unescaped body of a frame: address, type, payload, little-endian CRC.
pub open spec fn frame_body(f: FrameView) -> Seq<u8> {
    let head = seq![
        u16_hi(addr_u16(f.address)),
        u16_lo(addr_u16(f.address)),
        u16_hi(f.frame_type),
        u16_lo(f.frame_type),
    ] + f.payload;
    head + seq![u16_lo(crc16_spec(head)), u16_hi(crc16_spec(head))]
}

/// The preamble introducing a frame in the given direction.
pub open spec fn preamble(a: Address) -> Seq<u8> {
    match a {
        Address::From(_) => seq![0xffu8, 0x7e, 0x07],
        Address::To(_) => seq![0x00u8, 0xff, 0xff, 0x7e, 0x07],
    }
}

/// The full wire form of a frame.
pub open spec fn encode_spec(f: FrameView) -> Seq<u8> {
    preamble(f.address) + escape_seq(frame_body(f)) + seq![0x7eu8, 0x08]
}

impl Frame {
    /// Do address and payload satisfy the frame bounds?
    pub open spec fn wf(&self) -> bool {
        frame_wf(self@)
    }

    /// Encode the frame for transmission, preamble and trailer included.
    pub fn encode(&self) -> (r: Vec<u8>)
        ensures
            r@ == encode_spec(self@),
    {
        let mut body: Vec<u8> = Vec::new();
        let a16: u16 = match self.address {
            Address::From(v) => (v & 0x3fff) | 0x8000,
            Address::To(v) => v & 0x3fff,
        };
        body.push((a16 >> 8) as u8);
        body.push((a16 & 0xff) as u8);
        body.push((self.frame_type.0 >> 8) as u8);
        body.push((self.frame_type.0 & 0xff) as u8);
        let ghost head0 = body@;
        let mut i: usize = 0;
        while i < self.payload.len()
            invariant
                i <= self.payload@.len(),
                body@ == head0 + self.payload@.take(i as int),
            decreases self.payload@.len() - i,
        {
            body.push(self.payload[i]);
            proof {
                assert(head0 + self.payload@.take(i + 1) =~= (head0 + self.payload@.take(
                    i as int,
                )).push(self.payload@[i as int]));
            }
            i = i + 1;
        }
        proof {
            assert(self.payload@.take(self.payload@.len() as int) =~= self.payload@);
            assert(body@ =~= seq![
                u16_hi(addr_u16(self@.address)),
                u16_lo(addr_u16(self@.address)),
                u16_hi(self@.frame_type),
                u16_lo(self@.frame_type),
            ] + self@.payload);
        }
        let crc = crc16(body.as_slice());
        body.push((crc & 0xff) as u8);
        body.push((crc >> 8) as u8);
        proof {
            assert((crc >> 8) as u8 == u16_hi(crc));
            assert(body@ =~= frame_body(self@));
        }

        let mut out: Vec<u8> = Vec::new();
        match self.address {
            Address::From(_) => {
                out.push(0xff);
                out.push(0x7e);
                out.push(0x07);
            }
            Address::To(_) => {
                out.push(0x00);
                out.push(0xff);
                out.push(0xff);
                out.push(0x7e);
                out.push(0x07);
            }
        }
        proof {
            assert(out@ =~= preamble(self@.address));
        }
        escape(body.as_slice(), &mut out);
        out.push(0x7e);
        out.push(0x08);
        proof {
            assert(out@ =~= encode_spec(self@));
        }
        out
    }
}

} // verus!
