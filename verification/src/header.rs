//! The twelve-byte message header and the four-byte question tail.
use vstd::prelude::*;
use crate::flags::{AA_MASK, QR_MASK, RA_MASK, RCODE_MASK, RD_MASK, TC_MASK};
use crate::wire::{be16, be16_value, u16_from_network_bytes, u16_to_network_bytes};

verus! {

/// The six 16-bit words that open every message.
#[derive(PartialEq, Eq, Structural, Debug, Clone, Copy)]
pub struct Header {
    pub id: u16,
    pub flags_and_codes: u16,
    pub qdcount: u16,
    pub ancount: u16,
    pub nscount: u16,
    pub arcount: u16,
}

/// The header's bytes as they stand on the wire.
pub open spec fn header_bytes(h: Header) -> Seq<u8> {
    be16(h.id) + be16(h.flags_and_codes) + be16(h.qdcount) + be16(h.ancount) + be16(h.nscount)
        + be16(h.arcount)
}

/// The header that the first twelve bytes of `b` spell.
pub open spec fn parse_header(b: Seq<u8>) -> Header {
    Header {
        id: be16_value(b[0], b[1]),
        flags_and_codes: be16_value(b[2], b[3]),
        qdcount: be16_value(b[4], b[5]),
        ancount: be16_value(b[6], b[7]),
        nscount: be16_value(b[8], b[9]),
        arcount: be16_value(b[10], b[11]),
    }
}

fn read_word(bytes: &[u8], at: usize) -> (r: u16)
    requires
        at + 2 <= bytes.len(),
    ensures
        r == be16_value(bytes@[at as int], bytes@[at + 1]),
{
    u16_from_network_bytes([bytes[at], bytes[at + 1]])
}

fn write_word(out: &mut Vec<u8>, x: u16)
    ensures
        final(out)@ == old(out)@ + be16(x),
{
    let b = u16_to_network_bytes(x);
    out.push(b[0]);
    out.push(b[1]);
    assert(final(out)@ =~= old(out)@ + be16(x));
}

impl Header {
    /// Reads the header from the first twelve bytes of a message.
    pub fn read_from(bytes: &[u8]) -> (h: Header)
        requires
            bytes.len() >= 12,
        ensures
            h == parse_header(bytes@),
    {
        Header {
            id: read_word(bytes, 0),
            flags_and_codes: read_word(bytes, 2),
            qdcount: read_word(bytes, 4),
            ancount: read_word(bytes, 6),
            nscount: read_word(bytes, 8),
            arcount: read_word(bytes, 10),
        }
    }

    /// The header's twelve bytes in network order.
    pub fn as_bytes(&self) -> (r: Vec<u8>)
        ensures
            r@ == header_bytes(*self),
    {
        let mut out: Vec<u8> = Vec::new();
        write_word(&mut out, self.id);
        write_word(&mut out, self.flags_and_codes);
        write_word(&mut out, self.qdcount);
        write_word(&mut out, self.ancount);
        write_word(&mut out, self.nscount);
        write_word(&mut out, self.arcount);
        out
    }

    pub fn qr(&self) -> (r: bool)
        ensures
            r == (self.flags_and_codes & QR_MASK != 0),
    {
        (self.flags_and_codes & QR_MASK) != 0
    }

    /// The four-bit operation-code field, bits 11 to 14 of the flag word.
    pub fn opcode(&self) -> (r: u8)
        ensures
            r == ((self.flags_and_codes >> 11u16) & 0xFu16) as u8,
    {
        ((self.flags_and_codes >> 11u16) & 0xFu16) as u8
    }

    pub fn aa(&self) -> (r: bool)
        ensures
            r == (self.flags_and_codes & AA_MASK != 0),
    {
        (self.flags_and_codes & AA_MASK) != 0
    }

    pub fn tc(&self) -> (r: bool)
        ensures
            r == (self.flags_and_codes & TC_MASK != 0),
    {
        (self.flags_and_codes & TC_MASK) != 0
    }

    pub fn rd(&self) -> (r: bool)
        ensures
            r == (self.flags_and_codes & RD_MASK != 0),
    {
        (self.flags_and_codes & RD_MASK) != 0
    }

    pub fn ra(&self) -> (r: bool)
        ensures
            r == (self.flags_and_codes & RA_MASK != 0),
    {
        (self.flags_and_codes & RA_MASK) != 0
    }

    /// The four-bit response-code field, bits 0 to 3 of the flag word.
    pub fn rcode(&self) -> (r: u8)
        ensures
            r == (self.flags_and_codes & RCODE_MASK) as u8,
    {
        (self.flags_and_codes & RCODE_MASK) as u8
    }
}

/// Reading a header back from its bytes gives the header.
pub proof fn header_roundtrip(h: Header)
    ensures
        parse_header(header_bytes(h)) == h,
{
    let b = header_bytes(h);
    assert(b[0] == be16(h.id)[0] && b[1] == be16(h.id)[1]);
    assert(b[2] == be16(h.flags_and_codes)[0] && b[3] == be16(h.flags_and_codes)[1]);
    assert(b[4] == be16(h.qdcount)[0] && b[5] == be16(h.qdcount)[1]);
    assert(b[6] == be16(h.ancount)[0] && b[7] == be16(h.ancount)[1]);
    assert(b[8] == be16(h.nscount)[0] && b[9] == be16(h.nscount)[1]);
    assert(b[10] == be16(h.arcount)[0] && b[11] == be16(h.arcount)[1]);
}

/// The type and class words that close a question.
#[derive(PartialEq, Eq, Structural, Debug, Clone, Copy)]
pub struct TypeAndClass {
    pub query_type: u16,
    pub query_class: u16,
}

/// The question tail's bytes as they stand on the wire.
pub open spec fn type_and_class_bytes(t: TypeAndClass) -> Seq<u8> {
    be16(t.query_type) + be16(t.query_class)
}

/// The question tail that the first four bytes of `b` spell.
pub open spec fn parse_type_and_class(b: Seq<u8>) -> TypeAndClass {
    TypeAndClass { query_type: be16_value(b[0], b[1]), query_class: be16_value(b[2], b[3]) }
}

impl TypeAndClass {
    /// Reads the type and class from the four bytes at `at`.
    pub fn read_from(bytes: &[u8], at: usize) -> (t: TypeAndClass)
        requires
            at + 4 <= bytes.len(),
        ensures
            t == parse_type_and_class(bytes@.subrange(at as int, at + 4)),
    {
        TypeAndClass { query_type: read_word(bytes, at), query_class: read_word(bytes, at + 2) }
    }

    /// The four bytes in network order.
    pub fn as_bytes(&self) -> (r: Vec<u8>)
        ensures
            r@ == type_and_class_bytes(*self),
    {
        let mut out: Vec<u8> = Vec::new();
        write_word(&mut out, self.query_type);
        write_word(&mut out, self.query_class);
        out
    }
}

} // verus!
