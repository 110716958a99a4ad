//! Laying out a reply in the fixed-size output buffer.
use vstd::prelude::*;
use crate::header::{header_bytes, type_and_class_bytes, Header, TypeAndClass};

verus! {

/// The size of the query buffer and of the reply buffer.
pub const MAX_UDP_QUERY_SIZE: usize = 512;

/// `buf` with `value` written over it from `at` on.
pub open spec fn spliced(buf: Seq<u8>, at: int, value: Seq<u8>) -> Seq<u8> {
    buf.take(at) + value + buf.skip(at + value.len())
}

/// `n` zero bytes.
pub open spec fn zeros(n: nat) -> Seq<u8> {
    Seq::new(n, |i: int| 0u8)
}

/// The header a reply opens with: the query's id, the given flag word, one
/// question, one answer unless the reply reports an error, nothing else.
pub open spec fn reply_header(query: Header, flags: u16, error: bool) -> Header {
    Header {
        id: query.id,
        flags_and_codes: flags,
        qdcount: 1,
        ancount: if error { 0 } else { 1 },
        nscount: 0,
        arcount: 0,
    }
}

/// Writing right after what has been written so far, over zero bytes, adds
/// the new bytes to what has been written.
pub proof fn lemma_splice_after(written: Seq<u8>, n: nat, value: Seq<u8>)
    requires
        value.len() <= n,
    ensures
        spliced(written + zeros(n), written.len() as int, value) == (written + value) + zeros(
            (n - value.len()) as nat,
        ),
{
    assert(spliced(written + zeros(n), written.len() as int, value) =~= (written + value) + zeros(
        (n - value.len()) as nat,
    ));
}

/// Copies `value` into the buffer at the index and moves the index past it.
pub fn append_to_output_buffer(
    output_buffer: &mut [u8; MAX_UDP_QUERY_SIZE],
    value: &[u8],
    output_index: &mut usize,
)
    requires
        *old(output_index) + value@.len() <= MAX_UDP_QUERY_SIZE,
    ensures
        final(output_buffer)@ == spliced(old(output_buffer)@, *old(output_index) as int, value@),
        *final(output_index) == *old(output_index) + value@.len(),
{
    let start = *output_index;
    let ghost original = output_buffer@;
    let mut i: usize = 0;
    while i < value.len()
        invariant
            i <= value@.len(),
            start + value@.len() <= MAX_UDP_QUERY_SIZE,
            original.len() == MAX_UDP_QUERY_SIZE,
            output_buffer@ =~= original.take(start as int) + value@.take(i as int) + original.skip(
                start + i,
            ),
        decreases value@.len() - i,
    {
        output_buffer[start + i] = value[i];
        i = i + 1;
        assert(output_buffer@ =~= original.take(start as int) + value@.take(i as int)
            + original.skip(start + i));
    }
    assert(value@.take(value@.len() as int) =~= value@);
    *output_index = start + value.len();
}

/// Clears the buffer and writes the reply header into it; returns the index
/// just past the header.
pub fn write_out_header_data(
    error: bool,
    response_buffer: &mut [u8; MAX_UDP_QUERY_SIZE],
    header: &Header,
    response_flags_and_codes: u16,
) -> (r: usize)
    ensures
        r == 12,
        final(response_buffer)@ == header_bytes(reply_header(*header, response_flags_and_codes, error))
            + zeros(500),
{
    let ancount: u16 = if error { 0 } else { 1 };
    let response_header = Header {
        id: header.id,
        flags_and_codes: response_flags_and_codes,
        qdcount: 1,
        ancount: ancount,
        nscount: 0,
        arcount: 0,
    };
    let mut i: usize = 0;
    while i < MAX_UDP_QUERY_SIZE
        invariant
            i <= MAX_UDP_QUERY_SIZE,
            response_buffer@.len() == MAX_UDP_QUERY_SIZE,
            forall|j: int| 0 <= j < i ==> response_buffer@[j] == 0u8,
        decreases MAX_UDP_QUERY_SIZE - i,
    {
        response_buffer[i] = 0;
        i = i + 1;
    }
    assert(response_buffer@ =~= zeros(512));
    let mut index: usize = 0;
    let bytes = response_header.as_bytes();
    append_to_output_buffer(response_buffer, bytes.as_slice(), &mut index);
    assert(response_buffer@ =~= header_bytes(reply_header(*header, response_flags_and_codes, error))
        + zeros(500));
    index
}

/// Writes the question's name and its type and class at the index and moves
/// the index past them.
pub fn write_out_qname_data(
    response_buffer: &mut [u8; MAX_UDP_QUERY_SIZE],
    type_and_class: &TypeAndClass,
    output_index: &mut usize,
    raw_qname_as_bytes: &[u8],
)
    requires
        *old(output_index) + raw_qname_as_bytes@.len() + 4 <= MAX_UDP_QUERY_SIZE,
    ensures
        final(response_buffer)@ == spliced(
            old(response_buffer)@,
            *old(output_index) as int,
            raw_qname_as_bytes@ + type_and_class_bytes(*type_and_class),
        ),
        *final(output_index) == *old(output_index) + raw_qname_as_bytes@.len() + 4,
{
    let ghost start = *output_index as int;
    let ghost original = response_buffer@;
    append_to_output_buffer(response_buffer, raw_qname_as_bytes, output_index);
    let tc = type_and_class.as_bytes();
    append_to_output_buffer(response_buffer, tc.as_slice(), output_index);
    assert(response_buffer@ =~= spliced(
        original,
        start,
        raw_qname_as_bytes@ + type_and_class_bytes(*type_and_class),
    ));
}

/// Writing `first` and then `second` right after it writes the two joined.
pub proof fn appends_compose(buf: Seq<u8>, at: int, first: Seq<u8>, second: Seq<u8>)
    requires
        0 <= at,
        at + first.len() + second.len() <= buf.len(),
    ensures
        spliced(spliced(buf, at, first), at + first.len(), second) == spliced(
            buf,
            at,
            first + second,
        ),
{
    assert(spliced(spliced(buf, at, first), at + first.len(), second) =~= spliced(
        buf,
        at,
        first + second,
    ));
}

} // verus!
