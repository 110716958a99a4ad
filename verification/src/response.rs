//! Deciding how to answer one query and laying the reply out.
use vstd::prelude::*;
use vstd::string::*;
use crate::buffer::{
    append_to_output_buffer, lemma_splice_after, reply_header, spliced, write_out_header_data,
    write_out_qname_data, zeros, MAX_UDP_QUERY_SIZE,
};
use crate::flags::{create_flags_and_codes, flags_word, HeaderFlag, RCode, QR_MASK};
use crate::header::{
    header_bytes, header_roundtrip, parse_header, parse_type_and_class, type_and_class_bytes,
    Header, TypeAndClass,
};
use crate::names::{QCLASS_IN, TYPE_TXT};
use crate::qname::{
    all_utf8, decoded, dot_join, lemma_end_after, name_end, name_labels, name_walk_ok, qname_fits, read_qname,
};
use crate::wire::{
    be16, be16_value, be16_value_roundtrip, be32, i32_to_network_bytes, u16_to_network_bytes,
};

verus! {

/// What `qr` reports of a query.
pub const QUERY: bool = false;
/// Where the question's name starts in a query.
pub const INITIAL_OFFSET: u8 = 12;
/// The flag bits a reply keeps from the query: the operation code and the
/// recursion-desired bit.
pub const COPIED_FLAGS_MASK: u16 = 0b0_1111_0_0_1_0_000_0000;
/// The pointer to the name at offset 12 that the answer record starts with.
pub const NAME_POINTER: u16 = 0b1100_0000_0000_1100;
/// How long the answer may be kept, in seconds.
pub const ANSWER_TTL: i32 = 86400;

/// The character with ASCII upper case mapped to lower case.
pub open spec fn ascii_lower(c: char) -> char {
    if 'A' <= c && c <= 'Z' {
        ((c as u32) + 32) as char
    } else {
        c
    }
}

/// The text with ASCII upper case mapped to lower case.
pub open spec fn ascii_lowercase(s: Seq<char>) -> Seq<char> {
    s.map_values(|c: char| ascii_lower(c))
}

/// Calls `str::eq_ignore_ascii_case`. Claimed, as its documentation says:
/// the two texts are equal once ASCII upper case is mapped to lower case.
#[verifier::external_body]
fn names_match(a: &str, b: &str) -> (r: bool)
    ensures
        r == (ascii_lowercase(a@) == ascii_lowercase(b@)),
{
    a.eq_ignore_ascii_case(b)
}

/// The flag word of a reply that reports an error about the header alone:
/// the query's flags with the response bit and the code added.
pub open spec fn basic_error_flags(query_flags: u16, reason: RCode) -> u16 {
    query_flags | (QR_MASK | reason.spec_value())
}

/// The flag word of a reply that reports an error about the question: the
/// query's operation code and recursion bit, the response bit and the code.
pub open spec fn qname_error_flags(query_flags: u16, reason: RCode) -> u16 {
    (query_flags & COPIED_FLAGS_MASK) | (QR_MASK | reason.spec_value())
}

/// The flag word of an answer: the query's operation code and recursion bit
/// and the response bit.
pub open spec fn answer_flags(query_flags: u16) -> u16 {
    (query_flags & COPIED_FLAGS_MASK) | QR_MASK
}

/// A reply that holds only a header.
pub open spec fn basic_error_reply(query: Header, reason: RCode) -> Seq<u8> {
    header_bytes(reply_header(query, basic_error_flags(query.flags_and_codes, reason), true))
}

/// A reply that repeats the question and answers nothing.
pub open spec fn qname_error_reply(query: Header, reason: RCode, question: Seq<u8>) -> Seq<u8> {
    header_bytes(reply_header(query, qname_error_flags(query.flags_and_codes, reason), true))
        + question
}

/// The text record that carries `message`: its length in one byte, then the
/// message.
pub open spec fn txt_rdata(message: Seq<u8>) -> Seq<u8> {
    seq![message.len() as u8] + message
}

/// A reply that repeats the question and answers it with one text record.
pub open spec fn answer_reply(query: Header, question: Seq<u8>, message: Seq<u8>) -> Seq<u8> {
    header_bytes(reply_header(query, answer_flags(query.flags_and_codes), false)) + question
        + be16(NAME_POINTER) + be16(TYPE_TXT) + be16(QCLASS_IN) + be32(ANSWER_TTL as u32) + be16(
        (message.len() + 1) as u16,
    ) + txt_rdata(message)
}

/// The reply to the query in `query`, when the server is set up to answer
/// the name `target` with `message`; `None` where it sends nothing.
pub open spec fn reply(query: Seq<u8>, target: Seq<char>, message: Seq<u8>) -> Option<Seq<u8>> {
    let h = parse_header(query);
    if h.flags_and_codes & QR_MASK == 0 {
        if h.qdcount == 1 {
            let labels = name_labels(query, 12);
            if !all_utf8(labels) {
                None
            } else {
                let name = dot_join(decoded(labels));
                let next = name_end(query, 12);
                let question = query.subrange(12, next + 4);
                let query_type = be16_value(query[next], query[next + 1]);
                if ascii_lowercase(name) != ascii_lowercase(target) || query_type != TYPE_TXT {
                    Some(qname_error_reply(h, RCode::Refused, question))
                } else {
                    Some(answer_reply(h, question, message))
                }
            }
        } else if h.qdcount == 0 {
            Some(basic_error_reply(h, RCode::FormatError))
        } else {
            Some(basic_error_reply(h, RCode::Refused))
        }
    } else {
        Some(basic_error_reply(h, RCode::Refused))
    }
}

/// The query can be handled within the limits of the buffers: the walk over
/// its name stays within `u8` offsets up to where it stops, and an answer fits
/// in 512 bytes.
pub open spec fn reply_defined(query: Seq<u8>, target: Seq<char>, message: Seq<u8>) -> bool {
    let h = parse_header(query);
    let labels = name_labels(query, 12);
    let next = name_end(query, 12);
    (h.flags_and_codes & QR_MASK == 0 && h.qdcount == 1) ==> {
        &&& name_walk_ok(query, 12)
        &&& (all_utf8(labels) && ascii_lowercase(dot_join(decoded(labels))) == ascii_lowercase(
            target,
        ) && be16_value(query[next], query[next + 1]) == TYPE_TXT) ==> next + 17 + message.len()
            <= MAX_UDP_QUERY_SIZE
    }
}

proof fn lemma_error_flags(reason: RCode)
    ensures
        flags_word(seq![HeaderFlag::QR, HeaderFlag::RCODE(reason)]) == QR_MASK | reason.spec_value(),
{
    let s = seq![HeaderFlag::QR, HeaderFlag::RCODE(reason)];
    let one = seq![HeaderFlag::QR];
    assert(s.drop_last() =~= one);
    assert(one.drop_last() =~= Seq::<HeaderFlag>::empty());
    assert(flags_word(Seq::<HeaderFlag>::empty()) == 0);
    assert(flags_word(one) == flags_word(one.drop_last()) | one.last().contribution());
    assert(flags_word(one) == 0u16 | 0x8000u16);
    assert(0u16 | 0x8000u16 == 0x8000u16) by (bit_vector);
    assert(flags_word(s) == flags_word(s.drop_last()) | s.last().contribution());
}

/// Writes the reply to a query that is refused on its header alone; returns
/// the reply's length.
pub fn respond_with_basic_error(
    reason: RCode,
    input_header: &Header,
    response_buffer: &mut [u8; MAX_UDP_QUERY_SIZE],
) -> (r: usize)
    ensures
        r == 12,
        final(response_buffer)@ == basic_error_reply(*input_header, reason) + zeros(500),
{
    let flags = vec![HeaderFlag::QR, HeaderFlag::RCODE(reason)];
    proof {
        lemma_error_flags(reason);
    }
    assert(flags@ =~= seq![HeaderFlag::QR, HeaderFlag::RCODE(reason)]);
    let response_flags_and_codes: u16 = input_header.flags_and_codes | create_flags_and_codes(
        flags.as_slice(),
    );
    write_out_header_data(true, response_buffer, input_header, response_flags_and_codes)
}

/// Writes the reply to a query whose question is refused: the header and the
/// question repeated; returns the reply's length.
pub fn respond_with_qname_error(
    reason: RCode,
    input_header: &Header,
    raw_query_name: &[u8],
    type_and_class: &TypeAndClass,
    response_buffer: &mut [u8; MAX_UDP_QUERY_SIZE],
) -> (r: usize)
    requires
        16 + raw_query_name@.len() <= MAX_UDP_QUERY_SIZE,
    ensures
        r == 16 + raw_query_name@.len(),
        final(response_buffer)@ == qname_error_reply(
            *input_header,
            reason,
            raw_query_name@ + type_and_class_bytes(*type_and_class),
        ) + zeros((MAX_UDP_QUERY_SIZE - r) as nat),
{
    let flags = vec![HeaderFlag::QR, HeaderFlag::RCODE(reason)];
    proof {
        lemma_error_flags(reason);
    }
    assert(flags@ =~= seq![HeaderFlag::QR, HeaderFlag::RCODE(reason)]);
    let response_flags_and_codes: u16 = (input_header.flags_and_codes & COPIED_FLAGS_MASK)
        | create_flags_and_codes(flags.as_slice());
    let mut output_index = write_out_header_data(
        true,
        response_buffer,
        input_header,
        response_flags_and_codes,
    );
    let ghost head = response_buffer@;
    write_out_qname_data(response_buffer, type_and_class, &mut output_index, raw_query_name);
    let ghost question = raw_query_name@ + type_and_class_bytes(*type_and_class);
    assert(response_buffer@ =~= qname_error_reply(*input_header, reason, question) + zeros(
        (MAX_UDP_QUERY_SIZE - output_index) as nat,
    ));
    output_index
}

/// The one record of an answer.
pub struct ResourceRecord {
    pub name_offset: u16,
    pub record_type: u16,
    pub record_class: u16,
    pub ttl: i32,
    pub record_length: u16,
    pub record_data: Vec<u8>,
}

fn append_word(
    output_buffer: &mut [u8; MAX_UDP_QUERY_SIZE],
    x: u16,
    output_index: &mut usize,
)
    requires
        *old(output_index) + 2 <= MAX_UDP_QUERY_SIZE,
    ensures
        final(output_buffer)@ == spliced(old(output_buffer)@, *old(output_index) as int, be16(x)),
        *final(output_index) == *old(output_index) + 2,
{
    let bytes = u16_to_network_bytes(x);
    append_to_output_buffer(output_buffer, bytes.as_slice(), output_index);
}

/// Writes the answer to a query for the configured name: the header, the
/// question repeated and one text record holding `message`; returns the
/// reply's length.
pub fn respond_with_answer(
    input_header: &Header,
    raw_query_name: &[u8],
    type_and_class: &TypeAndClass,
    message: &[u8],
    response_buffer: &mut [u8; MAX_UDP_QUERY_SIZE],
) -> (r: usize)
    requires
        29 + raw_query_name@.len() + message@.len() <= MAX_UDP_QUERY_SIZE,
    ensures
        r == 29 + raw_query_name@.len() + message@.len(),
        final(response_buffer)@ == answer_reply(
            *input_header,
            raw_query_name@ + type_and_class_bytes(*type_and_class),
            message@,
        ) + zeros((MAX_UDP_QUERY_SIZE - r) as nat),
{
    let qr_only = vec![HeaderFlag::QR];
    proof {
        let one = seq![HeaderFlag::QR];
        assert(qr_only@ =~= one);
        assert(one.drop_last() =~= Seq::<HeaderFlag>::empty());
        assert(flags_word(one) == flags_word(one.drop_last()) | one.last().contribution());
        assert(0u16 | 0x8000u16 == 0x8000u16) by (bit_vector);
    }
    let response_flags_and_codes: u16 = (input_header.flags_and_codes & COPIED_FLAGS_MASK)
        | create_flags_and_codes(qr_only.as_slice());
    let mut output_index = write_out_header_data(
        false,
        response_buffer,
        input_header,
        response_flags_and_codes,
    );
    let raw_qname_index = output_index;
    let ghost question = raw_query_name@ + type_and_class_bytes(*type_and_class);
    let ghost header = header_bytes(
        reply_header(*input_header, answer_flags(input_header.flags_and_codes), false),
    );
    proof {
        lemma_splice_after(header, 500, question);
    }
    write_out_qname_data(response_buffer, type_and_class, &mut output_index, raw_query_name);
    let ghost written = header + question;
    assert(response_buffer@ == written + zeros((MAX_UDP_QUERY_SIZE - output_index) as nat));

    let response_text_length: u8 = message.len() as u8;
    let mut response_data: Vec<u8> = Vec::new();
    response_data.push(response_text_length);
    let mut i: usize = 0;
    while i < message.len()
        invariant
            i <= message@.len(),
            response_data@ == seq![response_text_length] + message@.take(i as int),
        decreases message@.len() - i,
    {
        response_data.push(message[i]);
        i = i + 1;
        assert(response_data@ =~= seq![response_text_length] + message@.take(i as int));
    }
    assert(message@.take(message@.len() as int) =~= message@);
    assert(response_data@ == txt_rdata(message@));
    let answer_record = ResourceRecord {
        name_offset: 0b1100_0000_0000_0000u16 | (raw_qname_index as u16),
        record_type: TYPE_TXT,
        record_class: QCLASS_IN,
        ttl: ANSWER_TTL,
        record_length: response_data.len() as u16,
        record_data: response_data,
    };
    assert(0b1100_0000_0000_0000u16 | 12u16 == NAME_POINTER) by (bit_vector);

    proof {
        lemma_splice_after(written, (MAX_UDP_QUERY_SIZE - output_index) as nat, be16(NAME_POINTER));
    }
    append_word(response_buffer, answer_record.name_offset, &mut output_index);
    let ghost written = written + be16(NAME_POINTER);

    proof {
        lemma_splice_after(written, (MAX_UDP_QUERY_SIZE - output_index) as nat, be16(TYPE_TXT));
    }
    append_word(response_buffer, answer_record.record_type, &mut output_index);
    let ghost written = written + be16(TYPE_TXT);

    proof {
        lemma_splice_after(written, (MAX_UDP_QUERY_SIZE - output_index) as nat, be16(QCLASS_IN));
    }
    append_word(response_buffer, answer_record.record_class, &mut output_index);
    let ghost written = written + be16(QCLASS_IN);

    let ttl = i32_to_network_bytes(answer_record.ttl);
    proof {
        lemma_splice_after(written, (MAX_UDP_QUERY_SIZE - output_index) as nat, ttl@);
    }
    append_to_output_buffer(response_buffer, ttl.as_slice(), &mut output_index);
    let ghost written = written + be32(ANSWER_TTL as u32);

    let ghost length = be16((message@.len() + 1) as u16);
    proof {
        lemma_splice_after(written, (MAX_UDP_QUERY_SIZE - output_index) as nat, length);
    }
    append_word(response_buffer, answer_record.record_length, &mut output_index);
    let ghost written = written + length;

    proof {
        lemma_splice_after(
            written,
            (MAX_UDP_QUERY_SIZE - output_index) as nat,
            txt_rdata(message@),
        );
    }
    append_to_output_buffer(response_buffer, answer_record.record_data.as_slice(), &mut output_index);
    assert(written + txt_rdata(message@) =~= answer_reply(*input_header, question, message@));
    output_index
}

proof fn lemma_question_echoed(query: Seq<u8>, next: int, t: TypeAndClass)
    requires
        13 <= next,
        next + 4 <= query.len(),
        t == parse_type_and_class(query.subrange(next, next + 4)),
    ensures
        query.subrange(12, next) + type_and_class_bytes(t) == query.subrange(12, next + 4),
{
    be16_value_roundtrip(query[next], query[next + 1]);
    be16_value_roundtrip(query[next + 2], query[next + 3]);
    assert(query.subrange(12, next) + type_and_class_bytes(t) =~= query.subrange(12, next + 4));
}

/// Handles one query: writes the reply into `output_buffer` and returns its
/// length, or returns `None` and leaves the buffer alone where no reply is
/// sent.
pub fn answer_query(
    query_buffer: &[u8; MAX_UDP_QUERY_SIZE],
    target_qname: &str,
    message: &str,
    output_buffer: &mut [u8; MAX_UDP_QUERY_SIZE],
) -> (r: Option<usize>)
    requires
        reply_defined(query_buffer@, target_qname@, message.spec_bytes()),
    ensures
        match reply(query_buffer@, target_qname@, message.spec_bytes()) {
            None => r is None && final(output_buffer)@ == old(output_buffer)@,
            Some(bytes) => r == Some(bytes.len() as usize) && bytes.len() <= MAX_UDP_QUERY_SIZE
                && final(output_buffer)@ == bytes + zeros((MAX_UDP_QUERY_SIZE - bytes.len()) as nat),
        },
{
    let input_header = Header::read_from(query_buffer.as_slice());
    if input_header.qr() == QUERY {
        if input_header.qdcount == 1 {
        } else if input_header.qdcount == 0 {
            return Some(respond_with_basic_error(RCode::FormatError, &input_header, output_buffer));
        } else {
            return Some(respond_with_basic_error(RCode::Refused, &input_header, output_buffer));
        }
        let (qname, next_offset) = match read_qname(INITIAL_OFFSET, query_buffer) {
            Ok((qname, next_offset)) => (qname, next_offset),
            Err(_) => {
                return None;
            },
        };
        proof {
            lemma_end_after(query_buffer@, 12);
        }
        let raw_query_name = &query_buffer[INITIAL_OFFSET as usize..next_offset];
        let type_and_class = TypeAndClass::read_from(query_buffer.as_slice(), next_offset);
        proof {
            lemma_question_echoed(query_buffer@, next_offset as int, type_and_class);
        }
        if !names_match(qname.as_str(), target_qname) || type_and_class.query_type != TYPE_TXT {
            return Some(
                respond_with_qname_error(
                    RCode::Refused,
                    &input_header,
                    raw_query_name,
                    &type_and_class,
                    output_buffer,
                ),
            );
        }
        let response_text = message.as_bytes();
        Some(
            respond_with_answer(
                &input_header,
                raw_query_name,
                &type_and_class,
                response_text,
                output_buffer,
            ),
        )
    } else {
        Some(respond_with_basic_error(RCode::Refused, &input_header, output_buffer))
    }
}

/// Handles one query as `answer_query` does, where the query can be handled
/// within the limits of the buffers; returns `None`, leaving the buffer
/// alone, where it cannot.
pub fn try_answer_query(
    query_buffer: &[u8; MAX_UDP_QUERY_SIZE],
    target_qname: &str,
    message: &str,
    output_buffer: &mut [u8; MAX_UDP_QUERY_SIZE],
) -> (r: Option<Option<usize>>)
    ensures
        r is None <==> !reply_defined(query_buffer@, target_qname@, message.spec_bytes()),
        r is None ==> final(output_buffer)@ == old(output_buffer)@,
        r matches Some(sent) ==> match reply(query_buffer@, target_qname@, message.spec_bytes()) {
            None => sent is None && final(output_buffer)@ == old(output_buffer)@,
            Some(bytes) => sent == Some(bytes.len() as usize) && final(output_buffer)@ == bytes
                + zeros((MAX_UDP_QUERY_SIZE - bytes.len()) as nat),
        },
{
    let input_header = Header::read_from(query_buffer.as_slice());
    if input_header.qr() == QUERY && input_header.qdcount == 1 {
        if !qname_fits(INITIAL_OFFSET, query_buffer) {
            return None;
        }
        if let Ok((qname, next_offset)) = read_qname(INITIAL_OFFSET, query_buffer) {
            proof {
                lemma_end_after(query_buffer@, 12);
            }
            let type_and_class = TypeAndClass::read_from(query_buffer.as_slice(), next_offset);
            let matches = names_match(qname.as_str(), target_qname);
            let is_txt = type_and_class.query_type == TYPE_TXT;
            let too_long = message.as_bytes().len() > MAX_UDP_QUERY_SIZE - 17 - next_offset;
            if matches && is_txt && too_long {
                return None;
            }
        }
    }
    Some(answer_query(query_buffer, target_qname, message, output_buffer))
}

proof fn lemma_header_prefix(h: Header, rest: Seq<u8>)
    ensures
        parse_header(header_bytes(h) + rest) == h,
{
    header_roundtrip(h);
    let b = header_bytes(h);
    assert(b.len() == 12);
    assert forall|i: int| 0 <= i < 12 implies (b + rest)[i] == b[i] by {}
}

/// The query is a question, with one question, for the text record of the
/// name `target`.
pub open spec fn asks_for_configured_text(query: Seq<u8>, target: Seq<char>) -> bool {
    let h = parse_header(query);
    let labels = name_labels(query, 12);
    let next = name_end(query, 12);
    &&& h.flags_and_codes & QR_MASK == 0
    &&& h.qdcount == 1
    &&& all_utf8(labels)
    &&& ascii_lowercase(dot_join(decoded(labels))) == ascii_lowercase(target)
    &&& be16_value(query[next], query[next + 1]) == TYPE_TXT
}

/// The header at the start of the reply to `query`, when there is one.
pub open spec fn reply_header_of(query: Seq<u8>, target: Seq<char>, message: Seq<u8>) -> Header {
    parse_header(reply(query, target, message)->0)
}

/// The flag word of the reply to `query`, by the kind of reply.
pub open spec fn reply_flags(query: Seq<u8>, target: Seq<char>) -> u16 {
    let h = parse_header(query);
    let f = h.flags_and_codes;
    if f & QR_MASK == 0 && h.qdcount == 1 {
        if asks_for_configured_text(query, target) {
            answer_flags(f)
        } else {
            qname_error_flags(f, RCode::Refused)
        }
    } else if f & QR_MASK == 0 && h.qdcount == 0 {
        basic_error_flags(f, RCode::FormatError)
    } else {
        basic_error_flags(f, RCode::Refused)
    }
}

/// The reply's header is the reply header for its kind, and a reply after a
/// question repeats the question and, in an answer, the record follows it.
proof fn lemma_reply_layout(query: Seq<u8>, target: Seq<char>, message: Seq<u8>)
    requires
        reply(query, target, message) is Some,
    ensures
        ({
            let h = parse_header(query);
            let b = reply(query, target, message)->0;
            let hd = reply_header(
                h,
                reply_flags(query, target),
                !asks_for_configured_text(query, target),
            );
            &&& b.take(12) == header_bytes(hd)
            &&& reply_header_of(query, target, message) == hd
        }),
{
    let h = parse_header(query);
    let b = reply(query, target, message)->0;
    let hd = reply_header(h, reply_flags(query, target), !asks_for_configured_text(query, target));
    assert(b =~= header_bytes(hd) + b.skip(12));
    assert(b.take(12) =~= header_bytes(hd));
    lemma_header_prefix(hd, b.skip(12));
}

/// Every reply carries the query's id, is marked as a response, and holds one
/// question and no authority or additional records.
pub proof fn reply_echoes_id_and_is_a_response(
    query: Seq<u8>,
    target: Seq<char>,
    message: Seq<u8>,
)
    requires
        reply(query, target, message) is Some,
    ensures
        reply_header_of(query, target, message).id == parse_header(query).id,
        reply_header_of(query, target, message).flags_and_codes & QR_MASK != 0,
        reply_header_of(query, target, message).qdcount == 1,
        reply_header_of(query, target, message).nscount == 0,
        reply_header_of(query, target, message).arcount == 0,
{
    lemma_reply_layout(query, target, message);
    let f = parse_header(query).flags_and_codes;
    assert(forall|v: u16| #![auto] (f | (0x8000u16 | v)) & 0x8000u16 != 0) by (bit_vector);
    assert(forall|v: u16| #![auto] ((f & 0x7900u16) | (0x8000u16 | v)) & 0x8000u16 != 0)
        by (bit_vector);
    assert(((f & 0x7900u16) | 0x8000u16) & 0x8000u16 != 0) by (bit_vector);
}

/// A reply holds an answer exactly when the query asks for the text record of
/// the configured name, and the answer then ends with the message after its
/// length byte.
pub proof fn answers_exactly_the_configured_name(
    query: Seq<u8>,
    target: Seq<char>,
    message: Seq<u8>,
)
    requires
        reply(query, target, message) is Some,
    ensures
        reply_header_of(query, target, message).ancount == 1 <==> asks_for_configured_text(
            query,
            target,
        ),
        asks_for_configured_text(query, target) ==> ({
            let b = reply(query, target, message)->0;
            b.skip(b.len() - message.len() - 1) == txt_rdata(message)
        }),
{
    lemma_reply_layout(query, target, message);
    let b = reply(query, target, message)->0;
    if asks_for_configured_text(query, target) {
        assert(b.skip(b.len() - message.len() - 1) =~= txt_rdata(message));
    }
}

/// A query whose one question is not for the text record of the configured
/// name is refused: the reply's code reads Refused, and after the header the
/// reply repeats the question as it was received.
pub proof fn refused_question_is_echoed(query: Seq<u8>, target: Seq<char>, message: Seq<u8>)
    requires
        reply(query, target, message) is Some,
        parse_header(query).flags_and_codes & QR_MASK == 0,
        parse_header(query).qdcount == 1,
        !asks_for_configured_text(query, target),
    ensures
        reply_header_of(query, target, message).flags_and_codes & crate::flags::RCODE_MASK
            == RCode::Refused.spec_value(),
        reply(query, target, message)->0.skip(12) == query.subrange(12, name_end(query, 12) + 4),
{
    lemma_reply_layout(query, target, message);
    let f = parse_header(query).flags_and_codes;
    assert(((f & 0x7900u16) | (0x8000u16 | 5u16)) & 0x000fu16 == 5u16) by (bit_vector);
    let b = reply(query, target, message)->0;
    assert(b.skip(12) =~= query.subrange(12, name_end(query, 12) + 4));
}

/// The configured name is matched without regard to ASCII case: two names
/// that differ only in it get the same replies.
pub proof fn configured_name_ignores_ascii_case(
    query: Seq<u8>,
    first: Seq<char>,
    second: Seq<char>,
    message: Seq<u8>,
)
    requires
        ascii_lowercase(first) == ascii_lowercase(second),
    ensures
        reply(query, first, message) == reply(query, second, message),
        reply_defined(query, first, message) == reply_defined(query, second, message),
{
}

/// Only a name that is not valid UTF-8 goes unanswered: every query with the
/// response bit clear and one question whose labels are valid UTF-8 gets a
/// reply, and every other message gets one too.
pub proof fn only_an_unreadable_name_goes_unanswered(
    query: Seq<u8>,
    target: Seq<char>,
    message: Seq<u8>,
)
    ensures
        reply(query, target, message) is None <==> ({
            let h = parse_header(query);
            &&& h.flags_and_codes & 0x8000u16 == 0
            &&& h.qdcount == 1
            &&& !all_utf8(name_labels(query, 12))
        }),
{
}

/// Every reply to a query with one question repeats that question right after
/// the header, byte for byte as it was received: the answer as much as the
/// refusal.
pub proof fn reply_repeats_the_question_as_received(
    query: Seq<u8>,
    target: Seq<char>,
    message: Seq<u8>,
)
    requires
        query.len() == MAX_UDP_QUERY_SIZE,
        name_walk_ok(query, 12),
        reply(query, target, message) is Some,
        parse_header(query).flags_and_codes & 0x8000u16 == 0,
        parse_header(query).qdcount == 1,
    ensures
        ({
            let b = reply(query, target, message)->0;
            let end = name_end(query, 12) + 4;
            &&& end <= b.len()
            &&& b.subrange(12, end) == query.subrange(12, end)
        }),
{
    let b = reply(query, target, message)->0;
    let next = name_end(query, 12);
    let question = query.subrange(12, next + 4);
    lemma_end_after(query, 12);
    assert(b.subrange(12, next + 4) =~= question);
}

/// The answer laid out for a question holds, right after its twelve-byte
/// header, the question exactly as given.
pub proof fn answer_holds_the_question_as_given(
    query: Header,
    question: Seq<u8>,
    message: Seq<u8>,
)
    ensures
        answer_reply(query, question, message).subrange(12, 12 + question.len() as int) == question,
{
    assert(answer_reply(query, question, message).subrange(12, 12 + question.len() as int) =~= question);
}

proof fn lemma_low_code(x: u16)
    ensures
        (((x % 256) as u8) & 0x0fu8) == (x & 0x000fu16) as u8,
{
    assert((((x % 256) as u8) & 0x0fu8) == (x & 0x000fu16) as u8) by (bit_vector);
}

/// The reply that refuses a question reports the reason it is given: the low
/// four bits of its fourth byte are the reason's code (NoError 0, FormatError
/// 1, ServerFailure 2, NameError 3, NotImplemented 4, Refused 5), and the
/// response bit is set.
pub proof fn refusal_reports_its_reason(query: Header, reason: RCode, question: Seq<u8>)
    ensures
        ({
            let b = qname_error_reply(query, reason, question);
            &&& b[2] & 0x80u8 != 0
            &&& reason == RCode::NoError ==> b[3] & 0x0fu8 == 0
            &&& reason == RCode::FormatError ==> b[3] & 0x0fu8 == 1
            &&& reason == RCode::ServerFailure ==> b[3] & 0x0fu8 == 2
            &&& reason == RCode::NameError ==> b[3] & 0x0fu8 == 3
            &&& reason == RCode::NotImplemented ==> b[3] & 0x0fu8 == 4
            &&& reason == RCode::Refused ==> b[3] & 0x0fu8 == 5
        }),
{
    let f = query.flags_and_codes;
    let x = qname_error_flags(f, reason);
    lemma_low_code(x);
    let v = reason.spec_value();
    assert(v <= 5);
    assert(v <= 5 ==> ((f & 0x7900u16) | (0x8000u16 | v)) & 0x000fu16 == v) by (bit_vector);
    assert(((((f & 0x7900u16) | (0x8000u16 | v)) / 256) as u8) & 0x80u8 != 0) by (bit_vector);
}

/// The header-only error reply carries, as its flag word, the query's flags
/// with the response bit and the reason's code (NoError 0, FormatError 1,
/// ServerFailure 2, NameError 3, NotImplemented 4, Refused 5) added.
pub proof fn header_error_adds_its_reason(query: Header, reason: RCode)
    ensures
        ({
            let g = parse_header(basic_error_reply(query, reason)).flags_and_codes;
            let f = query.flags_and_codes;
            &&& reason == RCode::NoError ==> g == f | 0x8000u16 | 0u16
            &&& reason == RCode::FormatError ==> g == f | 0x8000u16 | 1u16
            &&& reason == RCode::ServerFailure ==> g == f | 0x8000u16 | 2u16
            &&& reason == RCode::NameError ==> g == f | 0x8000u16 | 3u16
            &&& reason == RCode::NotImplemented ==> g == f | 0x8000u16 | 4u16
            &&& reason == RCode::Refused ==> g == f | 0x8000u16 | 5u16
        }),
{
    let hd = reply_header(query, basic_error_flags(query.flags_and_codes, reason), true);
    lemma_header_prefix(hd, Seq::<u8>::empty());
    assert(header_bytes(hd) + Seq::<u8>::empty() =~= header_bytes(hd));
    let f = query.flags_and_codes;
    let v = reason.spec_value();
    assert(f | (0x8000u16 | v) == f | 0x8000u16 | v) by (bit_vector);
}

} // verus!
