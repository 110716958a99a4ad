use blog_dns_d::buffer::{
    append_to_output_buffer, write_out_header_data, write_out_qname_data, MAX_UDP_QUERY_SIZE,
};
use blog_dns_d::flags::{create_flags_and_codes, HeaderFlag, OpCode, RCode};
use blog_dns_d::header::{Header, TypeAndClass};
use blog_dns_d::names::{query_class_to_string_slice, query_type_to_string_slice};
use blog_dns_d::qname::{qname_fits, read_qname, QnameError};
use blog_dns_d::response::{
    answer_query, respond_with_basic_error, respond_with_qname_error, try_answer_query,
};

fn encode_name(name: &str) -> Vec<u8> {
    let mut out = Vec::new();
    if !name.is_empty() {
        for label in name.split('.') {
            out.push(label.len() as u8);
            out.extend_from_slice(label.as_bytes());
        }
    }
    out.push(0);
    out
}

fn query(id: u16, flags: u16, qdcount: u16, name: &[u8], qtype: u16, qclass: u16) -> [u8; 512] {
    let mut buf = [0u8; 512];
    let words = [id, flags, qdcount, 0, 0, 0];
    for (i, w) in words.iter().enumerate() {
        buf[2 * i] = (w >> 8) as u8;
        buf[2 * i + 1] = *w as u8;
    }
    buf[12..12 + name.len()].copy_from_slice(name);
    let at = 12 + name.len();
    buf[at] = (qtype >> 8) as u8;
    buf[at + 1] = qtype as u8;
    buf[at + 2] = (qclass >> 8) as u8;
    buf[at + 3] = qclass as u8;
    buf
}

#[test]
fn flags_ignore_order_and_repetition() {
    let a = create_flags_and_codes(&[HeaderFlag::QR, HeaderFlag::RCODE(RCode::Refused)]);
    let b = create_flags_and_codes(&[
        HeaderFlag::RCODE(RCode::Refused),
        HeaderFlag::QR,
        HeaderFlag::QR,
    ]);
    assert_eq!(a, 0x8005);
    assert_eq!(a, b);
    assert_eq!(create_flags_and_codes(&[]), 0);
}

#[test]
fn codes_and_masks() {
    assert_eq!(OpCode::IQUERY.value(), 0x0800);
    assert_eq!(RCode::NameError.value(), 3);
    assert_eq!(HeaderFlag::OPCODE(OpCode::STATUS).mask(), 0x7800);
    assert_eq!(HeaderFlag::RCODE(RCode::Refused).mask(), 0x000f);
    assert_eq!(HeaderFlag::RA.mask(), 0x0080);
    for flag in [
        HeaderFlag::QR,
        HeaderFlag::OPCODE(OpCode::STATUS),
        HeaderFlag::AA,
        HeaderFlag::TC,
        HeaderFlag::RD,
        HeaderFlag::RA,
        HeaderFlag::RCODE(RCode::Refused),
    ] {
        let bits = create_flags_and_codes(&[flag]);
        assert_eq!(bits & flag.mask(), bits);
    }
}

#[test]
fn header_reads_network_order_and_writes_it_back() {
    let bytes = [0x12, 0x34, 0x81, 0x80, 0, 1, 0, 2, 0, 3, 0, 4];
    let h = Header::read_from(&bytes);
    assert_eq!(h.id, 0x1234);
    assert_eq!(h.flags_and_codes, 0x8180);
    assert_eq!(h.qdcount, 1);
    assert_eq!(h.ancount, 2);
    assert_eq!(h.nscount, 3);
    assert_eq!(h.arcount, 4);
    assert_eq!(h.as_bytes(), bytes.to_vec());
    assert!(h.qr());
    assert!(!h.aa());
    assert!(!h.tc());
    assert!(h.rd());
    assert!(h.ra());
}

#[test]
fn header_code_getters_read_their_fields() {
    let h = Header::read_from(&[0, 0, 0x7f, 0x0f, 0, 0, 0, 0, 0, 0, 0, 0]);
    assert!(!h.qr());
    assert!(h.aa() && h.tc() && h.rd());
    assert_eq!(h.opcode(), 0x0f);
    assert_eq!(h.rcode(), 0x0f);
    let h = Header::read_from(&[0, 0, 0x88, 0x05, 0, 0, 0, 0, 0, 0, 0, 0]);
    assert!(h.qr());
    assert_eq!(h.opcode(), 1);
    assert_eq!(h.rcode(), 5);
    assert_eq!(Header::read_from(&[0; 12]).opcode(), 0);
}

#[test]
fn type_and_class_round_trip() {
    let bytes = [9, 9, 0x00, 0x10, 0x00, 0x01];
    let t = TypeAndClass::read_from(&bytes, 2);
    assert_eq!(t.query_type, 16);
    assert_eq!(t.query_class, 1);
    assert_eq!(t.as_bytes(), vec![0, 16, 0, 1]);
}

#[test]
fn reads_a_name() {
    let name = encode_name("dnsblog.paperstack.com");
    let buf = query(1, 0, 1, &name, 16, 1);
    assert!(qname_fits(12, &buf));
    let (qname, next) = read_qname(12, &buf).unwrap();
    assert_eq!(qname, "dnsblog.paperstack.com");
    assert_eq!(next, 12 + name.len());
}

#[test]
fn reads_the_root_name() {
    let buf = query(1, 0, 1, &[0], 1, 1);
    let (qname, next) = read_qname(12, &buf).unwrap();
    assert_eq!(qname, "");
    assert_eq!(next, 13);
}

#[test]
fn rejects_a_label_that_is_not_utf8() {
    let buf = query(1, 0, 1, &[2, 0xff, 0xfe, 0], 1, 1);
    assert_eq!(read_qname(12, &buf), Err(QnameError::InvalidUtf8));
}

#[test]
fn a_name_running_past_the_byte_offsets_does_not_fit() {
    let buf = query(1, 0, 1, &[250, b'a'], 1, 1);
    assert!(!qname_fits(12, &buf));
    let mut long = Vec::new();
    for _ in 0..4 {
        long.push(60);
        long.extend_from_slice(&[b'x'; 60]);
    }
    long.push(0);
    let buf = query(1, 0, 1, &long, 1, 1);
    assert!(!qname_fits(12, &buf));
}

#[test]
fn type_and_class_names() {
    assert_eq!(query_type_to_string_slice(1), "A");
    assert_eq!(query_type_to_string_slice(16), "TXT");
    assert_eq!(query_type_to_string_slice(252), "AXFR");
    assert_eq!(query_type_to_string_slice(17), "UNKNOWN");
    assert_eq!(query_class_to_string_slice(1), "IN");
    assert_eq!(query_class_to_string_slice(5), "*");
    assert_eq!(query_class_to_string_slice(6), "UNKNOWN");
}

#[test]
fn header_data_clears_the_buffer() {
    let mut out = [7u8; MAX_UDP_QUERY_SIZE];
    let h = Header { id: 0xabcd, flags_and_codes: 0, qdcount: 3, ancount: 0, nscount: 2, arcount: 2 };
    let n = write_out_header_data(false, &mut out, &h, 0x8000);
    assert_eq!(n, 12);
    assert_eq!(&out[0..12], [0xab, 0xcd, 0x80, 0, 0, 1, 0, 1, 0, 0, 0, 0]);
    assert!(out[12..].iter().all(|b| *b == 0));
    let n = write_out_header_data(true, &mut out, &h, 0x8005);
    assert_eq!(n, 12);
    assert_eq!(&out[0..12], [0xab, 0xcd, 0x80, 5, 0, 1, 0, 0, 0, 0, 0, 0]);
}

#[test]
fn qname_data_follows_the_index() {
    let mut out = [0u8; MAX_UDP_QUERY_SIZE];
    let mut index = 12;
    let tc = TypeAndClass { query_type: 16, query_class: 1 };
    write_out_qname_data(&mut out, &tc, &mut index, &[1, b'a', 0]);
    assert_eq!(index, 19);
    assert_eq!(&out[12..20], [1, b'a', 0, 0, 16, 0, 1, 0]);
}

#[test]
fn basic_error_keeps_the_query_flags() {
    let mut out = [0u8; MAX_UDP_QUERY_SIZE];
    let h = Header { id: 7, flags_and_codes: 0x0102, qdcount: 0, ancount: 0, nscount: 0, arcount: 0 };
    let n = respond_with_basic_error(RCode::FormatError, &h, &mut out);
    assert_eq!(n, 12);
    assert_eq!(&out[0..12], [0, 7, 0x81, 0x03, 0, 1, 0, 0, 0, 0, 0, 0]);
}

#[test]
fn qname_error_keeps_only_the_opcode_and_recursion_bit() {
    let mut out = [0u8; MAX_UDP_QUERY_SIZE];
    let h = Header { id: 7, flags_and_codes: 0x0fff, qdcount: 1, ancount: 0, nscount: 0, arcount: 0 };
    let tc = TypeAndClass { query_type: 1, query_class: 1 };
    let n = respond_with_qname_error(RCode::Refused, &h, &[1, b'a', 0], &tc, &mut out);
    assert_eq!(n, 19);
    assert_eq!(
        &out[0..19],
        [0, 7, 0x89, 0x05, 0, 1, 0, 0, 0, 0, 0, 0, 1, b'a', 0, 0, 1, 0, 1]
    );
}

#[test]
fn answers_the_configured_text_query() {
    let name = encode_name("dnsblog.paperstack.com");
    let buf = query(0xbeef, 0x0100, 1, &name, 16, 1);
    let mut out = [0xaau8; MAX_UDP_QUERY_SIZE];
    let n = answer_query(&buf, "DNSBLOG.paperstack.com", "example=content", &mut out).unwrap();
    let mut expected = vec![0xbe, 0xef, 0x81, 0x00, 0, 1, 0, 1, 0, 0, 0, 0];
    expected.extend_from_slice(&name);
    expected.extend_from_slice(&[0, 16, 0, 1]);
    expected.extend_from_slice(&[0xc0, 0x0c, 0, 16, 0, 1, 0, 1, 0x51, 0x80, 0, 16, 15]);
    expected.extend_from_slice(b"example=content");
    assert_eq!(n, 68);
    assert_eq!(&out[..n], expected.as_slice());
    assert!(out[n..].iter().all(|b| *b == 0));
}

#[test]
fn refuses_another_name() {
    let name = encode_name("other.example");
    let buf = query(5, 0, 1, &name, 16, 1);
    let mut out = [0u8; MAX_UDP_QUERY_SIZE];
    let n = answer_query(&buf, "dnsblog.paperstack.com", "hi", &mut out).unwrap();
    let mut expected = vec![0, 5, 0x80, 0x05, 0, 1, 0, 0, 0, 0, 0, 0];
    expected.extend_from_slice(&name);
    expected.extend_from_slice(&[0, 16, 0, 1]);
    assert_eq!(&out[..n], expected.as_slice());
}

#[test]
fn refuses_another_type() {
    let name = encode_name("dnsblog.paperstack.com");
    let buf = query(5, 0, 1, &name, 1, 1);
    let mut out = [0u8; MAX_UDP_QUERY_SIZE];
    let n = answer_query(&buf, "dnsblog.paperstack.com", "hi", &mut out).unwrap();
    assert_eq!(n, 12 + name.len() + 4);
    assert_eq!(&out[2..8], [0x80, 0x05, 0, 1, 0, 0]);
}

#[test]
fn header_errors() {
    let name = encode_name("a");
    let mut out = [0u8; MAX_UDP_QUERY_SIZE];
    let none = query(9, 0, 0, &name, 16, 1);
    assert_eq!(answer_query(&none, "a", "m", &mut out), Some(12));
    assert_eq!(&out[0..12], [0, 9, 0x80, 0x01, 0, 1, 0, 0, 0, 0, 0, 0]);
    let two = query(9, 0, 2, &name, 16, 1);
    assert_eq!(answer_query(&two, "a", "m", &mut out), Some(12));
    assert_eq!(&out[0..12], [0, 9, 0x80, 0x05, 0, 1, 0, 0, 0, 0, 0, 0]);
    let response = query(9, 0x8000, 1, &name, 16, 1);
    assert_eq!(answer_query(&response, "a", "m", &mut out), Some(12));
    assert_eq!(&out[0..12], [0, 9, 0x80, 0x05, 0, 1, 0, 0, 0, 0, 0, 0]);
}

#[test]
fn no_reply_to_a_name_that_is_not_utf8() {
    let buf = query(9, 0, 1, &[1, 0xff, 0], 16, 1);
    let mut out = [3u8; MAX_UDP_QUERY_SIZE];
    assert_eq!(answer_query(&buf, "a", "m", &mut out), None);
    assert!(out.iter().all(|b| *b == 3));
    assert_eq!(try_answer_query(&buf, "a", "m", &mut out), Some(None));
}

#[test]
fn checked_answer_reports_what_cannot_be_handled() {
    let mut out = [0u8; MAX_UDP_QUERY_SIZE];
    let bad = query(1, 0, 1, &[250, b'a'], 16, 1);
    assert_eq!(try_answer_query(&bad, "a", "m", &mut out), None);
    let name = encode_name("a");
    let buf = query(1, 0, 1, &name, 16, 1);
    let long = "x".repeat(481);
    assert_eq!(try_answer_query(&buf, "a", &"x".repeat(480), &mut out), Some(Some(512)));
    assert_eq!(try_answer_query(&buf, "a", &long, &mut out), None);
    assert_eq!(try_answer_query(&buf, "b", &long, &mut out), Some(Some(12 + 3 + 4)));
    assert_eq!(try_answer_query(&buf, "A", "hello", &mut out), Some(Some(12 + 3 + 4 + 13 + 5)));
    assert_eq!(&out[12 + 3 + 4 + 12..12 + 3 + 4 + 13 + 5], b"\x05hello");
}

#[test]
fn a_long_message_length_byte_wraps() {
    let name = encode_name("a");
    let buf = query(1, 0, 1, &name, 16, 1);
    let msg = "y".repeat(300);
    let mut out = [0u8; MAX_UDP_QUERY_SIZE];
    let n = answer_query(&buf, "a", &msg, &mut out).unwrap();
    assert_eq!(n, 19 + 13 + 300);
    assert_eq!(&out[19 + 10..19 + 13], [0x01, 0x2d, 44]);
}

#[test]
fn two_appends_equal_one_append_of_both() {
    let mut first = [9u8; MAX_UDP_QUERY_SIZE];
    let mut second = [9u8; MAX_UDP_QUERY_SIZE];
    let mut i = 3;
    let mut j = 3;
    append_to_output_buffer(&mut first, b"ab", &mut i);
    append_to_output_buffer(&mut first, b"cde", &mut i);
    append_to_output_buffer(&mut second, b"abcde", &mut j);
    assert_eq!(i, 8);
    assert_eq!(i, j);
    assert_eq!(first, second);
    assert_eq!(&first[2..9], [9, b'a', b'b', b'c', b'd', b'e', 9]);
}

#[test]
fn the_walk_stops_at_a_label_that_is_not_utf8() {
    let buf = query(1, 0, 1, &[1, 0xff, 250, b'a'], 16, 1);
    assert!(qname_fits(12, &buf));
    assert_eq!(read_qname(12, &buf), Err(QnameError::InvalidUtf8));
    let mut out = [4u8; MAX_UDP_QUERY_SIZE];
    assert_eq!(try_answer_query(&buf, "a", "m", &mut out), Some(None));
    assert_eq!(answer_query(&buf, "a", "m", &mut out), None);
    assert!(out.iter().all(|b| *b == 4));
}

#[test]
fn an_encoded_name_reads_back_wherever_it_stands() {
    let name = encode_name("www.example.org");
    let mut buf = [0xeeu8; 512];
    buf[40..40 + name.len()].copy_from_slice(&name);
    let (qname, next) = read_qname(40, &buf).unwrap();
    assert_eq!(qname, "www.example.org");
    assert_eq!(next, 40 + name.len());
    let mut other = [0x11u8; 512];
    other[40..40 + name.len()].copy_from_slice(&name);
    assert_eq!(read_qname(40, &other).unwrap(), (qname, next));
}
