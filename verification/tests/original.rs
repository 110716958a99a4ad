use blog_dns_d::buffer::{append_to_output_buffer, MAX_UDP_QUERY_SIZE};
use blog_dns_d::flags::{create_flags_and_codes, HeaderFlag, OpCode, RCode};

#[test]
fn test_append_to_output_buffer() {
    let mut output_buffer = [0; MAX_UDP_QUERY_SIZE];
    let mut output_index: usize = 0;
    output_buffer.fill(0);
    append_to_output_buffer(&mut output_buffer, "HELLO".as_bytes(), &mut output_index);
    assert_eq!(output_index, 5);
    assert_eq!(&output_buffer[0..6], [72, 69, 76, 76, 79, 0]);
}

#[test]
fn main_test_append_to_output_buffer() {
    let mut output_buffer = [0; MAX_UDP_QUERY_SIZE];
    let mut output_index: usize = 0;
    output_buffer.fill(0);
    append_to_output_buffer(&mut output_buffer, "HELLO".as_bytes(), &mut output_index);
    assert_eq!(output_index, 5);
    assert_eq!(&output_buffer[0..6], [72, 69, 76, 76, 79, 0]);
}

#[test]
fn test_set_opcode_flag() {
    assert_eq!(
        create_flags_and_codes(&[HeaderFlag::OPCODE(OpCode::QUERY)]),
        0b0_0000_00000000000
    );
    assert_eq!(
        create_flags_and_codes(&[HeaderFlag::OPCODE(OpCode::IQUERY)]),
        0b0_0001_00000000000
    );
    assert_eq!(
        create_flags_and_codes(&[HeaderFlag::OPCODE(OpCode::STATUS)]),
        0b0_0010_00000000000
    );
}

#[test]
fn test_set_rpcode_flag() {
    assert_eq!(
        create_flags_and_codes(&[HeaderFlag::RCODE(RCode::NoError)]),
        0b000000000000_0000
    );
    assert_eq!(
        create_flags_and_codes(&[HeaderFlag::RCODE(RCode::FormatError)]),
        0b000000000000_0001
    );
    assert_eq!(
        create_flags_and_codes(&[HeaderFlag::RCODE(RCode::ServerFailure)]),
        0b000000000000_0010
    );
    assert_eq!(
        create_flags_and_codes(&[HeaderFlag::RCODE(RCode::NameError)]),
        0b000000000000_0011
    );
    assert_eq!(
        create_flags_and_codes(&[HeaderFlag::RCODE(RCode::NotImplemented)]),
        0b000000000000_0100
    );
    assert_eq!(
        create_flags_and_codes(&[HeaderFlag::RCODE(RCode::Refused)]),
        0b000000000000_0101
    );
}

#[test]
fn test_combine_some_flag() {
    assert_eq!(
        create_flags_and_codes(&[
            HeaderFlag::QR,
            HeaderFlag::AA,
            HeaderFlag::TC,
            HeaderFlag::RD,
            HeaderFlag::RA
        ]),
        0b1_0000_1_1_1_1_000_0000
    );
}
