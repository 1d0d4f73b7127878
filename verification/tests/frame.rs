use inquirynet::net::frame::{parse_datagram, request_header, response_header, Datagram, RESPONSE_FLAG};

#[test]
fn request_header_is_two_little_endian_words() {
    assert_eq!(request_header(0x1234_5678, 0x0a0b_0c0d), vec![0x78, 0x56, 0x34, 0x12, 0x0d, 0x0c, 0x0b, 0x0a]);
}

#[test]
fn response_header_sets_the_response_bit() {
    assert_eq!(response_header(0x0000_0102), vec![0x02, 0x01, 0x00, 0x80]);
    // an id that already carries the bit keeps it
    assert_eq!(response_header(0x8000_0001), vec![0x01, 0x00, 0x00, 0x80]);
    assert_eq!(RESPONSE_FLAG, 0x8000_0000);
}

#[test]
fn request_reads_back() {
    let mut buf = request_header(77, 5);
    buf.extend_from_slice(b"hello");
    buf.extend_from_slice(&[0xff; 3]); // bytes past the datagram's size
    let size = buf.len() - 3;
    match parse_datagram(&buf, size) {
        Datagram::Request { id, type_id, payload } => {
            assert_eq!(id, 77);
            assert_eq!(type_id, 5);
            assert_eq!(payload, b"hello".to_vec());
        }
        _ => panic!("not a request"),
    }
}

#[test]
fn response_reads_back() {
    let mut buf = response_header(0x7fff_fffe);
    buf.extend_from_slice(&[1, 2, 3]);
    match parse_datagram(&buf, buf.len()) {
        Datagram::Response { id, payload } => {
            assert_eq!(id, 0x7fff_fffe);
            assert_eq!(payload, vec![1, 2, 3]);
        }
        _ => panic!("not a response"),
    }
}

#[test]
fn empty_payloads_are_kept() {
    let buf = request_header(1, 2);
    assert!(matches!(parse_datagram(&buf, 8), Datagram::Request { id: 1, type_id: 2, .. }));
    let buf = response_header(3);
    match parse_datagram(&buf, 4) {
        Datagram::Response { id, payload } => {
            assert_eq!(id, 3);
            assert!(payload.is_empty());
        }
        _ => panic!("not a response"),
    }
}

#[test]
fn short_datagrams_are_ignored() {
    let buf = request_header(1, 2);
    assert!(matches!(parse_datagram(&buf, 0), Datagram::Ignored));
    assert!(matches!(parse_datagram(&buf, 3), Datagram::Ignored));
    // a request needs its type word
    assert!(matches!(parse_datagram(&buf, 7), Datagram::Ignored));
    // a response needs only the first word
    let buf = response_header(1);
    assert!(matches!(parse_datagram(&buf, 4), Datagram::Response { id: 1, .. }));
}
