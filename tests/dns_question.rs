use dns_wire::{DecodeError, DnsQuestion, PacketBuffer, QueryType};

fn question_bytes() -> Vec<u8> {
    let mut bytes = vec![7, b'E', b'x', b'a', b'm', b'p', b'l', b'e', 3, b'c', b'o', b'm', 0];
    bytes.extend_from_slice(&[0x00, 0x01, 0x00, 0x01]);
    bytes
}

#[test]
fn query_type_from_number() {
    assert_eq!(QueryType::from_num(1), QueryType::A);
    assert_eq!(QueryType::from_num(28), QueryType::Unknown(28));
}

#[test]
fn new_question_holds_its_fields() {
    let q = DnsQuestion::new(String::from("a.b"), QueryType::A);
    assert_eq!(q.name, "a.b");
    assert_eq!(q.qtype, QueryType::A);
}

#[test]
fn question_reads_name_type_and_class() {
    let mut buffer = PacketBuffer::new();
    let bytes = question_bytes();
    buffer.buf[12..12 + bytes.len()].copy_from_slice(&bytes);
    buffer.seek(12).unwrap();
    let mut q = DnsQuestion::new(String::new(), QueryType::Unknown(0));
    q.read(&mut buffer).unwrap();
    assert_eq!(q.name, "example.com");
    assert_eq!(q.qtype, QueryType::A);
    assert_eq!(buffer.pos(), 12 + 13 + 4);
}

#[test]
fn question_with_other_type_code() {
    let mut buffer = PacketBuffer::new();
    buffer.buf[0..7].copy_from_slice(&[1, b'x', 0, 0x00, 0x1C, 0x00, 0x01]);
    let mut q = DnsQuestion::new(String::new(), QueryType::A);
    q.read(&mut buffer).unwrap();
    assert_eq!(q.name, "x");
    assert_eq!(q.qtype, QueryType::Unknown(28));
    assert_eq!(buffer.pos(), 7);
}

#[test]
fn question_ending_at_capacity_is_read() {
    let mut buffer = PacketBuffer::new();
    buffer.buf[505..512].copy_from_slice(&[1, b'x', 0, 0x00, 0x01, 0x00, 0x01]);
    buffer.seek(505).unwrap();
    let mut q = DnsQuestion::new(String::from("old:"), QueryType::Unknown(5));
    assert_eq!(q.read(&mut buffer), Ok(()));
    assert_eq!(q.name, "old:x");
    assert_eq!(q.qtype, QueryType::A);
    assert_eq!(buffer.pos(), 512);
}

#[test]
fn question_with_bad_name_changes_nothing() {
    let mut buffer = PacketBuffer::new();
    // the label length 120 runs past the end of the buffer
    buffer.buf[506..512].copy_from_slice(&[120, 0, 0x00, 0x01, 0x00, 0x01]);
    buffer.seek(506).unwrap();
    let mut q = DnsQuestion::new(String::from("old"), QueryType::Unknown(5));
    assert_eq!(q.read(&mut buffer), Err(DecodeError::BufferExhausted));
    assert_eq!(q.name, "old");
    assert_eq!(q.qtype, QueryType::Unknown(5));
    assert_eq!(buffer.pos(), 506);
}

#[test]
fn question_without_room_for_class_changes_nothing() {
    let mut buffer = PacketBuffer::new();
    buffer.buf[507..512].copy_from_slice(&[1, b'x', 0, 0x00, 0x01]);
    buffer.seek(507).unwrap();
    let mut q = DnsQuestion::new(String::from("old"), QueryType::Unknown(5));
    assert_eq!(q.read(&mut buffer), Err(DecodeError::BufferExhausted));
    assert_eq!(q.name, "old");
    assert_eq!(q.qtype, QueryType::Unknown(5));
    assert_eq!(buffer.pos(), 507);
}
