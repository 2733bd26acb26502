use ssh_agent_filter::packet::{frame_packet, packet_body_len, MAX_PACKET_LEN, PACKET_TOO_LARGE};
use ssh_agent_filter::wire::{BufferReader, BufferWriter, UNEXPECTED_END};

#[test]
fn numbers_are_big_endian() {
    let data = [7, 1, 2, 3, 4, 0, 0, 0, 1, 0, 0, 2, 3];
    let mut reader = BufferReader::new(&data);
    assert_eq!(reader.read_u8(), Ok(7));
    assert_eq!(reader.read_u32(), Ok(0x0102_0304));
    assert_eq!(reader.read_u64(), Ok(0x1_0000_0203));
    assert_eq!(reader.read_u8(), Err("unexpected end of buffer"));
}

#[test]
fn largest_numbers_are_read() {
    let data = [0xff; 12];
    let mut reader = BufferReader::new(&data);
    assert_eq!(reader.read_u32(), Ok(u32::MAX));
    assert_eq!(reader.read_u64(), Ok(u64::MAX));
}

#[test]
fn a_number_that_is_cut_off_is_not_read() {
    let mut reader = BufferReader::new(&[1, 2, 3]);
    assert_eq!(reader.read_u32(), Err(UNEXPECTED_END));
    assert_eq!(reader.read_u64(), Err(UNEXPECTED_END));
    assert_eq!(reader.read_u8(), Ok(1));
}

#[test]
fn strings_are_read_back() {
    let mut writer = BufferWriter::new();
    writer.write_u8(9);
    writer.write_string(b"key");
    writer.write_string(b"");
    writer.write_u32(258);
    let data = writer.into_inner();
    assert_eq!(data, vec![9, 0, 0, 0, 3, b'k', b'e', b'y', 0, 0, 0, 0, 0, 0, 1, 2]);
    let mut reader = BufferReader::new(&data);
    assert_eq!(reader.read_u8(), Ok(9));
    assert_eq!(reader.read_string(), Ok(&b"key"[..]));
    assert_eq!(reader.read_string(), Ok(&b""[..]));
    assert_eq!(reader.read_u32(), Ok(258));
}

#[test]
fn a_string_that_is_cut_off_loses_its_length() {
    let mut reader = BufferReader::new(&[0, 0, 0, 9, 5, 6]);
    assert_eq!(reader.read_string(), Err("unexpected end of buffer"));
    assert_eq!(reader.read_u8(), Ok(5));
}

#[test]
fn a_length_that_is_cut_off_stays() {
    let mut reader = BufferReader::new(&[0, 0, 9]);
    assert_eq!(reader.read_string(), Err(UNEXPECTED_END));
    assert_eq!(reader.read_u8(), Ok(0));
}

#[test]
fn a_string_longer_than_memory_is_refused() {
    let mut reader = BufferReader::new(&[0xff, 0xff, 0xff, 0xff, 1]);
    assert_eq!(reader.read_string(), Err(UNEXPECTED_END));
}

#[test]
fn frame_has_length_in_front() {
    assert_eq!(frame_packet(b"ab"), vec![0, 0, 0, 2, b'a', b'b']);
    assert_eq!(frame_packet(b""), vec![0, 0, 0, 0]);
}

#[test]
fn header_of_a_frame_announces_its_body() {
    let body = vec![3; 70000];
    let frame = frame_packet(&body);
    let header = [frame[0], frame[1], frame[2], frame[3]];
    assert_eq!(packet_body_len(&header), Ok(70000));
    assert_eq!(&frame[4..], &body[..]);
}

#[test]
fn packets_are_limited() {
    assert_eq!(MAX_PACKET_LEN, 262144);
    assert_eq!(packet_body_len(&[0, 4, 0, 0]), Ok(262144));
    assert_eq!(packet_body_len(&[0, 4, 0, 1]), Err("packet too large"));
    assert_eq!(packet_body_len(&[0xff, 0xff, 0xff, 0xff]), Err(PACKET_TOO_LARGE));
}
