//! Packets on a stream: the length of the body in four bytes, then the body.

use vstd::prelude::*;
use crate::wire::{BufferReader, BufferWriter};
use crate::wire::{be_bytes, be_value, law_u32_read_back, string_field};

verus! {

/// The longest packet body that is taken from a stream.
pub const MAX_PACKET_LEN: u32 = 256 * 1024;

/// What a packet that announces a longer body is refused with.
pub const PACKET_TOO_LARGE: &'static str = "packet too large";

/// How many bytes of body follow a packet's header.
pub fn packet_body_len(header: &[u8; 4]) -> (res: Result<usize, &'static str>)
    ensures
        res is Ok <==> be_value(header@) <= MAX_PACKET_LEN,
        res is Ok ==> res->Ok_0 == be_value(header@),
        res is Err ==> res->Err_0@ == PACKET_TOO_LARGE@,
{
    let mut reader = BufferReader::new(header.as_slice());
    assert(header@.take(4) =~= header@);
    match reader.read_u32() {
        Ok(len) => if len > MAX_PACKET_LEN {
            Err(PACKET_TOO_LARGE)
        } else {
            Ok(len as usize)
        },
        Err(_) => Err(PACKET_TOO_LARGE),
    }
}

/// A packet as it goes onto a stream. Of the body's length the lowest four bytes
/// stand in front of it.
pub fn frame_packet(body: &[u8]) -> (packet: Vec<u8>)
    ensures
        packet@ == string_field(body@),
{
    let mut writer = BufferWriter::new();
    writer.write_string(body);
    assert(writer@ =~= string_field(body@));
    writer.into_inner()
}

/// The header of a packet that was framed announces the body that follows it,
/// where four bytes hold the body's length.
pub proof fn law_frame_announces_body(body: Seq<u8>)
    requires
        body.len() < 0x1_0000_0000,
    ensures
        be_value(string_field(body).take(4)) == body.len(),
        string_field(body).skip(4) == body,
{
    law_u32_read_back(body.len(), body);
}

} // verus!
