//! The wire packet: a fixed little-endian header followed by the payload.
use vstd::prelude::*;
use crate::sequence::{is_more_recent, more_recent};

verus! {

/// Number of bytes of the protocol tag.
pub const PROTOCOL_ID_BYTES: usize = 2;

/// Largest payload a packet may carry.
pub const DATA_BYTES: usize = 256;

/// Number of bytes of a sequence number and of an acknowledgement.
pub const SEQUENCE_BYTES: usize = 2;

/// Number of bytes of the acknowledgement bitfield.
pub const BITFIELD_BYTES: usize = 4;

/// Number of bytes of the fixed header.
pub const HEADER_BYTES: usize = 10;

/// Number of bytes of the largest packet.
pub const PACKET_BYTES: usize = 266;

/// The 16-bit tag that starts every packet of one application.
pub type ProtocolId = u16;

/// Why bytes could not be framed into, or read back as, a packet.
#[derive(Debug, Clone, Copy, PartialEq, Eq, Structural)]
pub enum PacketError {
    /// The payload is longer than `DATA_BYTES`.
    PayloadTooLarge,
    /// The bytes end before the fixed header does.
    Truncated,
}

/// The little-endian bytes of a `u16`.
pub open spec fn le_u16(x: u16) -> Seq<u8> {
    seq![(x % 256) as u8, (x / 256) as u8]
}

/// The little-endian bytes of a `u32`.
pub open spec fn le_u32(x: u32) -> Seq<u8> {
    seq![(x % 256) as u8, ((x / 256) % 256) as u8, ((x / 65536) % 256) as u8, (x / 16777216) as u8]
}

/// The `u16` whose little-endian bytes start `b` at `i`.
pub open spec fn read_u16(b: Seq<u8>, i: int) -> u16 {
    (b[i] + 256 * b[i + 1]) as u16
}

/// The `u32` whose little-endian bytes start `b` at `i`.
pub open spec fn read_u32(b: Seq<u8>, i: int) -> u32 {
    (b[i] + 256 * b[i + 1] + 65536 * b[i + 2] + 16777216 * b[i + 3]) as u32
}

/// What a packet holds.
pub struct PacketView {
    pub protocol_id: u16,
    pub sequence: u16,
    pub ack: u16,
    pub ackbitfield: u32,
    pub data: Seq<u8>,
}

/// The bytes of a packet on the wire.
pub open spec fn packet_bytes(p: PacketView) -> Seq<u8> {
    le_u16(p.protocol_id) + le_u16(p.sequence) + le_u16(p.ack) + le_u32(p.ackbitfield) + p.data
}

/// The packet read from bytes that hold at least a header.
pub open spec fn parse_packet(b: Seq<u8>) -> PacketView {
    PacketView {
        protocol_id: read_u16(b, 0),
        sequence: read_u16(b, 2),
        ack: read_u16(b, 4),
        ackbitfield: read_u32(b, 6),
        data: b.subrange(HEADER_BYTES as int, b.len() as int),
    }
}

/// The outcome of reading bytes as a packet.
pub open spec fn decode_spec(b: Seq<u8>) -> Result<PacketView, PacketError> {
    if b.len() < HEADER_BYTES {
        Err(PacketError::Truncated)
    } else if b.len() > PACKET_BYTES {
        Err(PacketError::PayloadTooLarge)
    } else {
        Ok(parse_packet(b))
    }
}

/// A datagram of the reliability layer: protocol tag, sequence number, the
/// latest acknowledged sequence number of the remote, the bitfield of the 32
/// sequence numbers before it, and the payload.
#[derive(Debug)]
pub struct Packet {
    protocol_id: ProtocolId,
    sequence: u16,
    ack: u16,
    ackbitfield: u32,
    data: Vec<u8>,
}

impl View for Packet {
    type V = PacketView;

    closed spec fn view(&self) -> PacketView {
        PacketView {
            protocol_id: self.protocol_id,
            sequence: self.sequence,
            ack: self.ack,
            ackbitfield: self.ackbitfield,
            data: self.data@,
        }
    }
}

/// Copies `b[start..]` into a new vector.
fn copy_tail(b: &[u8], start: usize) -> (r: Vec<u8>)
    requires
        start <= b@.len(),
    ensures
        r@ == b@.subrange(start as int, b@.len() as int),
{
    let mut r: Vec<u8> = Vec::new();
    let mut i: usize = start;
    while i < b.len()
        invariant
            start <= i <= b@.len(),
            r@ == b@.subrange(start as int, i as int),
        decreases b@.len() - i,
    {
        r.push(b[i]);
        i = i + 1;
    }
    r
}

/// Appends the little-endian bytes of `x`.
fn push_u16(v: &mut Vec<u8>, x: u16)
    ensures
        final(v)@ == old(v)@ + le_u16(x),
{
    v.push((x % 256) as u8);
    v.push((x / 256) as u8);
}

/// Appends the little-endian bytes of `x`.
fn push_u32(v: &mut Vec<u8>, x: u32)
    ensures
        final(v)@ == old(v)@ + le_u32(x),
{
    v.push((x % 256) as u8);
    v.push(((x / 256) % 256) as u8);
    v.push(((x / 65536) % 256) as u8);
    v.push((x / 16777216) as u8);
}

pub(crate) proof fn lemma_u16_bytes(x: u16)
    ensures
        read_u16(le_u16(x), 0) == x,
{
}

proof fn lemma_u32_bytes(x: u32)
    ensures
        read_u32(le_u32(x), 0) == x,
{
    let b = le_u32(x);
    assert(b[0] + 256 * b[1] + 65536 * b[2] + 16777216 * b[3] == x);
}

impl Packet {
    /// Whether the payload fits in a packet.
    pub closed spec fn wf(&self) -> bool {
        self.data@.len() <= DATA_BYTES
    }

    /// Builds a packet; fails when the payload is longer than `DATA_BYTES`.
    pub fn new(protocol_id: ProtocolId, sequence: u16, ack: u16, ackbitfield: u32, dataref: &[u8]) -> (r: Result<Packet, PacketError>)
        ensures
            dataref@.len() <= DATA_BYTES <==> r.is_ok(),
            r matches Ok(p) ==> p.wf() && p@ == (PacketView {
                protocol_id,
                sequence,
                ack,
                ackbitfield,
                data: dataref@,
            }),
            r matches Err(e) ==> e == PacketError::PayloadTooLarge,
    {
        if dataref.len() <= DATA_BYTES {
            let data = copy_tail(dataref, 0);
            assert(data@ == dataref@);
            Ok(Packet { protocol_id, sequence, ack, ackbitfield, data })
        } else {
            Err(PacketError::PayloadTooLarge)
        }
    }

    /// The payload, provided `id` is a nonzero tag that matches the packet's.
    pub fn get_data(&self, id: ProtocolId) -> (r: Option<&Vec<u8>>)
        ensures
            r.is_some() <==> (self@.protocol_id != 0 && self@.protocol_id == id),
            r matches Some(d) ==> d@ == self@.data,
    {
        if self.protocol_id != 0 && self.protocol_id == id {
            Some(&self.data)
        } else {
            None
        }
    }

    /// The payload, whatever the protocol tag.
    pub fn payload(&self) -> (r: &Vec<u8>)
        ensures
            r@ == self@.data,
    {
        &self.data
    }

    /// The sequence number of the packet.
    pub fn get_sequence(&self) -> (r: u16)
        ensures
            r == self@.sequence,
    {
        self.sequence
    }

    /// The latest sequence number of the remote that this packet acknowledges.
    pub fn get_ack(&self) -> (r: u16)
        ensures
            r == self@.ack,
    {
        self.ack
    }

    /// The bitfield of the 32 sequence numbers before `get_ack`.
    pub fn get_ackbitfield(&self) -> (r: u32)
        ensures
            r == self@.ackbitfield,
    {
        self.ackbitfield
    }

    /// Whether the packet's protocol tag is `id`.
    pub fn verify(&self, id: ProtocolId) -> (r: bool)
        ensures
            r == (self@.protocol_id == id),
    {
        self.protocol_id == id
    }

    /// Whether this packet is more recent than sequence number `otherseq`,
    /// allowing for wraparound.
    pub fn is_more_recent_than(&self, otherseq: u16) -> (r: bool)
        ensures
            r == more_recent(self@.sequence, otherseq),
    {
        is_more_recent(self.sequence, otherseq)
    }

    /// The bytes of the packet on the wire.
    pub fn to_bytes(&self) -> (r: Vec<u8>)
        ensures
            r@ == packet_bytes(self@),
    {
        let mut v: Vec<u8> = Vec::new();
        push_u16(&mut v, self.protocol_id);
        push_u16(&mut v, self.sequence);
        push_u16(&mut v, self.ack);
        push_u32(&mut v, self.ackbitfield);
        let mut i: usize = 0;
        while i < self.data.len()
            invariant
                i <= self.data@.len(),
                v@ == le_u16(self.protocol_id) + le_u16(self.sequence) + le_u16(self.ack) + le_u32(
                    self.ackbitfield,
                ) + self.data@.subrange(0, i as int),
            decreases self.data@.len() - i,
        {
            v.push(self.data[i]);
            i = i + 1;
        }
        assert(self.data@.subrange(0, self.data@.len() as int) == self.data@);
        v
    }

    /// Reads a packet from the bytes of a datagram. Fails when they end
    /// before the header does, or carry a payload longer than `DATA_BYTES`.
    pub fn from_bytes(bytes: &[u8]) -> (r: Result<Packet, PacketError>)
        ensures
            r matches Ok(p) ==> p.wf() && decode_spec(bytes@) == Ok::<PacketView, PacketError>(p@),
            r matches Err(e) ==> decode_spec(bytes@) == Err::<PacketView, PacketError>(e),
    {
        if bytes.len() < HEADER_BYTES {
            return Err(PacketError::Truncated);
        }
        if bytes.len() > PACKET_BYTES {
            return Err(PacketError::PayloadTooLarge);
        }
        let protocol_id: u16 = bytes[0] as u16 + (bytes[1] as u16) * 256;
        let sequence: u16 = bytes[2] as u16 + (bytes[3] as u16) * 256;
        let ack: u16 = bytes[4] as u16 + (bytes[5] as u16) * 256;
        let ackbitfield: u32 = bytes[6] as u32 + (bytes[7] as u32) * 256 + (bytes[8] as u32) * 65536
            + (bytes[9] as u32) * 16777216;
        let data = copy_tail(bytes, HEADER_BYTES);
        Ok(Packet { protocol_id, sequence, ack, ackbitfield, data })
    }
}

proof fn lemma_bytes_u16(b0: u8, b1: u8)
    ensures
        le_u16((b0 + 256 * b1) as u16) == seq![b0, b1],
{
    let x = (b0 + 256 * b1) as u16;
    assert(x % 256 == b0 && x / 256 == b1);
    assert(le_u16(x) =~= seq![b0, b1]);
}

proof fn lemma_bytes_u32(b0: u8, b1: u8, b2: u8, b3: u8)
    ensures
        le_u32((b0 + 256 * b1 + 65536 * b2 + 16777216 * b3) as u32) == seq![b0, b1, b2, b3],
{
    let x = (b0 + 256 * b1 + 65536 * b2 + 16777216 * b3) as u32;
    assert(x % 256 == b0);
    assert(x / 256 == b1 + 256 * b2 + 65536 * b3);
    assert(x / 65536 == b2 + 256 * b3);
    assert(x / 16777216 == b3);
    assert(le_u32(x) =~= seq![b0, b1, b2, b3]);
}

/// Reading back the bytes of a packet gives that packet.
pub proof fn lemma_packet_round_trip(p: PacketView)
    requires
        p.data.len() <= DATA_BYTES,
    ensures
        decode_spec(packet_bytes(p)) == Ok::<PacketView, PacketError>(p),
{
    let e = packet_bytes(p);
    lemma_u16_bytes(p.protocol_id);
    lemma_u16_bytes(p.sequence);
    lemma_u16_bytes(p.ack);
    lemma_u32_bytes(p.ackbitfield);
    assert(e.subrange(HEADER_BYTES as int, e.len() as int) =~= p.data);
    assert(read_u16(e, 0) == read_u16(le_u16(p.protocol_id), 0));
    assert(read_u16(e, 2) == read_u16(le_u16(p.sequence), 0));
    assert(read_u16(e, 4) == read_u16(le_u16(p.ack), 0));
    assert(read_u32(e, 6) == read_u32(le_u32(p.ackbitfield), 0));
}

/// The bytes of a datagram that reads as a packet are that packet's bytes.
pub proof fn lemma_packet_bytes_of_decoded(b: Seq<u8>)
    requires
        decode_spec(b).is_ok(),
    ensures
        packet_bytes(decode_spec(b)->Ok_0) == b,
{
    let q = parse_packet(b);
    lemma_bytes_u16(b[0], b[1]);
    lemma_bytes_u16(b[2], b[3]);
    lemma_bytes_u16(b[4], b[5]);
    lemma_bytes_u32(b[6], b[7], b[8], b[9]);
    assert(packet_bytes(q) =~= b);
}

} // verus!
