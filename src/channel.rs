//! The reliability bookkeeping of one peer: the sequence number of the next
//! packet to send and the acknowledgement state of what was received.
use vstd::prelude::*;
use crate::message::{header_code, lemma_message_of, message_bytes, message_of, DecodeError, Message, MessageView, HEADER_COUNT};
use crate::packet::{decode_spec, lemma_packet_round_trip, packet_bytes, Packet, PacketError, PacketView, ProtocolId, DATA_BYTES};
use crate::sequence::{update_on_receive, updated_ack};

verus! {

/// Why a datagram was dropped.
#[derive(Debug, Clone, Copy, PartialEq, Eq, Structural)]
pub enum ReceiveError {
    /// The bytes do not frame a packet.
    Frame(PacketError),
    /// The packet carries another application's protocol tag.
    WrongProtocol,
    /// The payload is not a message.
    Message(DecodeError),
}

/// Whether a payload reads as a message: it has a header byte that names a
/// kind.
pub open spec fn payload_is_message(data: Seq<u8>) -> bool {
    data.len() > 0 && data[0] < HEADER_COUNT
}

/// Why a payload does not read as a message.
pub open spec fn payload_error(data: Seq<u8>) -> DecodeError {
    if data.len() == 0 {
        DecodeError::Empty
    } else {
        DecodeError::UnknownHeader
    }
}

/// The outcome of opening a datagram, short of the message itself: the
/// packet, or why the datagram is dropped.
pub open spec fn open_spec(protocol_id: ProtocolId, datagram: Seq<u8>) -> Result<PacketView, ReceiveError> {
    match decode_spec(datagram) {
        Err(e) => Err(ReceiveError::Frame(e)),
        Ok(p) => if p.protocol_id != protocol_id {
            Err(ReceiveError::WrongProtocol)
        } else if !payload_is_message(p.data) {
            Err(ReceiveError::Message(payload_error(p.data)))
        } else {
            Ok(p)
        },
    }
}

/// Reads a datagram as a packet of this application and its payload as a
/// message. Fails when the bytes frame no packet, when the protocol tag is
/// not `protocol_id`, or when the payload is no message.
pub fn open_datagram(protocol_id: ProtocolId, datagram: &[u8]) -> (r: Result<(Packet, Message), ReceiveError>)
    ensures
        r matches Ok((p, m)) ==> open_spec(protocol_id, datagram@) == Ok::<PacketView, ReceiveError>(p@)
            && message_bytes(m@) == p@.data,
        r matches Err(e) ==> open_spec(protocol_id, datagram@) == Err::<PacketView, ReceiveError>(e),
{
    match Packet::from_bytes(datagram) {
        Err(e) => Err(ReceiveError::Frame(e)),
        Ok(p) => {
            if !p.verify(protocol_id) {
                return Err(ReceiveError::WrongProtocol);
            }
            match Message::from_bytes(p.payload().as_slice()) {
                Ok(m) => Ok((p, m)),
                Err(e) => Err(ReceiveError::Message(e)),
            }
        },
    }
}

/// The sequence number that follows `s`, wrapping from 65535 to 0.
pub open spec fn next_seq(s: u16) -> u16 {
    ((s + 1) % 65536) as u16
}

/// The bytes of the packet that channel `c` frames around message `m`.
pub open spec fn framed_bytes(protocol_id: ProtocolId, c: Channel, m: MessageView) -> Seq<u8> {
    packet_bytes(
        PacketView {
            protocol_id,
            sequence: c.next_sequence,
            ack: c.remote_ack,
            ackbitfield: c.remote_bitfield,
            data: message_bytes(m),
        },
    )
}

/// The channel `c` after framing a packet.
pub open spec fn advanced(c: Channel) -> Channel {
    Channel { next_sequence: next_seq(c.next_sequence), ..c }
}

/// The channel `c` after receiving the packet with sequence number `seq`.
pub open spec fn recorded(c: Channel, seq: u16) -> Channel {
    Channel {
        next_sequence: c.next_sequence,
        remote_ack: updated_ack(c.remote_ack, c.remote_bitfield, seq).0,
        remote_bitfield: updated_ack(c.remote_ack, c.remote_bitfield, seq).1,
    }
}

/// The reliability state shared with one peer.
#[derive(Debug, Clone, Copy, PartialEq, Eq, Structural)]
pub struct Channel {
    /// Sequence number of the next packet sent to the peer.
    pub next_sequence: u16,
    /// Most recent sequence number received from the peer.
    pub remote_ack: u16,
    /// Which of the 32 sequence numbers before `remote_ack` were received.
    pub remote_bitfield: u32,
}

impl Channel {
    /// A channel on which nothing was sent or received.
    pub fn new() -> (r: Channel)
        ensures
            r == (Channel { next_sequence: 0, remote_ack: 0, remote_bitfield: 0 }),
    {
        Channel { next_sequence: 0, remote_ack: 0, remote_bitfield: 0 }
    }

    /// A channel whose first received packet had sequence number `first`.
    pub fn starting_at(first: u16) -> (r: Channel)
        ensures
            r == (Channel { next_sequence: 0, remote_ack: first, remote_bitfield: 0 }),
    {
        Channel { next_sequence: 0, remote_ack: first, remote_bitfield: 0 }
    }

    /// Records the receipt of the packet with sequence number `sequence`.
    pub fn record(&mut self, sequence: u16)
        ensures
            *final(self) == recorded(*old(self), sequence),
    {
        let (ack, bitfield) = update_on_receive(self.remote_ack, self.remote_bitfield, sequence);
        self.remote_ack = ack;
        self.remote_bitfield = bitfield;
    }

    /// Frames `message` as the next packet to the peer, carrying the
    /// acknowledgement state, and advances the sequence number. Fails, and
    /// changes nothing, when the message does not fit in a packet.
    pub fn frame(&mut self, protocol_id: ProtocolId, message: &Message) -> (r: Result<Vec<u8>, PacketError>)
        ensures
            r.is_ok() <==> message_bytes(message@).len() <= DATA_BYTES,
            r.is_ok() ==> *final(self) == advanced(*old(self)),
            r.is_err() ==> *final(self) == *old(self),
            r matches Ok(b) ==> b@ == framed_bytes(protocol_id, *old(self), message@) && *final(self) == advanced(*old(self)),
            r matches Err(e) ==> e == PacketError::PayloadTooLarge && *final(self) == *old(self),
    {
        let payload = message.to_vec();
        match Packet::new(protocol_id, self.next_sequence, self.remote_ack, self.remote_bitfield, payload.as_slice()) {
            Ok(p) => {
                self.next_sequence = self.next_sequence.wrapping_add(1);
                Ok(p.to_bytes())
            },
            Err(e) => Err(e),
        }
    }

    /// Opens a datagram from the peer and, when it is a packet of this
    /// application that carries a message, records its sequence number.
    pub fn receive(&mut self, protocol_id: ProtocolId, datagram: &[u8]) -> (r: Result<Message, ReceiveError>)
        ensures
            r matches Err(e) ==> open_spec(protocol_id, datagram@) == Err::<PacketView, ReceiveError>(e)
                && *final(self) == *old(self),
            r matches Ok(m) ==> open_spec(protocol_id, datagram@) is Ok && message_bytes(m@)
                == open_spec(protocol_id, datagram@)->Ok_0.data
                && *final(self) == recorded(*old(self), open_spec(protocol_id, datagram@)->Ok_0.sequence),
    {
        match open_datagram(protocol_id, datagram) {
            Ok((p, m)) => {
                self.record(p.get_sequence());
                Ok(m)
            },
            Err(e) => Err(e),
        }
    }
}

/// A datagram that a channel framed opens, at the other end, to a packet
/// with the channel's sequence number and acknowledgement state, carrying
/// the same message.
pub proof fn lemma_framed_datagram_opens(protocol_id: ProtocolId, c: Channel, m: MessageView)
    requires
        message_bytes(m).len() <= DATA_BYTES,
    ensures
        open_spec(protocol_id, framed_bytes(protocol_id, c, m)) is Ok,
        open_spec(protocol_id, framed_bytes(protocol_id, c, m))->Ok_0 == (PacketView {
            protocol_id,
            sequence: c.next_sequence,
            ack: c.remote_ack,
            ackbitfield: c.remote_bitfield,
            data: message_bytes(m),
        }),
        message_of(open_spec(protocol_id, framed_bytes(protocol_id, c, m))->Ok_0.data) == m,
{
    let p = PacketView {
        protocol_id,
        sequence: c.next_sequence,
        ack: c.remote_ack,
        ackbitfield: c.remote_bitfield,
        data: message_bytes(m),
    };
    lemma_packet_round_trip(p);
    lemma_message_of(m);
    assert(message_bytes(m)[0] == header_code(m.header));
}

} // verus!
