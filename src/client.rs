//! The client's session: Disconnected, then Connecting after the connect
//! message, Verified once the server has assigned an id, and Synchronized
//! once world states arrive.
use vstd::prelude::*;
use vstd::utf8::encode_utf8;
use crate::channel::{advanced, framed_bytes, open_spec, recorded, Channel};
use crate::message::{message_bytes, message_of, state_result, GameSnapshot, HeaderByte, Message, MessageView};
use crate::packet::{PacketError, DATA_BYTES};
use crate::map::{map_result, ArenaMap, BlockType, MapError};
use crate::registry::Address;
use crate::server::saturating_inc;
use crate::PROTOCOL_ID;

verus! {

/// Where a client stands in the handshake.
#[derive(Debug, Clone, Copy, PartialEq, Eq, Structural)]
pub enum SessionState {
    Disconnected,
    Connecting,
    Verified,
    Synchronized,
}

/// Why a client could not send.
#[derive(Debug, Clone, Copy, PartialEq, Eq, Structural)]
pub enum SendError {
    /// The client has no server to send to.
    NotConnected,
    /// The message does not fit in a packet.
    TooLarge,
}

/// What the client must do after a datagram.
#[derive(Debug)]
pub enum ClientAction {
    /// Nothing beyond the state change.
    Nothing,
    /// The server assigned `id`: build the world from `map`, then send
    /// `request` to finish the handshake.
    Verified { id: u8, map: ArenaMap, request: Message },
    /// Bring the world in line with a state from the server.
    ApplyState(GameSnapshot),
}

/// What a client holds.
pub struct ClientView {
    pub state: SessionState,
    pub server: Option<Address>,
    pub id: Option<u8>,
    pub name: Seq<char>,
    pub channel: Channel,
    pub dropped: u64,
}

/// What a message from the server, in a packet with sequence number `seq`,
/// does to the client.
pub open spec fn client_step(o: ClientView, n: ClientView, seq: u16, m: MessageView, act: ClientAction) -> bool {
    let ch = recorded(o.channel, seq);
    if m.header == HeaderByte::Verify && (o.state == SessionState::Connecting || o.state
        == SessionState::Verified) && m.data.len() > 0 && map_result(m.data.drop_first()) is Ok {
        &&& act matches ClientAction::Verified { id, map, request } && id == m.data[0] && map.wf()
            && map_result(m.data.drop_first()) == Ok::<Seq<Option<BlockType>>, MapError>(map@)
            && request@.header == HeaderByte::Request && request@.data
            == seq![id] + encode_utf8(o.name)
        &&& n == (ClientView { state: SessionState::Verified, id: Some(m.data[0]), channel: ch, ..o })
    } else if m.header == HeaderByte::State && (o.state == SessionState::Verified || o.state
        == SessionState::Synchronized) && state_result(m.data) is Ok {
        &&& act matches ClientAction::ApplyState(s) && state_result(m.data) == Ok::<
            (Seq<crate::message::PlayerState>, Seq<crate::message::ProjectileState>),
            crate::message::DecodeError,
        >((s.players@, s.projectiles@))
        &&& n == (ClientView { state: SessionState::Synchronized, channel: ch, ..o })
    } else {
        &&& act is Nothing
        &&& n == (ClientView { channel: ch, ..o })
    }
}

/// One player's end of the connection to the server.
#[derive(Debug)]
pub struct Client {
    state: SessionState,
    server: Option<Address>,
    id: Option<u8>,
    name: String,
    channel: Channel,
    dropped: u64,
}

impl View for Client {
    type V = ClientView;

    closed spec fn view(&self) -> ClientView {
        ClientView {
            state: self.state,
            server: self.server,
            id: self.id,
            name: self.name@,
            channel: self.channel,
            dropped: self.dropped,
        }
    }
}

impl Client {
    /// A client for the player `name` that is not connected.
    pub fn new(name: &str) -> (r: Client)
        ensures
            r@ == (ClientView {
                state: SessionState::Disconnected,
                server: None,
                id: None,
                name: name@,
                channel: Channel { next_sequence: 0, remote_ack: 0, remote_bitfield: 0 },
                dropped: 0,
            }),
    {
        Client {
            state: SessionState::Disconnected,
            server: None,
            id: None,
            name: name.to_owned(),
            channel: Channel::new(),
            dropped: 0,
        }
    }

    /// Where the session stands.
    pub fn state(&self) -> (r: SessionState)
        ensures
            r == self@.state,
    {
        self.state
    }

    /// The id the server assigned, once verified.
    pub fn try_get_id(&self) -> (r: Option<u8>)
        ensures
            r == self@.id,
    {
        self.id
    }

    /// The server the client talks to, once it connects.
    pub fn try_get_remote(&self) -> (r: Option<Address>)
        ensures
            r == self@.server,
    {
        self.server
    }

    /// Number of datagrams dropped so far, saturating.
    pub fn dropped(&self) -> (r: u64)
        ensures
            r == self@.dropped,
    {
        self.dropped
    }

    /// Starts the handshake with `server`: returns the datagram of the
    /// connect message with the player's name. Fails, and changes nothing,
    /// when the name does not fit in a packet.
    pub fn connect(&mut self, server: &Address) -> (r: Result<Vec<u8>, PacketError>)
        ensures
            r.is_ok() <==> 1 + encode_utf8(old(self)@.name).len() <= DATA_BYTES,
            r matches Ok(b) ==> b@ == framed_bytes(
                PROTOCOL_ID,
                old(self)@.channel,
                MessageView { header: HeaderByte::Connect, data: encode_utf8(old(self)@.name) },
            ) && final(self)@ == (ClientView {
                state: SessionState::Connecting,
                server: Some(*server),
                channel: advanced(old(self)@.channel),
                ..old(self)@
            }),
            r is Err ==> final(self)@ == old(self)@,
    {
        let m = Message::write_connect(self.name.as_str());
        let r = self.channel.frame(PROTOCOL_ID, &m);
        if r.is_ok() {
            self.state = SessionState::Connecting;
            self.server = Some(*server);
        }
        r
    }

    /// Frames `message` as the next packet to the server.
    pub fn send_message(&mut self, message: &Message) -> (r: Result<Vec<u8>, SendError>)
        ensures
            old(self)@.server is None ==> r == Err::<Vec<u8>, SendError>(SendError::NotConnected),
            old(self)@.server is Some ==> (r.is_ok() <==> message_bytes(message@).len() <= DATA_BYTES),
            r matches Ok(b) ==> b@ == framed_bytes(PROTOCOL_ID, old(self)@.channel, message@)
                && final(self)@ == (ClientView { channel: advanced(old(self)@.channel), ..old(self)@ }),
            r matches Err(e) ==> final(self)@ == old(self)@ && (e == SendError::TooLarge
                <==> old(self)@.server is Some),
    {
        if self.server.is_none() {
            return Err(SendError::NotConnected);
        }
        match self.channel.frame(PROTOCOL_ID, message) {
            Ok(b) => Ok(b),
            Err(_) => Err(SendError::TooLarge),
        }
    }

    /// Acts on a message from the server whose packet had sequence number
    /// `seq`. A verify, while connecting, assigns the id and asks for the
    /// request that finishes the handshake; a state, once verified, is handed
    /// over to be applied. Anything else is ignored.
    pub fn on_message(&mut self, seq: u16, m: &Message) -> (r: ClientAction)
        ensures
            client_step(old(self)@, final(self)@, seq, m@, r),
    {
        self.channel.record(seq);
        let header = m.header();
        if header == HeaderByte::Verify && (self.state == SessionState::Connecting || self.state
            == SessionState::Verified) {
            match m.read_verify() {
                Ok((id, map)) => {
                    self.id = Some(id);
                    self.state = SessionState::Verified;
                    let request = Message::write_request(self.name.as_str(), id);
                    ClientAction::Verified { id, map, request }
                },
                Err(_) => ClientAction::Nothing,
            }
        } else if header == HeaderByte::State && (self.state == SessionState::Verified
            || self.state == SessionState::Synchronized) {
            match m.read_state() {
                Ok(s) => {
                    self.state = SessionState::Synchronized;
                    ClientAction::ApplyState(s)
                },
                Err(_) => ClientAction::Nothing,
            }
        } else {
            ClientAction::Nothing
        }
    }

    /// Acts on a datagram from `from`. A datagram from anyone but the server,
    /// or before connecting, is ignored; one that is not a packet of this
    /// game carrying a message is dropped and counted.
    pub fn on_datagram(&mut self, from: &Address, datagram: &[u8]) -> (r: ClientAction)
        ensures
            old(self)@.server != Some(*from) ==> r is Nothing && final(self)@ == old(self)@,
            old(self)@.server == Some(*from) && open_spec(PROTOCOL_ID, datagram@) is Err ==> r is Nothing
                && final(self)@ == (ClientView { dropped: saturating_inc(old(self)@.dropped), ..old(self)@ }),
            old(self)@.server == Some(*from) ==> (open_spec(PROTOCOL_ID, datagram@) matches Ok(p)
                ==> client_step(old(self)@, final(self)@, p.sequence, message_of(p.data), r)),
    {
        if self.server != Some(*from) {
            return ClientAction::Nothing;
        }
        match crate::channel::open_datagram(PROTOCOL_ID, datagram) {
            Ok((p, m)) => {
                proof {
                    crate::message::lemma_message_of(m@);
                }
                self.on_message(p.get_sequence(), &m)
            },
            Err(_) => {
                if self.dropped < u64::MAX {
                    self.dropped = self.dropped + 1;
                }
                ClientAction::Nothing
            },
        }
    }
}

} // verus!
