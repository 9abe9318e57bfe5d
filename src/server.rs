//! The server's dispatch: what each arriving datagram does to the registry,
//! the peers' channels and the inputs of the tick, and what the server
//! must do in turn.
use vstd::prelude::*;
use crate::channel::{advanced, framed_bytes, open_datagram, open_spec, recorded, Channel};
use crate::input::InputMask;
use crate::message::{lossy_utf8, message_bytes, message_of, HeaderByte, Message, MessageView};
use crate::packet::{PacketError, DATA_BYTES};
use crate::registry::{count_some, holds_at, lowest_free, Address, Registry, RegistryView, ID_COUNT};
use crate::PROTOCOL_ID;

verus! {

/// What the server must do after a datagram or a timeout.
#[derive(Debug)]
pub enum ServerAction {
    /// Nothing beyond the state change.
    Nothing,
    /// Send a verify message with `id` and the map to `to`.
    SendVerify { to: Address, id: u8 },
    /// Put a player named `name` with `id` into the world.
    AddPlayer { id: u8, name: String },
    /// Take the player with `id` out of the world.
    RemovePlayer { id: u8 },
}

/// What a server holds.
pub struct ServerView {
    pub registry: RegistryView,
    pub channels: Seq<Channel>,
    pub inputs: Seq<u8>,
    pub dropped: u64,
}

/// The input byte of an input message's data.
pub open spec fn input_byte(data: Seq<u8>) -> u8 {
    if data.len() > 0 {
        data[0]
    } else {
        0
    }
}

/// The server after the peer with `id` leaves: its slot, channel and input
/// are cleared.
pub open spec fn removed(o: ServerView, id: int) -> ServerView {
    ServerView {
        registry: RegistryView { slots: o.registry.slots.update(id, None), ..o.registry },
        channels: o.channels.update(id, Channel { next_sequence: 0, remote_ack: 0, remote_bitfield: 0 }),
        inputs: o.inputs.update(id, 0),
        dropped: o.dropped,
    }
}

/// The action that takes the player with `id` out of the world.
pub open spec fn removal_action(id: int) -> ServerAction {
    ServerAction::RemovePlayer { id: id as u8 }
}

/// What a message from the peer registered under `id` does.
pub open spec fn registered_step(
    o: ServerView,
    n: ServerView,
    from: Address,
    id: int,
    seq: u16,
    m: MessageView,
    act: ServerAction,
) -> bool {
    if m.header == HeaderByte::Disconnect {
        &&& act == removal_action(id)
        &&& n == removed(o, id)
    } else {
        &&& n.registry == o.registry
        &&& n.channels == o.channels.update(id, recorded(o.channels[id], seq))
        &&& n.dropped == o.dropped
        &&& if m.header == HeaderByte::Input {
            n.inputs == o.inputs.update(id, input_byte(m.data)) && act == ServerAction::Nothing
        } else {
            n.inputs == o.inputs
        }
        &&& m.header == HeaderByte::Connect ==> act == ServerAction::SendVerify { to: from, id: id as u8 }
        &&& m.header == HeaderByte::Request ==> if m.data.len() > 0 && m.data[0] == id {
            act matches ServerAction::AddPlayer { id: pid, name } && pid == id && name@ == lossy_utf8(
                m.data.drop_first(),
            )
        } else {
            act == ServerAction::Nothing
        }
        &&& (m.header == HeaderByte::Verify || m.header == HeaderByte::State) ==> act
            == ServerAction::Nothing
    }
}

/// What a message from an address that is not registered does: a connect
/// registers it under the lowest free id while there is room, anything else
/// is ignored.
pub open spec fn unregistered_step(
    o: ServerView,
    n: ServerView,
    from: Address,
    seq: u16,
    m: MessageView,
    act: ServerAction,
) -> bool {
    if m.header == HeaderByte::Connect && count_some(o.registry.slots) < o.registry.capacity {
        exists|id: int|
            {
                &&& lowest_free(o.registry.slots, id)
                &&& act == ServerAction::SendVerify { to: from, id: id as u8 }
                &&& n.registry == (RegistryView {
                    slots: o.registry.slots.update(id, Some(from)),
                    ..o.registry
                })
                &&& n.channels == o.channels.update(id, Channel { next_sequence: 0, remote_ack: seq, remote_bitfield: 0 })
                &&& n.inputs == o.inputs.update(id, 0)
                &&& n.dropped == o.dropped
            }
    } else {
        act == ServerAction::Nothing && n == o
    }
}

/// What an opened datagram from `from` does to the server.
pub open spec fn server_step(
    o: ServerView,
    n: ServerView,
    from: Address,
    seq: u16,
    m: MessageView,
    act: ServerAction,
) -> bool {
    &&& forall|i: int| holds_at(o.registry.slots, i, from) ==> registered_step(o, n, from, i, seq, m, act)
    &&& (forall|i: int| !holds_at(o.registry.slots, i, from)) ==> unregistered_step(o, n, from, seq, m, act)
}

/// The server's protocol state: who is connected, the channel to each, and
/// the latest input of each player in this tick.
#[derive(Debug)]
pub struct Server {
    registry: Registry,
    channels: Vec<Channel>,
    inputs: Vec<u8>,
    dropped: u64,
}

impl View for Server {
    type V = ServerView;

    closed spec fn view(&self) -> ServerView {
        ServerView {
            registry: self.registry@,
            channels: self.channels@,
            inputs: self.inputs@,
            dropped: self.dropped,
        }
    }
}

impl Server {
    /// The registry is well formed and there is a channel and an input for
    /// every id.
    pub closed spec fn wf(&self) -> bool {
        &&& self.registry.wf()
        &&& self.channels@.len() == ID_COUNT
        &&& self.inputs@.len() == ID_COUNT
    }

    /// A server with nobody connected that takes at most `max_remotes` peers.
    pub fn new(max_remotes: u8) -> (r: Server)
        ensures
            r.wf(),
            r@.registry.capacity == max_remotes,
            forall|i: int| 0 <= i < ID_COUNT ==> #[trigger] r@.registry.slots[i] is None,
            r@.inputs == Seq::new(ID_COUNT as nat, |i: int| 0u8),
            r@.channels == Seq::new(ID_COUNT as nat, |i: int| Channel { next_sequence: 0, remote_ack: 0, remote_bitfield: 0 }),
            r@.dropped == 0,
    {
        let registry = Registry::new(max_remotes);
        let mut channels: Vec<Channel> = Vec::new();
        let mut inputs: Vec<u8> = Vec::new();
        let mut i: usize = 0;
        while i < ID_COUNT
            invariant
                i <= ID_COUNT,
                inputs@ == Seq::new(i as nat, |j: int| 0u8),
                channels@ == Seq::new(i as nat, |j: int| Channel { next_sequence: 0, remote_ack: 0, remote_bitfield: 0 }),
            decreases ID_COUNT - i,
        {
            inputs.push(0);
            channels.push(Channel::new());
            i = i + 1;
            assert(inputs@ =~= Seq::new(i as nat, |j: int| 0u8));
            assert(channels@ =~= Seq::new(i as nat, |j: int| Channel { next_sequence: 0, remote_ack: 0, remote_bitfield: 0 }));
        }
        Server { registry, channels, inputs, dropped: 0 }
    }

    /// Number of datagrams dropped so far, saturating.
    pub fn dropped(&self) -> (r: u64)
        ensures
            r == self@.dropped,
    {
        self.dropped
    }

    /// The player id of `address`, if it is connected.
    pub fn lookup(&self, address: &Address) -> (r: Option<u8>)
        requires
            self.wf(),
        ensures
            r matches Some(id) ==> holds_at(self@.registry.slots, id as int, *address),
            r is None ==> forall|i: int| !holds_at(self@.registry.slots, i, *address),
    {
        self.registry.lookup(address)
    }

    /// The connected peers with their player ids, in order of id.
    pub fn remotes(&self) -> (r: Vec<(Address, u8)>)
        requires
            self.wf(),
        ensures
            forall|k: int| 0 <= k < r@.len() ==> holds_at(self@.registry.slots, r@[k].1 as int, #[trigger] r@[k].0),
            forall|i: int, a: Address| holds_at(self@.registry.slots, i, a) ==> r@.contains((a, i as u8)),
            forall|k: int, l: int| 0 <= k < l < r@.len() ==> r@[k].1 < r@[l].1,
    {
        let mut r: Vec<(Address, u8)> = Vec::new();
        let mut i: usize = 0;
        while i < ID_COUNT
            invariant
                self.wf(),
                i <= ID_COUNT,
                forall|k: int| 0 <= k < r@.len() ==> holds_at(self@.registry.slots, r@[k].1 as int, #[trigger] r@[k].0),
                forall|j: int, a: Address| j < i && holds_at(self@.registry.slots, j, a) ==> r@.contains((a, j as u8)),
                forall|k: int| 0 <= k < r@.len() ==> #[trigger] r@[k].1 < i,
                forall|k: int, l: int| 0 <= k < l < r@.len() ==> r@[k].1 < r@[l].1,
            decreases ID_COUNT - i,
        {
            let ghost before = r@;
            proof {
                self.registry.lemma_wf();
            }
            if let Some(a) = self.registry.slot(i) {
                r.push((a, i as u8));
                assert(r@[r@.len() - 1] == (a, i as u8));
            }
            proof {
                assert forall|k: int| 0 <= k < before.len() implies r@[k] == before[k] by {}
                assert forall|j: int, a: Address| j < i + 1 && holds_at(self@.registry.slots, j, a) implies r@.contains((a, j as u8)) by {
                    if j < i {
                        let k = choose|k: int| 0 <= k < before.len() && before[k] == (a, j as u8);
                        assert(r@[k] == (a, j as u8));
                    } else {
                        assert(r@[r@.len() - 1] == (a, j as u8));
                    }
                }
            }
            i = i + 1;
        }
        proof {
            self.registry.lemma_wf();
        }
        r
    }

    /// The latest input of player `id` in this tick; empty if none came.
    pub fn input_of(&self, id: u8) -> (r: InputMask)
        requires
            self.wf(),
        ensures
            r@ == self@.inputs[id as int],
    {
        InputMask::from_bits(self.inputs[id as usize])
    }

    /// Starts a tick: forgets every input of the previous one.
    pub fn begin_tick(&mut self)
        requires
            old(self).wf(),
        ensures
            final(self).wf(),
            final(self)@ == (ServerView { inputs: Seq::new(ID_COUNT as nat, |i: int| 0u8), ..old(self)@ }),
    {
        let mut i: usize = 0;
        while i < ID_COUNT
            invariant
                self.wf(),
                i <= ID_COUNT,
                self.registry@ == old(self).registry@,
                self.channels@ == old(self).channels@,
                self.dropped == old(self).dropped,
                forall|j: int| 0 <= j < i ==> #[trigger] self.inputs@[j] == 0u8,
            decreases ID_COUNT - i,
        {
            self.inputs.set(i, 0);
            i = i + 1;
        }
        assert(self.inputs@ =~= Seq::new(ID_COUNT as nat, |i: int| 0u8));
    }

    /// Frames `message` as the next packet to player `id`.
    pub fn frame_to(&mut self, id: u8, message: &Message) -> (r: Result<Vec<u8>, PacketError>)
        requires
            old(self).wf(),
        ensures
            final(self).wf(),
            r.is_ok() <==> message_bytes(message@).len() <= DATA_BYTES,
            final(self)@.registry == old(self)@.registry,
            final(self)@.inputs == old(self)@.inputs,
            final(self)@.dropped == old(self)@.dropped,
            r.is_ok() ==> final(self)@.channels == old(self)@.channels.update(id as int, advanced(old(self)@.channels[id as int])),
            r.is_err() ==> final(self)@.channels == old(self)@.channels,
            r matches Ok(b) ==> b@ == framed_bytes(PROTOCOL_ID, old(self)@.channels[id as int], message@),
    {
        let mut ch = self.channels[id as usize];
        let r = ch.frame(PROTOCOL_ID, message);
        self.channels.set(id as usize, ch);
        r
    }

    /// A peer timed out: it is removed as if it had disconnected.
    pub fn on_timeout(&mut self, from: &Address) -> (r: ServerAction)
        requires
            old(self).wf(),
        ensures
            final(self).wf(),
            forall|i: int| holds_at(old(self)@.registry.slots, i, *from) ==> (r == removal_action(i)
                && final(self)@ == removed(old(self)@, i)),
            (forall|i: int| !holds_at(old(self)@.registry.slots, i, *from)) ==> r == ServerAction::Nothing && final(self)@ == old(self)@,
    {
        proof {
            self.registry.lemma_wf();
        }
        match self.registry.remove(from) {
            Some(id) => {
                assert(holds_at(old(self)@.registry.slots, id as int, *from));
                self.channels.set(id as usize, Channel::new());
                self.inputs.set(id as usize, 0);
                ServerAction::RemovePlayer { id }
            },
            None => {
                assert(self@ == old(self)@);
                ServerAction::Nothing
            },
        }
    }

    /// Acts on a message from `from` whose packet had sequence number `seq`.
    ///
    /// From a connected peer: a connect is answered with a verify of its id
    /// again, a request whose id is the peer's puts the player into the
    /// world, an input becomes the peer's latest input of the tick, and a
    /// disconnect removes the peer. Each but the disconnect records `seq` in
    /// the peer's channel. From any other address: a connect registers it
    /// under the lowest free id, if there is room, and is answered with a
    /// verify; anything else is ignored.
    pub fn on_message(&mut self, from: &Address, seq: u16, m: &Message) -> (r: ServerAction)
        requires
            old(self).wf(),
        ensures
            final(self).wf(),
            server_step(old(self)@, final(self)@, *from, seq, m@, r),
    {
        proof {
            self.registry.lemma_wf();
        }
        let header = m.header();
        match self.registry.lookup(from) {
            Some(id) => {
                if header == HeaderByte::Disconnect {
                    let _ = self.registry.remove(from);
                    proof {
                        old(self).registry.lemma_wf();
                    }
                    self.channels.set(id as usize, Channel::new());
                    self.inputs.set(id as usize, 0);
                    assert(self@ == removed(old(self)@, id as int));
                    ServerAction::RemovePlayer { id }
                } else {
                    let mut ch = self.channels[id as usize];
                    ch.record(seq);
                    self.channels.set(id as usize, ch);
                    if header == HeaderByte::Connect {
                        ServerAction::SendVerify { to: *from, id }
                    } else if header == HeaderByte::Request {
                        match m.read_request() {
                            Ok((rid, name)) => {
                                if rid == id {
                                    ServerAction::AddPlayer { id, name }
                                } else {
                                    ServerAction::Nothing
                                }
                            },
                            Err(_) => ServerAction::Nothing,
                        }
                    } else if header == HeaderByte::Input {
                        let mask = m.read_input();
                        self.inputs.set(id as usize, mask.bits());
                        ServerAction::Nothing
                    } else {
                        ServerAction::Nothing
                    }
                }
            },
            None => {
                if header == HeaderByte::Connect {
                    match self.registry.try_add(from) {
                        Some(id) => {
                            self.channels.set(id as usize, Channel::starting_at(seq));
                            self.inputs.set(id as usize, 0);
                            ServerAction::SendVerify { to: *from, id }
                        },
                        None => ServerAction::Nothing,
                    }
                } else {
                    ServerAction::Nothing
                }
            },
        }
    }

    /// Acts on a datagram from `from`: drops and counts it when it is not a
    /// packet of this game carrying a message, else acts on the message.
    pub fn on_datagram(&mut self, from: &Address, datagram: &[u8]) -> (r: ServerAction)
        requires
            old(self).wf(),
        ensures
            final(self).wf(),
            open_spec(PROTOCOL_ID, datagram@) is Err ==> r == ServerAction::Nothing && final(self)@
                == (ServerView { dropped: saturating_inc(old(self)@.dropped), ..old(self)@ }),
            open_spec(PROTOCOL_ID, datagram@) matches Ok(p) ==> server_step(
                old(self)@,
                final(self)@,
                *from,
                p.sequence,
                message_of(p.data),
                r,
            ),
    {
        match open_datagram(PROTOCOL_ID, datagram) {
            Ok((p, m)) => {
                proof {
                    crate::message::lemma_message_of(m@);
                }
                self.on_message(from, p.get_sequence(), &m)
            },
            Err(_) => {
                if self.dropped < u64::MAX {
                    self.dropped = self.dropped + 1;
                }
                ServerAction::Nothing
            },
        }
    }
}

/// `x + 1`, stopping at the largest `u64`.
pub open spec fn saturating_inc(x: u64) -> u64 {
    if x < u64::MAX {
        (x + 1) as u64
    } else {
        x
    }
}

} // verus!
