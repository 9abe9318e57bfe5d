//! The application messages carried in a packet's payload: a header byte
//! naming the kind, then a layout of its own for each kind.
use vstd::prelude::*;
use vstd::utf8::{decode_utf8, valid_utf8};
use vstd::string::StringSliceAdditionalSpecFns;
use crate::input::InputMask;
use crate::map::{encodes, map_result, ArenaMap, BlockType, MapError};
use crate::packet::{le_u16, lemma_u16_bytes};
use crate::quantize::QuantizedPosition;

verus! {

broadcast use vstd::utf8::encode_utf8_decode_utf8, vstd::utf8::encode_utf8_valid_utf8;

/// The kind of a message, sent as its first byte.
#[derive(Debug, Clone, Copy, PartialEq, Eq, Structural)]
pub enum HeaderByte {
    Connect,
    Disconnect,
    Verify,
    Request,
    State,
    Input,
}

/// The byte that stands for a message kind.
pub open spec fn header_code(h: HeaderByte) -> u8 {
    match h {
        HeaderByte::Connect => 0,
        HeaderByte::Disconnect => 1,
        HeaderByte::Verify => 2,
        HeaderByte::Request => 3,
        HeaderByte::State => 4,
        HeaderByte::Input => 5,
    }
}

/// Number of message kinds.
pub const HEADER_COUNT: u8 = 6;

impl HeaderByte {
    /// The kind whose byte is `b`, if there is one.
    pub fn from_repr(b: u8) -> (r: Option<HeaderByte>)
        ensures
            r.is_some() <==> b < HEADER_COUNT,
            r matches Some(h) ==> header_code(h) == b,
    {
        match b {
            0 => Some(HeaderByte::Connect),
            1 => Some(HeaderByte::Disconnect),
            2 => Some(HeaderByte::Verify),
            3 => Some(HeaderByte::Request),
            4 => Some(HeaderByte::State),
            5 => Some(HeaderByte::Input),
            _ => None,
        }
    }

    /// The byte that stands for this kind.
    pub fn to_byte(&self) -> (r: u8)
        ensures
            r == header_code(*self),
    {
        match self {
            HeaderByte::Connect => 0,
            HeaderByte::Disconnect => 1,
            HeaderByte::Verify => 2,
            HeaderByte::Request => 3,
            HeaderByte::State => 4,
            HeaderByte::Input => 5,
        }
    }
}

/// The type of a projectile.
#[derive(Debug, Clone, Copy, PartialEq, Eq, Structural)]
pub enum BulletType {
    Pistol,
    Rifle,
    Sniper,
}

/// The byte that stands for a projectile type.
pub open spec fn bullet_code(t: BulletType) -> u8 {
    match t {
        BulletType::Pistol => 0,
        BulletType::Rifle => 1,
        BulletType::Sniper => 2,
    }
}

/// Number of projectile types.
pub const BULLET_TYPE_COUNT: u8 = 3;

/// The projectile type that a byte below `BULLET_TYPE_COUNT` stands for.
pub open spec fn bullet_of_code(b: u8) -> BulletType {
    if b == 0 {
        BulletType::Pistol
    } else if b == 1 {
        BulletType::Rifle
    } else {
        BulletType::Sniper
    }
}

impl BulletType {
    /// The projectile type whose byte is `b`, if there is one.
    pub fn from_repr(b: u8) -> (r: Option<BulletType>)
        ensures
            r.is_some() <==> b < BULLET_TYPE_COUNT,
            r matches Some(t) ==> t == bullet_of_code(b) && bullet_code(t) == b,
    {
        match b {
            0 => Some(BulletType::Pistol),
            1 => Some(BulletType::Rifle),
            2 => Some(BulletType::Sniper),
            _ => None,
        }
    }

    /// The byte that stands for this type.
    pub fn to_byte(&self) -> (r: u8)
        ensures
            r == bullet_code(*self),
    {
        match self {
            BulletType::Pistol => 0,
            BulletType::Rifle => 1,
            BulletType::Sniper => 2,
        }
    }
}

/// Why a payload could not be read as a message.
#[derive(Debug, Clone, Copy, PartialEq, Eq, Structural)]
pub enum DecodeError {
    /// The payload has no header byte.
    Empty,
    /// The header byte names no message kind.
    UnknownHeader,
    /// The message ends before the player id.
    MissingId,
    /// A state message ends before its player count.
    MissingPlayerCount,
    /// A state message ends inside its player records.
    TruncatedPlayer,
    /// A state message ends inside a projectile record.
    TruncatedProjectile,
    /// A projectile record holds a type byte that names no projectile type.
    UnknownProjectileType,
    /// A verify message holds no valid map after the player id.
    InvalidMap(MapError),
}

/// One player of a state message: its id and quantized position.
#[derive(Debug, Clone, Copy, PartialEq, Eq, Structural)]
pub struct PlayerState {
    pub id: u8,
    pub position: QuantizedPosition,
}

/// One projectile of a state message: its id, type and quantized position.
#[derive(Debug, Clone, Copy, PartialEq, Eq, Structural)]
pub struct ProjectileState {
    pub id: u16,
    pub kind: BulletType,
    pub position: QuantizedPosition,
}

/// What a state message holds.
#[derive(Debug, Clone)]
pub struct GameSnapshot {
    pub players: Vec<PlayerState>,
    pub projectiles: Vec<ProjectileState>,
}

/// Bytes of one player record.
pub const PLAYER_RECORD_BYTES: usize = 5;

/// Bytes of one projectile record.
pub const PROJECTILE_RECORD_BYTES: usize = 7;

/// The byte of an `i8` in two's complement.
pub open spec fn i8_byte(x: i8) -> u8 {
    if x >= 0 {
        x as u8
    } else {
        (x + 256) as u8
    }
}

/// The `i8` whose two's complement byte is `b`.
pub open spec fn byte_i8(b: u8) -> i8 {
    if b < 128 {
        b as i8
    } else {
        (b - 256) as i8
    }
}

/// The four bytes of a quantized position.
pub open spec fn position_bytes(p: QuantizedPosition) -> Seq<u8> {
    seq![i8_byte(p.grid_x), i8_byte(p.grid_y), p.sub_x, p.sub_y]
}

/// The bytes of a player record.
pub open spec fn player_bytes(p: PlayerState) -> Seq<u8> {
    seq![p.id] + position_bytes(p.position)
}

/// The bytes of a projectile record.
pub open spec fn projectile_bytes(q: ProjectileState) -> Seq<u8> {
    le_u16(q.id) + seq![bullet_code(q.kind)] + position_bytes(q.position)
}

/// The records of `s`, each written by `f`, one after another.
pub open spec fn concat_records<A>(s: Seq<A>, f: spec_fn(A) -> Seq<u8>) -> Seq<u8>
    decreases s.len(),
{
    if s.len() == 0 {
        Seq::empty()
    } else {
        concat_records(s.drop_last(), f) + f(s.last())
    }
}

/// The player records of a state message.
pub open spec fn players_bytes(s: Seq<PlayerState>) -> Seq<u8> {
    concat_records(s, |p: PlayerState| player_bytes(p))
}

/// The projectile records of a state message.
pub open spec fn projectiles_bytes(s: Seq<ProjectileState>) -> Seq<u8> {
    concat_records(s, |q: ProjectileState| projectile_bytes(q))
}

/// The payload of a state message.
pub open spec fn state_bytes(players: Seq<PlayerState>, projectiles: Seq<ProjectileState>) -> Seq<
    u8,
> {
    seq![players.len() as u8] + players_bytes(players) + projectiles_bytes(projectiles)
}

/// The quantized position whose bytes start `d` at `i`.
pub open spec fn position_at(d: Seq<u8>, i: int) -> QuantizedPosition {
    QuantizedPosition {
        grid_x: byte_i8(d[i]),
        grid_y: byte_i8(d[i + 1]),
        sub_x: d[i + 2],
        sub_y: d[i + 3],
    }
}

/// The player record that starts `d` at `i`.
pub open spec fn player_at(d: Seq<u8>, i: int) -> PlayerState {
    PlayerState { id: d[i], position: position_at(d, i + 1) }
}

/// The projectile record that starts `d` at `i`.
pub open spec fn projectile_at(d: Seq<u8>, i: int) -> ProjectileState {
    ProjectileState {
        id: (d[i] + 256 * d[i + 1]) as u16,
        kind: bullet_of_code(d[i + 2]),
        position: position_at(d, i + 3),
    }
}

/// Where the projectile records of a state payload start.
pub open spec fn projectiles_start(d: Seq<u8>) -> int {
    1 + 5 * d[0]
}

/// Number of complete projectile records in a state payload.
pub open spec fn projectile_count(d: Seq<u8>) -> int {
    (d.len() - projectiles_start(d)) / 7
}

/// Whether a complete projectile record of a state payload holds a type byte
/// that names no projectile type.
pub open spec fn has_unknown_projectile(d: Seq<u8>) -> bool {
    exists|k: int|
        0 <= k < projectile_count(d) && #[trigger] d[projectiles_start(d) + 7 * k + 2]
            >= BULLET_TYPE_COUNT
}

/// The outcome of reading a state payload: the player count, that many
/// player records, then projectile records up to the end. A trailing partial
/// projectile record is an error, as is an unknown projectile type.
pub open spec fn state_result(d: Seq<u8>) -> Result<(Seq<PlayerState>, Seq<ProjectileState>), DecodeError> {
    if d.len() == 0 {
        Err(DecodeError::MissingPlayerCount)
    } else if d.len() < projectiles_start(d) {
        Err(DecodeError::TruncatedPlayer)
    } else if has_unknown_projectile(d) {
        Err(DecodeError::UnknownProjectileType)
    } else if (d.len() - projectiles_start(d)) % 7 != 0 {
        Err(DecodeError::TruncatedProjectile)
    } else {
        Ok(
            (
                Seq::new(d[0] as nat, |i: int| player_at(d, 1 + 5 * i)),
                Seq::new(
                    projectile_count(d) as nat,
                    |k: int| projectile_at(d, projectiles_start(d) + 7 * k),
                ),
            ),
        )
    }
}

/// What a message holds.
pub struct MessageView {
    pub header: HeaderByte,
    pub data: Seq<u8>,
}

/// The bytes of a message in a packet's payload.
pub open spec fn message_bytes(m: MessageView) -> Seq<u8> {
    seq![header_code(m.header)] + m.data
}

/// The message kind that header byte `b`, below `HEADER_COUNT`, names.
pub open spec fn header_of(b: u8) -> HeaderByte {
    if b == 0 {
        HeaderByte::Connect
    } else if b == 1 {
        HeaderByte::Disconnect
    } else if b == 2 {
        HeaderByte::Verify
    } else if b == 3 {
        HeaderByte::Request
    } else if b == 4 {
        HeaderByte::State
    } else {
        HeaderByte::Input
    }
}

/// The message that a payload with a known header byte holds.
pub open spec fn message_of(payload: Seq<u8>) -> MessageView {
    MessageView { header: header_of(payload[0]), data: payload.drop_first() }
}

/// A message is the one that its bytes hold.
pub proof fn lemma_message_of(m: MessageView)
    ensures
        message_of(message_bytes(m)) == m,
{
    assert(message_bytes(m).drop_first() =~= m.data);
}

/// The text that `String::from_utf8_lossy` makes of `b`.
pub uninterp spec fn lossy_utf8(b: Seq<u8>) -> Seq<char>;

/// Relies on `String::from_utf8_lossy`: valid UTF-8 decodes to its
/// characters, and invalid sequences become replacement characters.
#[verifier::external_body]
fn lossy_string(b: &[u8]) -> (r: String)
    ensures
        r@ == lossy_utf8(b@),
        valid_utf8(b@) ==> r@ == decode_utf8(b@),
{
    String::from_utf8_lossy(b).into_owned()
}

/// Appends the bytes of `b`.
fn append_bytes(v: &mut Vec<u8>, b: &[u8])
    ensures
        final(v)@ == old(v)@ + b@,
{
    let mut i: usize = 0;
    while i < b.len()
        invariant
            i <= b@.len(),
            v@ == old(v)@ + b@.subrange(0, i as int),
        decreases b@.len() - i,
    {
        v.push(b[i]);
        i = i + 1;
    }
    assert(b@.subrange(0, b@.len() as int) == b@);
}

/// Copies `b[start..]` into a new vector.
fn tail_of(b: &Vec<u8>, start: usize) -> (r: Vec<u8>)
    requires
        start <= b@.len(),
    ensures
        r@ == b@.subrange(start as int, b@.len() as int),
{
    let mut r: Vec<u8> = Vec::new();
    let mut i: usize = start;
    while i < b.len()
        invariant
            start <= i <= b@.len(),
            r@ == b@.subrange(start as int, i as int),
        decreases b@.len() - i,
    {
        r.push(b[i]);
        i = i + 1;
    }
    r
}

fn i8_to_byte(x: i8) -> (r: u8)
    ensures
        r == i8_byte(x),
{
    if x >= 0 {
        x as u8
    } else {
        (x as i16 + 256) as u8
    }
}

fn byte_to_i8(b: u8) -> (r: i8)
    ensures
        r == byte_i8(b),
{
    if b < 128 {
        b as i8
    } else {
        (b as i16 - 256) as i8
    }
}

/// Appends the four bytes of a quantized position.
fn push_position(v: &mut Vec<u8>, p: QuantizedPosition)
    ensures
        final(v)@ == old(v)@ + position_bytes(p),
{
    v.push(i8_to_byte(p.grid_x));
    v.push(i8_to_byte(p.grid_y));
    v.push(p.sub_x);
    v.push(p.sub_y);
    assert(final(v)@ =~= old(v)@ + position_bytes(p));
}

/// Reads the quantized position whose bytes start `d` at `i`.
fn read_position(d: &Vec<u8>, i: usize) -> (r: QuantizedPosition)
    requires
        i + 4 <= d@.len(),
    ensures
        r == position_at(d@, i as int),
{
    let len = d.len();
    assert(i + 3 < len);
    QuantizedPosition {
        grid_x: byte_to_i8(d[i]),
        grid_y: byte_to_i8(d[i + 1]),
        sub_x: d[i + 2],
        sub_y: d[i + 3],
    }
}

/// A typed application message: its kind and the bytes that follow the
/// header byte.
#[derive(Debug, Clone)]
pub struct Message {
    header: HeaderByte,
    data: Vec<u8>,
}

impl View for Message {
    type V = MessageView;

    closed spec fn view(&self) -> MessageView {
        MessageView { header: self.header, data: self.data@ }
    }
}

impl Message {
    /// The kind of the message.
    pub fn header(&self) -> (r: HeaderByte)
        ensures
            r == self@.header,
    {
        self.header
    }

    /// The bytes after the header byte.
    pub fn data(&self) -> (r: &Vec<u8>)
        ensures
            r@ == self@.data,
    {
        &self.data
    }

    /// Reads a message from a packet's payload: the first byte names the
    /// kind, the rest is the message's data.
    pub fn from_bytes(payload: &[u8]) -> (r: Result<Message, DecodeError>)
        ensures
            r == Err::<Message, DecodeError>(DecodeError::Empty) <==> payload@.len() == 0,
            r == Err::<Message, DecodeError>(DecodeError::UnknownHeader) <==> (payload@.len() > 0
                && payload@[0] >= HEADER_COUNT),
            r.is_ok() <==> (payload@.len() > 0 && payload@[0] < HEADER_COUNT),
            r matches Ok(m) ==> message_bytes(m@) == payload@,
    {
        if payload.len() == 0 {
            return Err(DecodeError::Empty);
        }
        match HeaderByte::from_repr(payload[0]) {
            Some(header) => {
                let mut data: Vec<u8> = Vec::new();
                let mut i: usize = 1;
                while i < payload.len()
                    invariant
                        1 <= i <= payload@.len(),
                        data@ == payload@.subrange(1, i as int),
                    decreases payload@.len() - i,
                {
                    data.push(payload[i]);
                    i = i + 1;
                }
                let m = Message { header, data };
                assert(message_bytes(m@) =~= payload@);
                Ok(m)
            },
            None => Err(DecodeError::UnknownHeader),
        }
    }

    /// The bytes of the message: the header byte, then the data.
    pub fn to_vec(&self) -> (r: Vec<u8>)
        ensures
            r@ == message_bytes(self@),
    {
        let mut v: Vec<u8> = Vec::new();
        v.push(self.header.to_byte());
        append_bytes(&mut v, self.data.as_slice());
        v
    }

    /// A connect message: the player's display name in UTF-8.
    pub fn write_connect(name: &str) -> (r: Message)
        ensures
            r@.header == HeaderByte::Connect,
            r@.data == name.spec_bytes(),
    {
        let mut data: Vec<u8> = Vec::new();
        append_bytes(&mut data, name.as_bytes());
        assert(data@ =~= name.spec_bytes());
        Message { header: HeaderByte::Connect, data }
    }

    /// A disconnect message, with no data.
    pub fn write_disconnect() -> (r: Message)
        ensures
            r@.header == HeaderByte::Disconnect,
            r@.data == Seq::<u8>::empty(),
    {
        let r = Message { header: HeaderByte::Disconnect, data: Vec::new() };
        assert(r@.data =~= Seq::<u8>::empty());
        r
    }

    /// A request message: the assigned player id, then the display name in
    /// UTF-8.
    pub fn write_request(name: &str, id: u8) -> (r: Message)
        ensures
            r@.header == HeaderByte::Request,
            r@.data == seq![id] + name.spec_bytes(),
    {
        let mut data: Vec<u8> = Vec::new();
        data.push(id);
        append_bytes(&mut data, name.as_bytes());
        Message { header: HeaderByte::Request, data }
    }

    /// A verify message: the assigned player id, then the two bit layers of
    /// the map.
    pub fn write_verify(id: u8, map: &ArenaMap) -> (r: Message)
        requires
            map.wf(),
        ensures
            r@.header == HeaderByte::Verify,
            r@.data.len() > 0,
            r@.data[0] == id,
            encodes(r@.data.drop_first(), map@),
    {
        let mut data: Vec<u8> = Vec::new();
        data.push(id);
        let bytes = map.to_bytes();
        append_bytes(&mut data, bytes.as_slice());
        assert(data@.drop_first() =~= bytes@);
        Message { header: HeaderByte::Verify, data }
    }

    /// An input message: the input mask as one byte.
    pub fn write_input(input: InputMask) -> (r: Message)
        ensures
            r@.header == HeaderByte::Input,
            r@.data == seq![input@],
    {
        let mut data: Vec<u8> = Vec::new();
        data.push(input.bits());
        assert(data@ =~= seq![input@]);
        Message { header: HeaderByte::Input, data }
    }

    /// A state message: the player count, a record of id and position for
    /// each player, then a record of id, type and position for each
    /// projectile. The projectile count is not written: it follows from the
    /// length.
    pub fn write_state(players: &[PlayerState], projectiles: &[ProjectileState]) -> (r: Message)
        requires
            players@.len() <= 255,
        ensures
            r@.header == HeaderByte::State,
            r@.data == state_bytes(players@, projectiles@),
    {
        let mut data: Vec<u8> = Vec::new();
        data.push(players.len() as u8);
        let mut i: usize = 0;
        while i < players.len()
            invariant
                i <= players@.len() <= 255,
                data@ == seq![players@.len() as u8] + players_bytes(players@.subrange(0, i as int)),
            decreases players@.len() - i,
        {
            let ghost before = data@;
            let p = players[i];
            data.push(p.id);
            push_position(&mut data, p.position);
            proof {
                let s = players@.subrange(0, i + 1);
                assert(s.drop_last() =~= players@.subrange(0, i as int));
                assert(s.last() == p);
                assert(players_bytes(s) == players_bytes(s.drop_last()) + player_bytes(p));
                assert(data@ =~= seq![players@.len() as u8] + players_bytes(s));
                assert(data@ =~= before + player_bytes(p));
            }
            i = i + 1;
        }
        assert(players@.subrange(0, players@.len() as int) =~= players@);
        let ghost mid = data@;
        let mut k: usize = 0;
        while k < projectiles.len()
            invariant
                k <= projectiles@.len(),
                players@.len() <= 255,
                mid == seq![players@.len() as u8] + players_bytes(players@),
                data@ == mid + projectiles_bytes(projectiles@.subrange(0, k as int)),
            decreases projectiles@.len() - k,
        {
            let ghost before = data@;
            let q = projectiles[k];
            data.push((q.id % 256) as u8);
            data.push((q.id / 256) as u8);
            data.push(q.kind.to_byte());
            push_position(&mut data, q.position);
            proof {
                let s = projectiles@.subrange(0, k + 1);
                assert(s.drop_last() =~= projectiles@.subrange(0, k as int));
                assert(s.last() == q);
                assert(projectiles_bytes(s) == projectiles_bytes(s.drop_last()) + projectile_bytes(q));
                assert(data@ =~= mid + projectiles_bytes(s));
                assert(data@ =~= before + projectile_bytes(q));
            }
            k = k + 1;
        }
        assert(projectiles@.subrange(0, projectiles@.len() as int) =~= projectiles@);
        assert(data@ =~= state_bytes(players@, projectiles@));
        Message { header: HeaderByte::State, data }
    }

    /// Reads the data of a state message. Fails when it ends before the
    /// player count or inside the player records, when a projectile record
    /// names an unknown type, or when it ends inside a projectile record.
    pub fn read_state(&self) -> (r: Result<GameSnapshot, DecodeError>)
        ensures
            r matches Ok(s) ==> state_result(self@.data) == Ok::<
                (Seq<PlayerState>, Seq<ProjectileState>),
                DecodeError,
            >((s.players@, s.projectiles@)),
            r matches Err(e) ==> state_result(self@.data) == Err::<
                (Seq<PlayerState>, Seq<ProjectileState>),
                DecodeError,
            >(e),
    {
        let d = &self.data;
        let len = d.len();
        if len == 0 {
            return Err(DecodeError::MissingPlayerCount);
        }
        let count = d[0];
        let start: usize = 1 + 5 * (count as usize);
        if len < start {
            return Err(DecodeError::TruncatedPlayer);
        }
        let mut players: Vec<PlayerState> = Vec::new();
        let mut i: usize = 0;
        while i < count as usize
            invariant
                d@ == self@.data,
                len == d@.len(),
                count == d@[0],
                start == 1 + 5 * count,
                start <= len,
                i <= count,
                players@ =~= Seq::new(i as nat, |j: int| player_at(d@, 1 + 5 * j)),
            decreases count - i,
        {
            let at: usize = 1 + 5 * i;
            let position = read_position(d, at + 1);
            players.push(PlayerState { id: d[at], position });
            i = i + 1;
        }
        let rest: usize = len - start;
        let n: usize = rest / 7;
        let mut projectiles: Vec<ProjectileState> = Vec::new();
        let mut k: usize = 0;
        while k < n
            invariant
                d@ == self@.data,
                len == d@.len(),
                start == projectiles_start(d@),
                start <= len,
                rest == len - start,
                n == projectile_count(d@),
                k <= n,
                forall|j: int| 0 <= j < k ==> #[trigger] d@[start + 7 * j + 2] < BULLET_TYPE_COUNT,
                projectiles@ =~= Seq::new(
                    k as nat,
                    |j: int| projectile_at(d@, start + 7 * j),
                ),
            decreases n - k,
        {
            let at: usize = start + 7 * k;
            match BulletType::from_repr(d[at + 2]) {
                Some(kind) => {
                    let id: u16 = d[at] as u16 + (d[at + 1] as u16) * 256;
                    let position = read_position(d, at + 3);
                    projectiles.push(ProjectileState { id, kind, position });
                },
                None => {
                    let ghost j: int = k as int;
                    assert(d@[projectiles_start(d@) + 7 * j + 2] >= BULLET_TYPE_COUNT);
                    assert(has_unknown_projectile(d@));

                    return Err(DecodeError::UnknownProjectileType);
                },
            }
            k = k + 1;
        }
        assert(!has_unknown_projectile(d@));
        if rest % 7 != 0 {
            return Err(DecodeError::TruncatedProjectile);
        }
        Ok(GameSnapshot { players, projectiles })
    }

    /// Reads the data of a request message: the player id and the display
    /// name, with invalid UTF-8 replaced.
    pub fn read_request(&self) -> (r: Result<(u8, String), DecodeError>)
        ensures
            r.is_err() <==> self@.data.len() == 0,
            r matches Err(e) ==> e == DecodeError::MissingId,
            r matches Ok((id, name)) ==> id == self@.data[0] && name@ == lossy_utf8(
                self@.data.drop_first(),
            ) && (valid_utf8(self@.data.drop_first()) ==> name@ == decode_utf8(
                self@.data.drop_first(),
            )),
    {
        if self.data.len() == 0 {
            return Err(DecodeError::MissingId);
        }
        let rest = tail_of(&self.data, 1);
        assert(rest@ =~= self@.data.drop_first());
        let name = lossy_string(rest.as_slice());
        Ok((self.data[0], name))
    }

    /// Reads the data of a verify message: the player id and the map. Fails
    /// when there is no id, or when the bytes after it hold no valid map.
    pub fn read_verify(&self) -> (r: Result<(u8, ArenaMap), DecodeError>)
        ensures
            self@.data.len() == 0 <==> r == Err::<(u8, ArenaMap), DecodeError>(DecodeError::MissingId),
            self@.data.len() > 0 ==> (r matches Ok((id, map)) <==> map_result(self@.data.drop_first()) is Ok),
            r matches Ok((id, map)) ==> id == self@.data[0] && map.wf() && map_result(
                self@.data.drop_first(),
            ) == Ok::<Seq<Option<BlockType>>, MapError>(map@),
            r matches Err(e) ==> self@.data.len() == 0 || (map_result(self@.data.drop_first())
                matches Err(me) && e == DecodeError::InvalidMap(me)),
    {
        if self.data.len() == 0 {
            return Err(DecodeError::MissingId);
        }
        let rest = tail_of(&self.data, 1);
        assert(rest@ =~= self@.data.drop_first());
        match ArenaMap::from_bytes(rest.as_slice()) {
            Ok(map) => Ok((self.data[0], map)),
            Err(e) => Err(DecodeError::InvalidMap(e)),
        }
    }

    /// Reads the data of an input message: its first byte as an input mask,
    /// or the empty mask when there is no data.
    pub fn read_input(&self) -> (r: InputMask)
        ensures
            self@.data.len() > 0 ==> r@ == self@.data[0],
            self@.data.len() == 0 ==> r@ == 0,
    {
        if self.data.len() > 0 {
            InputMask::from_bits(self.data[0])
        } else {
            InputMask::new()
        }
    }
}

/// The records of `s`, all of width `w`, take `w` bytes each.
proof fn lemma_concat_len<A>(s: Seq<A>, f: spec_fn(A) -> Seq<u8>, w: int)
    requires
        w > 0,
        forall|i: int| 0 <= i < s.len() ==> (#[trigger] f(s[i])).len() == w,
    ensures
        concat_records(s, f).len() == w * s.len(),
    decreases s.len(),
{
    if s.len() > 0 {
        assert forall|i: int| 0 <= i < s.drop_last().len() implies (#[trigger] f(
            s.drop_last()[i],
        )).len() == w by {
            assert(s.drop_last()[i] == s[i]);
        }
        lemma_concat_len(s.drop_last(), f, w);
        assert(f(s[s.len() - 1]).len() == w);
        assert(w * s.len() == w * (s.len() - 1) + w) by (nonlinear_arith);
    }
}

/// Byte `k` of record `i` of records of width `w` stands at `w * i + k`.
proof fn lemma_concat_at<A>(s: Seq<A>, f: spec_fn(A) -> Seq<u8>, w: int, i: int, k: int)
    requires
        w > 0,
        forall|j: int| 0 <= j < s.len() ==> (#[trigger] f(s[j])).len() == w,
        0 <= i < s.len(),
        0 <= k < w,
    ensures
        concat_records(s, f)[w * i + k] == f(s[i])[k],
    decreases s.len(),
{
    let t = s.drop_last();
    assert forall|j: int| 0 <= j < t.len() implies (#[trigger] f(t[j])).len() == w by {
        assert(t[j] == s[j]);
    }
    lemma_concat_len(t, f, w);
    if i < s.len() - 1 {
        assert(w * i + k < w * t.len()) by (nonlinear_arith)
            requires
                w > 0,
                i < t.len(),
                k < w,
        ;
        assert(t[i] == s[i]);
        lemma_concat_at(t, f, w, i, k);
    } else {
        assert(w * i == w * t.len());
    }
}

proof fn lemma_i8_byte(x: i8)
    ensures
        byte_i8(i8_byte(x)) == x,
{
}

proof fn lemma_position_bytes(d: Seq<u8>, at: int, p: QuantizedPosition)
    requires
        0 <= at,
        at + 4 <= d.len(),
        forall|k: int| 0 <= k < 4 ==> d[at + k] == #[trigger] position_bytes(p)[k],
    ensures
        position_at(d, at) == p,
{
    assert(d[at] == position_bytes(p)[0]);
    assert(d[at + 1] == position_bytes(p)[1]);
    assert(d[at + 2] == position_bytes(p)[2]);
    assert(d[at + 3] == position_bytes(p)[3]);
    lemma_i8_byte(p.grid_x);
    lemma_i8_byte(p.grid_y);
}

proof fn lemma_state_layout(players: Seq<PlayerState>, projectiles: Seq<ProjectileState>)
    requires
        players.len() <= 255,
    ensures
        ({
            let d = state_bytes(players, projectiles);
            &&& d.len() == 1 + 5 * players.len() + 7 * projectiles.len()
            &&& d[0] == players.len()
            &&& projectiles_start(d) == 1 + 5 * players.len()
            &&& forall|i: int, k: int|
                0 <= i < players.len() && 0 <= k < 5 ==> d[1 + 5 * i + k] == #[trigger] player_bytes(
                    players[i],
                )[k]
            &&& forall|i: int, k: int|
                0 <= i < projectiles.len() && 0 <= k < 7 ==> d[1 + 5 * players.len() + 7 * i + k]
                    == #[trigger] projectile_bytes(projectiles[i])[k]
        }),
{
    let d = state_bytes(players, projectiles);
    let fp = |p: PlayerState| player_bytes(p);
    let fq = |q: ProjectileState| projectile_bytes(q);
    assert forall|j: int| 0 <= j < players.len() implies (#[trigger] fp(players[j])).len() == 5 by {}
    assert forall|j: int| 0 <= j < projectiles.len() implies (#[trigger] fq(projectiles[j])).len()
        == 7 by {}
    lemma_concat_len(players, fp, 5);
    lemma_concat_len(projectiles, fq, 7);
    let pb = players_bytes(players);
    assert forall|i: int, k: int| 0 <= i < players.len() && 0 <= k < 5 implies d[1 + 5 * i + k]
        == #[trigger] player_bytes(players[i])[k] by {
        lemma_concat_at(players, fp, 5, i, k);
    }
    assert forall|i: int, k: int| 0 <= i < projectiles.len() && 0 <= k < 7 implies d[1 + 5
        * players.len() + 7 * i + k] == #[trigger] projectile_bytes(projectiles[i])[k] by {
        lemma_concat_at(projectiles, fq, 7, i, k);
    }
}

/// Reading back the payload of a state message gives the players and the
/// projectiles that were written, in order.
pub proof fn lemma_state_round_trip(players: Seq<PlayerState>, projectiles: Seq<ProjectileState>)
    requires
        players.len() <= 255,
    ensures
        state_result(state_bytes(players, projectiles)) == Ok::<
            (Seq<PlayerState>, Seq<ProjectileState>),
            DecodeError,
        >((players, projectiles)),
{
    let d = state_bytes(players, projectiles);
    lemma_state_layout(players, projectiles);
    let start = projectiles_start(d);
    assert((d.len() - start) == 7 * projectiles.len());
    assert(projectile_count(d) == projectiles.len());
    assert forall|k: int| 0 <= k < projectile_count(d) implies #[trigger] d[projectiles_start(d) + 7
        * k + 2] < BULLET_TYPE_COUNT by {
        assert(projectile_bytes(projectiles[k])[2] == bullet_code(projectiles[k].kind));
    }
    assert forall|i: int| 0 <= i < players.len() implies player_at(d, 1 + 5 * i) == players[i] by {
        let p = players[i];
        assert(d[1 + 5 * i] == player_bytes(p)[0]);
        assert forall|k: int| 0 <= k < 4 implies d[1 + 5 * i + 1 + k] == #[trigger] position_bytes(
            p.position,
        )[k] by {
            assert(d[1 + 5 * i + (k + 1)] == player_bytes(p)[k + 1]);
        }
        lemma_position_bytes(d, 1 + 5 * i + 1, p.position);
    }
    assert forall|i: int| 0 <= i < projectiles.len() implies projectile_at(d, start + 7 * i)
        == projectiles[i] by {
        let q = projectiles[i];
        let at = start + 7 * i;
        assert(d[at] == projectile_bytes(q)[0]);
        assert(d[at + 1] == projectile_bytes(q)[1]);
        assert(d[at + 2] == projectile_bytes(q)[2]);
        lemma_u16_bytes(q.id);
        assert forall|k: int| 0 <= k < 4 implies d[at + 3 + k] == #[trigger] position_bytes(
            q.position,
        )[k] by {
            assert(d[at + (k + 3)] == projectile_bytes(q)[k + 3]);
        }
        lemma_position_bytes(d, at + 3, q.position);
    }
    assert(Seq::new(d[0] as nat, |i: int| player_at(d, 1 + 5 * i)) =~= players);
    assert(Seq::new(projectile_count(d) as nat, |k: int| projectile_at(d, start + 7 * k))
        =~= projectiles);
}

/// A state payload that ends inside a projectile record is rejected as
/// truncated, rather than read as a partial record.
pub proof fn lemma_trailing_partial_record_rejected(
    players: Seq<PlayerState>,
    projectiles: Seq<ProjectileState>,
    trailing: Seq<u8>,
)
    requires
        players.len() <= 255,
        0 < trailing.len() < PROJECTILE_RECORD_BYTES,
    ensures
        state_result(state_bytes(players, projectiles) + trailing) == Err::<
            (Seq<PlayerState>, Seq<ProjectileState>),
            DecodeError,
        >(DecodeError::TruncatedProjectile),
{
    let e = state_bytes(players, projectiles);
    let d = e + trailing;
    lemma_state_layout(players, projectiles);
    assert(d[0] == e[0]);
    let start = projectiles_start(d);
    assert(d.len() - start == 7 * projectiles.len() + trailing.len());
    assert(projectile_count(d) == projectiles.len());
    assert forall|k: int| 0 <= k < projectile_count(d) implies #[trigger] d[projectiles_start(d) + 7
        * k + 2] < BULLET_TYPE_COUNT by {
        assert(d[start + 7 * k + 2] == e[start + 7 * k + 2]);
        assert(projectile_bytes(projectiles[k])[2] == bullet_code(projectiles[k].kind));
    }
}

} // verus!
