use crate::common::{roster, Player, PlayerView};
use crate::errors::RequestError;
use crate::fields::{after_int, after_str, failed, Cursor};
use crate::buffer::buffer_bytes;
use crate::util::{create_packet, packet_layout, wire_tag, PacketType};
use vstd::prelude::*;
use vstd::slice::slice_subrange;

verus! {

/// Where the tag of a server's reply starts, and where its fields start.
pub const TAG_OFFSET: usize = 10;

pub const FIELDS_OFFSET: usize = 14;

/// How many continuation datagrams one query takes at most.
pub const MAX_MORE_PACKETS: u8 = 6;

/// The size of a receive buffer: no datagram of the protocol is longer.
pub const DATAGRAM_SIZE: usize = 1400;

/// The status of one game server.
#[derive(Debug)]
pub struct ServerInfo {
    pub version: String,
    pub token: i32,
    pub name: String,
    pub map: String,
    pub password: bool,
    pub game_type: String,
    pub player_count: i32,
    pub max_player_count: i32,
    pub client_count: i32,
    pub max_client_count: i32,
    pub map_crc: Option<i32>,
    pub map_size: Option<i32>,
    pub players: Vec<Player>,
}

/// What a server's status says, as plain values.
pub struct ServerInfoView {
    pub version: Seq<char>,
    pub token: i32,
    pub name: Seq<char>,
    pub map: Seq<char>,
    pub password: bool,
    pub game_type: Seq<char>,
    pub player_count: i32,
    pub max_player_count: i32,
    pub client_count: i32,
    pub max_client_count: i32,
    pub map_crc: Option<i32>,
    pub map_size: Option<i32>,
    pub players: Seq<PlayerView>,
}

impl View for ServerInfo {
    type V = ServerInfoView;

    open spec fn view(&self) -> ServerInfoView {
        ServerInfoView {
            version: self.version@,
            token: self.token,
            name: self.name@,
            map: self.map@,
            password: self.password,
            game_type: self.game_type@,
            player_count: self.player_count,
            max_player_count: self.max_player_count,
            client_count: self.client_count,
            max_client_count: self.max_client_count,
            map_crc: self.map_crc,
            map_size: self.map_size,
            players: roster(self.players@),
        }
    }
}

/// The number that a server echoes for a token pair: the extra token in the
/// upper bits, the token in the lowest eight.
pub open spec fn token_value(extra_token: u16, token: u8) -> int {
    extra_token * 256 + token
}

/// The error for a token that is not the one sent: it carries the pair that
/// was wanted and the pair that the received number unpacks to.
pub open spec fn token_mismatch(extra_token: u16, token: u8, received: i32) -> RequestError {
    RequestError::TokenError {
        wanted_extra_token: extra_token,
        wanted_token: token,
        received_extra_token: ((received as u32) / 256 % 65536) as u16,
        received_token: ((received as u32) % 256) as u8,
    }
}

/// The token field at the cursor: a number, and the failure of the cursor
/// where that number is not the one that stands for the pair sent.
pub open spec fn after_token(data: Seq<u8>, c: Cursor, extra_token: u16, token: u8) -> (
    i32,
    Cursor,
) {
    let (received, next) = after_int(data, c);
    if next.failure is Some || received == token_value(extra_token, token) {
        (received, next)
    } else {
        (received, failed(c, token_mismatch(extra_token, token, received)))
    }
}

/// One player record at the cursor: name, clan, country, score and the flag
/// that is 1 for one who plays, then the reserved field in the extended
/// variant.
pub open spec fn after_player(data: Seq<u8>, c: Cursor, extended: bool) -> (PlayerView, Cursor) {
    let (name, c1) = after_str(data, c);
    let (clan, c2) = after_str(data, c1);
    let (country, c3) = after_int(data, c2);
    let (score, c4) = after_int(data, c3);
    let (playing, c5) = after_int(data, c4);
    let (reserved, c6) = if extended {
        let (text, next) = after_str(data, c5);
        (Some(text), next)
    } else {
        (None, c5)
    };
    (PlayerView { name, clan, country, score, is_spectator: playing != 1, reserved }, c6)
}

/// The players that stand at the cursor, in order: at most `wanted` of
/// them, and none from the first record that is incomplete or malformed.
pub open spec fn players_from(data: Seq<u8>, c: Cursor, extended: bool, wanted: nat) -> Seq<
    PlayerView,
>
    decreases wanted,
{
    if wanted == 0 {
        Seq::<PlayerView>::empty()
    } else {
        let (player, next) = after_player(data, c, extended);
        if next.failure is Some {
            Seq::<PlayerView>::empty()
        } else {
            seq![player] + players_from(data, next, extended, (wanted - 1) as nat)
        }
    }
}

/// How many players a roster of `have` still lacks of the declared count.
pub open spec fn open_slots(client_count: i32, have: nat) -> nat {
    if client_count > have {
        (client_count - have) as nat
    } else {
        0
    }
}

/// Whether a reply is of the extended variant: its tag is `iext`.
pub open spec fn is_extended_reply(data: Seq<u8>) -> bool {
    data.len() >= 14 && data.subrange(10, 14) == wire_tag(PacketType::InfoExtended)
}

/// What a main reply says, or why it says nothing. The fields are read
/// strictly in order and the first one that fails decides the error; the
/// token is checked as soon as it is read. The players that follow the
/// header are read until the declared client count is reached or a record
/// fails, which is no error.
pub open spec fn main_reply(data: Seq<u8>, extra_token: u16, token: u8) -> Result<
    ServerInfoView,
    RequestError,
> {
    if data.len() < 14 {
        Err(RequestError::Missing)
    } else {
        let extended = is_extended_reply(data);
        let c0 = Cursor { pos: 14, failure: None };
        let (received, c1) = after_token(data, c0, extra_token, token);
        let (version, c2) = after_str(data, c1);
        let (name, c3) = after_str(data, c2);
        let (map, c4) = after_str(data, c3);
        let (map_crc, c5) = if extended {
            after_int(data, c4)
        } else {
            (0i32, c4)
        };
        let (map_size, c6) = if extended {
            after_int(data, c5)
        } else {
            (0i32, c5)
        };
        let (game_type, c7) = after_str(data, c6);
        let (flags, c8) = after_int(data, c7);
        let (player_count, c9) = after_int(data, c8);
        let (max_player_count, c10) = after_int(data, c9);
        let (client_count, c11) = after_int(data, c10);
        let (max_client_count, c12) = after_int(data, c11);
        let (reserved, c13) = after_str(data, c12);
        match c13.failure {
            Some(e) => Err(e),
            None => Ok(
                ServerInfoView {
                    version,
                    token: received,
                    name,
                    map,
                    password: flags & 1 == 1,
                    game_type,
                    player_count,
                    max_player_count,
                    client_count,
                    max_client_count,
                    map_crc: if extended {
                        Some(map_crc)
                    } else {
                        None
                    },
                    map_size: if extended {
                        Some(map_size)
                    } else {
                        None
                    },
                    players: players_from(data, c13, extended, open_slots(client_count, 0)),
                },
            ),
        }
    }
}

/// Whether a datagram bears the tag of a continuation, `iex+`.
pub open spec fn has_more_tag(data: Seq<u8>) -> bool {
    data.len() >= 14 && data.subrange(10, 14) == wire_tag(PacketType::InfoExtendedMore)
}

/// The header of a continuation datagram: the token, checked; the packet's
/// sequence number; a reserved field. Gives the sequence number and the
/// cursor behind the header.
pub open spec fn more_header(data: Seq<u8>, extra_token: u16, token: u8) -> (i32, Cursor) {
    let c0 = Cursor { pos: 14, failure: None };
    let (received, c1) = after_token(data, c0, extra_token, token);
    let (sequence, c2) = after_int(data, c1);
    let (reserved, c3) = after_str(data, c2);
    (sequence, c3)
}

/// Whether a continuation datagram is folded in: its header is complete,
/// its token is the one sent, and its sequence number is new.
pub open spec fn more_accepted(data: Seq<u8>, extra_token: u16, token: u8, seen: Seq<i32>) -> bool {
    &&& data.len() >= 14
    &&& more_header(data, extra_token, token).1.failure is None
    &&& !seen.contains(more_header(data, extra_token, token).0)
}

/// The status and the sequence numbers seen after a continuation datagram. A
/// datagram that is not accepted changes neither. An accepted one adds its
/// sequence number and as many of its players as the roster still lacks.
pub open spec fn more_reply(
    info: ServerInfoView,
    seen: Seq<i32>,
    data: Seq<u8>,
    extra_token: u16,
    token: u8,
) -> (ServerInfoView, Seq<i32>) {
    if more_accepted(data, extra_token, token, seen) {
        let (sequence, c) = more_header(data, extra_token, token);
        (
            ServerInfoView {
                players: info.players + players_from(
                    data,
                    c,
                    info.map_crc is Some,
                    open_slots(info.client_count, info.players.len()),
                ),
                ..info
            },
            seen.push(sequence),
        )
    } else {
        (info, seen)
    }
}

/// A roster never holds more players than the declared client count.
pub open spec fn roster_bounded(info: ServerInfoView) -> bool {
    info.players.len() <= open_slots(info.client_count, 0)
}

/// Reads the token field and checks it against the pair sent.
fn read_token(data: &[u8], c: &mut Cursor, extra_token: u16, token: u8) -> (r: i32)
    ensures
        r == after_token(data@, *old(c), extra_token, token).0,
        *final(c) == after_token(data@, *old(c), extra_token, token).1,
{
    let start: usize = c.pos;
    let received = c.read_int(data);
    if c.is_ok() {
        let wanted: i32 = (extra_token as i32) * 256 + (token as i32);
        if received != wanted {
            let bits: u32 = received as u32;
            c.pos = start;
            c.failure = Some(
                RequestError::TokenError {
                    wanted_extra_token: extra_token,
                    wanted_token: token,
                    received_extra_token: (bits / 256 % 65536) as u16,
                    received_token: (bits % 256) as u8,
                },
            );
        }
    }
    received
}

/// Reads one player record.
fn get_player(data: &[u8], c: &mut Cursor, extended: bool) -> (r: Player)
    ensures
        r@ == after_player(data@, *old(c), extended).0,
        *final(c) == after_player(data@, *old(c), extended).1,
{
    let name = c.read_str(data);
    let clan = c.read_str(data);
    let country = c.read_int(data);
    let score = c.read_int(data);
    let playing = c.read_int(data);
    let reserved = if extended {
        Some(c.read_str(data))
    } else {
        None
    };
    Player { name, clan, country, score, is_spectator: playing != 1, reserved }
}

/// Appends to `players` the players that stand at the cursor: at most
/// `wanted` of them, stopping without an error at the first record that is
/// incomplete or malformed.
pub fn read_players(
    data: &[u8],
    cursor: Cursor,
    extended: bool,
    wanted: usize,
    players: &mut Vec<Player>,
)
    ensures
        roster(final(players)@) == roster(old(players)@) + players_from(
            data@,
            cursor,
            extended,
            wanted as nat,
        ),
{
    let ghost before = roster(players@);
    let ghost target = before + players_from(data@, cursor, extended, wanted as nat);
    let mut c = cursor;
    let mut done: usize = 0;
    assert(before + players_from(data@, c, extended, (wanted - done) as nat) == target);
    while done < wanted
        invariant
            done <= wanted,
            target == roster(old(players)@) + players_from(
                data@,
                cursor,
                extended,
                wanted as nat,
            ),
            roster(players@) + players_from(data@, c, extended, (wanted - done) as nat) == target,
        decreases wanted - done,
    {
        let mut next = c;
        let player = get_player(data, &mut next, extended);
        if !next.is_ok() {
            assert(players_from(data@, c, extended, (wanted - done) as nat)
                =~= Seq::<PlayerView>::empty());
            assert(roster(players@) =~= target);
            return ;
        }
        proof {
            let rest = players_from(data@, next, extended, (wanted - done - 1) as nat);
            assert(roster(players@.push(player)) =~= roster(players@).push(player@));
            assert(roster(players@).push(player@) + rest =~= roster(players@) + (seq![player@]
                + rest));
        }
        players.push(player);
        c = next;
        done += 1;
    }
    assert(roster(players@) =~= target);
}

/// The players at the cursor never number more than were wanted.
pub proof fn lemma_players_from_len(data: Seq<u8>, c: Cursor, extended: bool, wanted: nat)
    ensures
        players_from(data, c, extended, wanted).len() <= wanted,
    decreases wanted,
{
    if wanted > 0 {
        let (player, next) = after_player(data, c, extended);
        lemma_players_from_len(data, next, extended, (wanted - 1) as nat);
    }
}

/// How many players the roster still lacks.
fn slots_left(client_count: i32, have: usize) -> (r: usize)
    ensures
        r == open_slots(client_count, have as nat),
{
    if client_count > 0 && (client_count as usize) > have {
        (client_count as usize) - have
    } else {
        0
    }
}

impl ServerInfo {
    /// Whether this status came in the extended variant.
    pub fn is_extended(&self) -> (r: bool)
        ensures
            r == (self@.map_crc is Some),
    {
        self.map_crc.is_some()
    }

    /// Whether the roster is as long as the declared client count asks.
    pub fn is_complete(&self) -> (r: bool)
        ensures
            r == (open_slots(self@.client_count, self@.players.len()) == 0),
    {
        slots_left(self.client_count, self.players.len()) == 0
    }

    /// Parses the main packet, the reply to a request that carried
    /// `extra_token` and `token`.
    pub fn parse_main(data: &[u8], extra_token: u16, token: u8) -> (r: Result<
        ServerInfo,
        RequestError,
    >)
        ensures
            match main_reply(data@, extra_token, token) {
                Ok(v) => r is Ok && r->Ok_0@ == v,
                Err(e) => r == Err::<ServerInfo, RequestError>(e),
            },
            r matches Ok(info) ==> roster_bounded(info@),
    {
        if data.len() < FIELDS_OFFSET {
            return Err(RequestError::Missing);
        }
        let extended = PacketType::InfoExtended.matches(
            slice_subrange(data, TAG_OFFSET, FIELDS_OFFSET),
        );
        let mut c = Cursor::new(FIELDS_OFFSET);
        let received = read_token(data, &mut c, extra_token, token);
        let version = c.read_str(data);
        let name = c.read_str(data);
        let map = c.read_str(data);
        let map_crc = if extended {
            Some(c.read_int(data))
        } else {
            None
        };
        let map_size = if extended {
            Some(c.read_int(data))
        } else {
            None
        };
        let game_type = c.read_str(data);
        let flags = c.read_int(data);
        let player_count = c.read_int(data);
        let max_player_count = c.read_int(data);
        let client_count = c.read_int(data);
        let max_client_count = c.read_int(data);
        let _reserved = c.read_str(data);
        match c.failure {
            Some(e) => Err(e),
            None => {
                let mut players: Vec<Player> = Vec::new();
                let wanted = slots_left(client_count, 0);
                read_players(data, c, extended, wanted, &mut players);
                proof {
                    lemma_players_from_len(data@, c, extended, wanted as nat);
                    assert(roster(Seq::<Player>::empty()) + players_from(
                        data@,
                        c,
                        extended,
                        wanted as nat,
                    ) =~= players_from(data@, c, extended, wanted as nat));
                }
                Ok(
                    ServerInfo {
                        version,
                        token: received,
                        name,
                        map,
                        password: flags & 1 == 1,
                        game_type,
                        player_count,
                        max_player_count,
                        client_count,
                        max_client_count,
                        map_crc,
                        map_size,
                        players,
                    },
                )
            },
        }
    }

    /// Whether a datagram bears the tag of a continuation. The tag is
    /// advisory: [`ServerInfo::parse_more`] decodes a datagram whatever tag
    /// it bears, and goes by the token and the sequence number alone.
    pub fn is_more_packet(data: &[u8]) -> (r: bool)
        ensures
            r == has_more_tag(data@),
    {
        data.len() >= FIELDS_OFFSET && PacketType::InfoExtendedMore.matches(
            slice_subrange(data, TAG_OFFSET, FIELDS_OFFSET),
        )
    }

    /// Folds a continuation datagram into the status. A datagram whose header
    /// is incomplete, whose token is not the one sent or whose sequence
    /// number is in `seen` is passed over, and nothing changes. Otherwise its
    /// sequence number joins `seen` and its players are appended, as many as
    /// the roster still lacks. Says whether the datagram was folded in.
    pub fn parse_more(
        &mut self,
        data: &[u8],
        extra_token: u16,
        token: u8,
        seen: &mut Vec<i32>,
    ) -> (accepted: bool)
        ensures
            accepted == more_accepted(data@, extra_token, token, old(seen)@),
            final(self)@ == more_reply(old(self)@, old(seen)@, data@, extra_token, token).0,
            final(seen)@ == more_reply(old(self)@, old(seen)@, data@, extra_token, token).1,
            roster_bounded(old(self)@) ==> roster_bounded(final(self)@),
    {
        if data.len() < FIELDS_OFFSET {
            return false;
        }
        let mut c = Cursor::new(FIELDS_OFFSET);
        let _received = read_token(data, &mut c, extra_token, token);
        let sequence = c.read_int(data);
        let _reserved = c.read_str(data);
        if !c.is_ok() {
            return false;
        }
        if was_seen(seen, sequence) {
            return false;
        }
        seen.push(sequence);
        let wanted = slots_left(self.client_count, self.players.len());
        let extended = self.map_crc.is_some();
        proof {
            lemma_players_from_len(data@, c, extended, wanted as nat);
        }
        read_players(data, c, extended, wanted, &mut self.players);
        true
    }

    /// Builds the request for a server's status: no magic prefix, fresh
    /// random tokens. Gives the buffer to send and the token pair to check
    /// the replies against.
    pub fn create_request() -> (r: (bytes::BytesMut, u16, u8))
        ensures
            buffer_bytes(r.0) == packet_layout(
                PacketType::GetInfo,
                Seq::<u8>::empty(),
                r.1,
                Some(r.2),
            ),
    {
        let (buf, extra_token, token) = create_packet(PacketType::GetInfo, None, true);
        match token {
            Some(t) => (buf, extra_token, t),
            None => (buf, extra_token, 0),
        }
    }

    /// Creates the two receive buffers of a query, one for the main packet
    /// and one for a continuation: 1400 zero bytes each.
    pub fn create_buffers() -> (buffers: Vec<Vec<u8>>)
        ensures
            buffers@.len() == 2,
            forall|i: int| 0 <= i < 2 ==> (#[trigger] buffers@[i])@ == zeros(DATAGRAM_SIZE as nat),
    {
        let mut buffers: Vec<Vec<u8>> = Vec::new();
        buffers.push(zeroed(DATAGRAM_SIZE));
        buffers.push(zeroed(DATAGRAM_SIZE));
        buffers
    }
}

/// `len` zero bytes.
pub open spec fn zeros(len: nat) -> Seq<u8> {
    Seq::new(len, |i: int| 0u8)
}

/// A buffer of `len` zero bytes.
fn zeroed(len: usize) -> (buf: Vec<u8>)
    ensures
        buf@ == zeros(len as nat),
{
    let mut buf: Vec<u8> = Vec::new();
    while buf.len() < len
        invariant
            buf@.len() <= len,
            forall|i: int| 0 <= i < buf@.len() ==> buf@[i] == 0,
        decreases len - buf@.len(),
    {
        buf.push(0);
    }
    assert(buf@ =~= zeros(len as nat));
    buf
}

/// Whether `sequence` is among the numbers seen.
fn was_seen(seen: &Vec<i32>, sequence: i32) -> (r: bool)
    ensures
        r == seen@.contains(sequence),
{
    let mut i: usize = 0;
    while i < seen.len()
        invariant
            i <= seen@.len(),
            forall|j: int| 0 <= j < i ==> seen@[j] != sequence,
        decreases seen@.len() - i,
    {
        if seen[i] == sequence {
            return true;
        }
        i += 1;
    }
    false
}

/// A query for one server's status, from its main reply on: the token pair
/// that was sent, the sequence numbers of the packets folded in so far, the
/// number of continuation datagrams taken, and the status as it stands.
#[derive(Debug)]
pub struct InfoQuery {
    pub extra_token: u16,
    pub token: u8,
    pub seen: Vec<i32>,
    pub attempts: u8,
    pub info: ServerInfo,
}

impl InfoQuery {
    /// Whether the query has ended: the roster is as long as declared, or
    /// the ceiling of continuation datagrams is reached.
    pub open spec fn done(&self) -> bool {
        open_slots(self.info@.client_count, self.info@.players.len()) == 0 || self.attempts
            >= MAX_MORE_PACKETS
    }

    /// What holds of a query from its start on: no more continuation
    /// datagrams were taken than the ceiling allows, the main packet's
    /// sequence number 0 is the first one seen, and the roster is no longer
    /// than the declared client count.
    pub open spec fn well_formed(&self) -> bool {
        &&& self.attempts <= MAX_MORE_PACKETS
        &&& self.seen@.len() > 0
        &&& self.seen@[0] == 0
        &&& roster_bounded(self.info@)
    }

    /// Starts a query from the main reply to a request that carried
    /// `extra_token` and `token`. The main packet counts as sequence number 0.
    pub fn begin(data: &[u8], extra_token: u16, token: u8) -> (r: Result<InfoQuery, RequestError>)
        ensures
            match main_reply(data@, extra_token, token) {
                Ok(v) => r matches Ok(q) && q.info@ == v && q.seen@ == seq![0i32] && q.attempts
                    == 0 && q.extra_token == extra_token && q.token == token,
                Err(e) => r matches Err(f) && f == e,
            },
            r matches Ok(q) ==> q.well_formed(),
    {
        match ServerInfo::parse_main(data, extra_token, token) {
            Ok(info) => {
                let mut seen: Vec<i32> = Vec::new();
                seen.push(0);
                assert(seen@ =~= seq![0i32]);
                Ok(InfoQuery { extra_token, token, seen, attempts: 0, info })
            },
            Err(e) => Err(e),
        }
    }

    /// Whether the query has ended.
    pub fn is_done(&self) -> (r: bool)
        ensures
            r == self.done(),
    {
        self.info.is_complete() || self.attempts >= MAX_MORE_PACKETS
    }

    /// Takes one continuation datagram. A query that has ended takes none:
    /// nothing changes. Otherwise the datagram counts against the ceiling
    /// and is folded in as [`ServerInfo::parse_more`] says.
    pub fn on_more(&mut self, data: &[u8]) -> (accepted: bool)
        ensures
            final(self).extra_token == old(self).extra_token,
            final(self).token == old(self).token,
            old(self).done() ==> !accepted && final(self).attempts == old(self).attempts
                && final(self).info@ == old(self).info@ && final(self).seen@ == old(self).seen@,
            !old(self).done() ==> {
                let after = more_reply(
                    old(self).info@,
                    old(self).seen@,
                    data@,
                    old(self).extra_token,
                    old(self).token,
                );
                &&& accepted == more_accepted(
                    data@,
                    old(self).extra_token,
                    old(self).token,
                    old(self).seen@,
                )
                &&& final(self).attempts == old(self).attempts + 1
                &&& final(self).info@ == after.0
                &&& final(self).seen@ == after.1
            },
            old(self).well_formed() ==> final(self).well_formed(),
    {
        if self.is_done() {
            return false;
        }
        self.attempts = self.attempts + 1;
        let extra_token = self.extra_token;
        let token = self.token;
        self.info.parse_more(data, extra_token, token, &mut self.seen)
    }

    /// Ends the query and hands out the status as it stands.
    pub fn finish(self) -> (info: ServerInfo)
        ensures
            info == self.info,
    {
        self.info
    }
}

/// The number that stands for a token pair is the extra token shifted left
/// by eight bits, with the token in the bits that this leaves free.
pub proof fn lemma_token_value_bits(extra_token: u16, token: u8)
    ensures
        token_value(extra_token, token) == ((extra_token as u32) << 8 | (token as u32)) as int,
        0 <= token_value(extra_token, token) <= 0xff_ffff,
{
    let e = extra_token as u32;
    let t = token as u32;
    assert((e << 8 | t) == e * 256 + t) by (bit_vector)
        requires
            e <= 0xffff,
            t <= 0xff,
    ;
}

/// A main reply whose token field is a number, but not the one that stands
/// for the pair sent, gives no status at all: the query fails with the
/// mismatch, which carries the pair wanted and the pair received.
pub proof fn lemma_main_wrong_token(data: Seq<u8>, extra_token: u16, token: u8)
    requires
        data.len() >= 14,
        after_int(data, Cursor { pos: 14, failure: None }).1.failure is None,
        after_int(data, Cursor { pos: 14, failure: None }).0 != token_value(extra_token, token),
    ensures
        main_reply(data, extra_token, token) == Err::<ServerInfoView, RequestError>(
            token_mismatch(
                extra_token,
                token,
                after_int(data, Cursor { pos: 14, failure: None }).0,
            ),
        ),
{
}

/// A continuation datagram whose token field is a number, but not the one
/// that stands for the pair sent, is not folded in: the status and the
/// sequence numbers seen stay as they were.
pub proof fn lemma_more_wrong_token(
    info: ServerInfoView,
    seen: Seq<i32>,
    data: Seq<u8>,
    extra_token: u16,
    token: u8,
)
    requires
        after_int(data, Cursor { pos: 14, failure: None }).1.failure is None,
        after_int(data, Cursor { pos: 14, failure: None }).0 != token_value(extra_token, token),
    ensures
        !more_accepted(data, extra_token, token, seen),
        more_reply(info, seen, data, extra_token, token) == (info, seen),
{
}

/// A continuation datagram whose sequence number was seen before is passed
/// over: the status and the sequence numbers seen stay as they were.
pub proof fn lemma_more_repeated_sequence(
    info: ServerInfoView,
    seen: Seq<i32>,
    data: Seq<u8>,
    extra_token: u16,
    token: u8,
)
    requires
        seen.contains(more_header(data, extra_token, token).0),
    ensures
        !more_accepted(data, extra_token, token, seen),
        more_reply(info, seen, data, extra_token, token) == (info, seen),
{
}

/// The same continuation datagram taken twice changes nothing the second
/// time: its players are not appended again.
pub proof fn lemma_more_twice(
    info: ServerInfoView,
    seen: Seq<i32>,
    data: Seq<u8>,
    extra_token: u16,
    token: u8,
)
    ensures
        ({
            let once = more_reply(info, seen, data, extra_token, token);
            more_reply(once.0, once.1, data, extra_token, token) == once
        }),
{
    let once = more_reply(info, seen, data, extra_token, token);
    if more_accepted(data, extra_token, token, seen) {
        let sequence = more_header(data, extra_token, token).0;
        assert(seen.push(sequence)[seen.len() as int] == sequence);
        assert(once.1.contains(sequence));
    }
}

/// Folding in a continuation datagram never takes the roster past the
/// declared client count, whatever the datagram holds.
pub proof fn lemma_more_keeps_bound(
    info: ServerInfoView,
    seen: Seq<i32>,
    data: Seq<u8>,
    extra_token: u16,
    token: u8,
)
    requires
        roster_bounded(info),
    ensures
        roster_bounded(more_reply(info, seen, data, extra_token, token).0),
{
    let c = more_header(data, extra_token, token).1;
    lemma_players_from_len(
        data,
        c,
        info.map_crc is Some,
        open_slots(info.client_count, info.players.len()),
    );
}

/// The roster of a main reply never holds more players than the reply
/// declares, however many records follow the header.
pub proof fn lemma_main_reply_bounded(data: Seq<u8>, extra_token: u16, token: u8)
    ensures
        main_reply(data, extra_token, token) matches Ok(info) ==> roster_bounded(info),
{
    if let Ok(info) = main_reply(data, extra_token, token) {
        assert forall|c: Cursor, extended: bool|
            players_from(data, c, extended, open_slots(info.client_count, 0)).len()
                <= open_slots(info.client_count, 0) by {
            lemma_players_from_len(data, c, extended, open_slots(info.client_count, 0));
        }
    }
}

} // verus!
