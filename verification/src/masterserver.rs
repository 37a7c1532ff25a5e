use crate::buffer::buffer_bytes;
use crate::errors::RequestError;
use crate::util::{create_packet, packet_layout, wire_tag, PacketType};
use byteorder::{BigEndian, ByteOrder};
use vstd::prelude::*;
use vstd::slice::slice_subrange;

verus! {

/// A master server: the registry that game servers announce themselves to.
#[derive(Debug)]
pub struct MasterServer {
    pub hostname: String,
    pub port: u16,
}

/// An IP address: the four octets of version 4, or the eight 16-bit groups
/// of version 6.
#[derive(Debug, Clone, Copy, PartialEq, Eq, Structural)]
pub enum IpAddress {
    V4(u8, u8, u8, u8),
    V6(u16, u16, u16, u16, u16, u16, u16, u16),
}

/// The address of a game server.
#[derive(Debug, Clone, Copy, PartialEq, Eq, Structural)]
pub struct ServerAddress {
    pub ip: IpAddress,
    pub port: u16,
}

/// Where the tag of a master server's reply starts, and where its payload
/// starts.
pub const TAG_OFFSET: usize = 10;

pub const PAYLOAD_OFFSET: usize = 14;

/// The length of one record of a list reply: sixteen bytes of address and
/// two of port.
pub const RECORD_SIZE: usize = 18;

/// The number that two bytes write in big-endian order.
pub open spec fn be_u16(high: u8, low: u8) -> u16 {
    (high * 256 + low) as u16
}

/// The twelve bytes that mark a version 4 address inside sixteen: ten
/// zeros, then `FF FF`.
pub open spec fn v4_marker() -> Seq<u8> {
    seq![0u8, 0u8, 0u8, 0u8, 0u8, 0u8, 0u8, 0u8, 0u8, 0u8, 0xffu8, 0xffu8]
}

/// Whether the record at `at` holds a version 4 address.
pub open spec fn is_v4_record(data: Seq<u8>, at: int) -> bool {
    data.subrange(at, at + 12) == v4_marker()
}

/// The record that starts at `at`.
pub open spec fn record_at(data: Seq<u8>, at: int) -> ServerAddress {
    ServerAddress {
        ip: if is_v4_record(data, at) {
            IpAddress::V4(data[at + 12], data[at + 13], data[at + 14], data[at + 15])
        } else {
            IpAddress::V6(
                be_u16(data[at], data[at + 1]),
                be_u16(data[at + 2], data[at + 3]),
                be_u16(data[at + 4], data[at + 5]),
                be_u16(data[at + 6], data[at + 7]),
                be_u16(data[at + 8], data[at + 9]),
                be_u16(data[at + 10], data[at + 11]),
                be_u16(data[at + 12], data[at + 13]),
                be_u16(data[at + 14], data[at + 15]),
            )
        },
        port: be_u16(data[at + 16], data[at + 17]),
    }
}

/// Whether an address is the unspecified one: all zeros.
pub open spec fn is_unspecified(ip: IpAddress) -> bool {
    ip == IpAddress::V4(0, 0, 0, 0) || ip == IpAddress::V6(0, 0, 0, 0, 0, 0, 0, 0)
}

/// Whether a record is padding and no entry: its port is zero or its
/// address unspecified.
pub open spec fn is_padding(record: ServerAddress) -> bool {
    record.port == 0 || is_unspecified(record.ip)
}

/// Whether the expected count is known and `have` addresses reach it.
pub open spec fn list_full(count: Option<u16>, have: nat) -> bool {
    count matches Some(c) && have >= c
}

/// The addresses that a list reply adds to `have` collected ones: its
/// records from `at` on, in order, up to the first padding record, the end
/// of the whole records, or the expected count.
pub open spec fn records_from(data: Seq<u8>, at: int, count: Option<u16>, have: nat) -> Seq<
    ServerAddress,
>
    decreases data.len() - at,
{
    if at < 0 || at + 18 > data.len() || list_full(count, have) || is_padding(
        record_at(data, at),
    ) {
        Seq::<ServerAddress>::empty()
    } else {
        seq![record_at(data, at)] + records_from(data, at + 18, count, have + 1)
    }
}

/// The tag of a master server's reply, where the datagram is long enough
/// to hold one.
pub open spec fn reply_tag(data: Seq<u8>) -> Seq<u8> {
    data.subrange(10, 14)
}

/// The expected count and the addresses after one more datagram. A count
/// reply sets the count, and is a decode error where its two bytes are not
/// all there. A list reply adds its records. Any other datagram changes
/// nothing.
pub open spec fn list_after(count: Option<u16>, servers: Seq<ServerAddress>, data: Seq<u8>)
    -> Result<(Option<u16>, Seq<ServerAddress>), RequestError> {
    if data.len() < 14 {
        Ok((count, servers))
    } else if reply_tag(data) == wire_tag(PacketType::Count) {
        if data.len() < 16 {
            Err(RequestError::DecodeError)
        } else {
            Ok((Some(be_u16(data[14], data[15])), servers))
        }
    } else if reply_tag(data) == wire_tag(PacketType::List) {
        Ok((count, servers + records_from(data, 14, count, servers.len())))
    } else {
        Ok((count, servers))
    }
}

/// `ByteOrder::read_u16` of `byteorder`, for `BigEndian`: the number that
/// the first two bytes write, most significant first. Believed, not proved.
#[verifier::external_body]
fn read_u16_be(buf: &[u8]) -> (r: u16)
    requires
        buf@.len() >= 2,
    ensures
        r == be_u16(buf@[0], buf@[1]),
{
    BigEndian::read_u16(buf)
}

/// The 16-bit number at `at`.
fn u16_at(data: &[u8], at: usize) -> (r: u16)
    requires
        at + 2 <= data.len(),
    ensures
        r == be_u16(data@[at as int], data@[at + 1]),
{
    read_u16_be(slice_subrange(data, at, at + 2))
}

/// Whether the record at `at` starts with the marker of a version 4 address.
fn has_v4_marker(data: &[u8], at: usize) -> (r: bool)
    requires
        at + 18 <= data.len(),
    ensures
        r == is_v4_record(data@, at as int),
{
    let mut i: usize = 0;
    while i < 12
        invariant
            i <= 12,
            at + 18 <= data.len(),
            forall|j: int| 0 <= j < i ==> data@[at + j] == v4_marker()[j],
        decreases 12 - i,
    {
        let want: u8 = if i < 10 {
            0
        } else {
            0xff
        };
        if data[at + i] != want {
            assert(data@.subrange(at as int, at + 12)[i as int] != v4_marker()[i as int]);
            return false;
        }
        i += 1;
    }
    assert(data@.subrange(at as int, at + 12) =~= v4_marker());
    true
}

/// Decodes the record that starts at `at`.
pub fn decode_record(data: &[u8], at: usize) -> (r: ServerAddress)
    requires
        at + 18 <= data.len(),
    ensures
        r == record_at(data@, at as int),
{
    let ip = if has_v4_marker(data, at) {
        IpAddress::V4(data[at + 12], data[at + 13], data[at + 14], data[at + 15])
    } else {
        IpAddress::V6(
            u16_at(data, at),
            u16_at(data, at + 2),
            u16_at(data, at + 4),
            u16_at(data, at + 6),
            u16_at(data, at + 8),
            u16_at(data, at + 10),
            u16_at(data, at + 12),
            u16_at(data, at + 14),
        )
    };
    ServerAddress { ip, port: u16_at(data, at + 16) }
}

impl IpAddress {
    /// Whether this is the unspecified address.
    pub fn is_unspecified(&self) -> (r: bool)
        ensures
            r == is_unspecified(*self),
    {
        match self {
            IpAddress::V4(a, b, c, d) => *a == 0 && *b == 0 && *c == 0 && *d == 0,
            IpAddress::V6(a, b, c, d, e, f, g, h) => *a == 0 && *b == 0 && *c == 0 && *d == 0
                && *e == 0 && *f == 0 && *g == 0 && *h == 0,
        }
    }
}

/// What has come back from a master server so far: the count it announced,
/// if it did, and the addresses collected, in the order of arrival.
#[derive(Debug)]
pub struct ServerList {
    pub count: Option<u16>,
    pub servers: Vec<ServerAddress>,
}

impl ServerList {
    /// A collection with no count and no address.
    pub fn new() -> (list: ServerList)
        ensures
            list.count is None,
            list.servers@ == Seq::<ServerAddress>::empty(),
    {
        ServerList { count: None, servers: Vec::new() }
    }

    /// Whether the announced count is known and reached.
    pub fn is_complete(&self) -> (r: bool)
        ensures
            r == list_full(self.count, self.servers@.len()),
    {
        match self.count {
            Some(c) => self.servers.len() >= c as usize,
            None => false,
        }
    }

    /// Takes one datagram of the master server's reply, as [`list_after`]
    /// states, and says whether to go on receiving: not after an empty
    /// datagram, and not once the announced count is reached. On a decode
    /// error nothing changes, and what was collected stays.
    pub fn on_datagram(&mut self, data: &[u8]) -> (r: Result<bool, RequestError>)
        ensures
            match list_after(old(self).count, old(self).servers@, data@) {
                Ok((count, servers)) => final(self).count == count && final(self).servers@
                    == servers && r == Ok::<bool, RequestError>(
                    data@.len() > 0 && !list_full(count, servers.len()),
                ),
                Err(e) => r == Err::<bool, RequestError>(e) && final(self).count == old(self).count
                    && final(self).servers@ == old(self).servers@,
            },
    {
        if data.len() >= PAYLOAD_OFFSET {
            let tag = slice_subrange(data, TAG_OFFSET, PAYLOAD_OFFSET);
            if PacketType::Count.matches(tag) {
                if data.len() < PAYLOAD_OFFSET + 2 {
                    return Err(RequestError::DecodeError);
                }
                self.count = Some(u16_at(data, PAYLOAD_OFFSET));
            } else if PacketType::List.matches(tag) {
                self.add_records(data);
            }
        }
        Ok(data.len() > 0 && !self.is_complete())
    }

    /// Adds the records of a list reply.
    fn add_records(&mut self, data: &[u8])
        requires
            data@.len() >= 14,
        ensures
            final(self).count == old(self).count,
            final(self).servers@ == old(self).servers@ + records_from(
                data@,
                14,
                old(self).count,
                old(self).servers@.len(),
            ),
    {
        let ghost target = self.servers@ + records_from(
            data@,
            14,
            self.count,
            self.servers@.len(),
        );
        let mut at: usize = PAYLOAD_OFFSET;
        while data.len() - at >= RECORD_SIZE
            invariant
                14 <= at <= data.len(),
                self.count == old(self).count,
                target == old(self).servers@ + records_from(
                    data@,
                    14,
                    old(self).count,
                    old(self).servers@.len(),
                ),
                self.servers@ + records_from(data@, at as int, self.count, self.servers@.len())
                    == target,
            decreases data@.len() - at,
        {
            if self.is_complete() {
                return ;
            }
            let record = decode_record(data, at);
            if record.port == 0 || record.ip.is_unspecified() {
                return ;
            }
            proof {
                let rest = records_from(
                    data@,
                    at + 18,
                    self.count,
                    (self.servers@.len() + 1) as nat,
                );
                assert(self.servers@.push(record) + rest =~= self.servers@ + (seq![record]
                    + rest));
            }
            self.servers.push(record);
            at += RECORD_SIZE;
        }
        assert(self.servers@ =~= target);
    }
}

/// A list reply never takes a collection that was within the announced
/// count past it, and no record that it adds is padding.
pub proof fn lemma_records_from_len(data: Seq<u8>, at: int, count: Option<u16>, have: nat)
    ensures
        count is Some && have <= count->Some_0 ==> have + records_from(
            data,
            at,
            count,
            have,
        ).len() <= count->Some_0,
        forall|i: int|
            0 <= i < records_from(data, at, count, have).len() ==> !is_padding(
                #[trigger] records_from(data, at, count, have)[i],
            ),
    decreases data.len() - at,
{
    if !(at < 0 || at + 18 > data.len() || list_full(count, have) || is_padding(
        record_at(data, at),
    )) {
        lemma_records_from_len(data, at + 18, count, have + 1);
        let rest = records_from(data, at + 18, count, have + 1);
        let all = records_from(data, at, count, have);
        assert(all =~= seq![record_at(data, at)] + rest);
        assert forall|i: int| 0 <= i < all.len() implies !is_padding(#[trigger] all[i]) by {
            if i > 0 {
                assert(all[i] == rest[i - 1]);
            }
        }
    }
}

/// The three requests that open a query to a master server, in the order
/// in which they are sent: for the count and for the list, both behind the
/// prefix `FF FF` and without a token; and for the server's own status,
/// behind the prefix `xe` and with a token.
pub fn create_requests() -> (r: (bytes::BytesMut, bytes::BytesMut, bytes::BytesMut))
    ensures
        exists|e: u16|
            buffer_bytes(r.0) == packet_layout(
                PacketType::GetCount,
                seq![0xffu8, 0xffu8],
                e,
                None,
            ),
        exists|e: u16|
            buffer_bytes(r.1) == packet_layout(PacketType::GetList, seq![0xffu8, 0xffu8], e, None),
        exists|e: u16, t: u8|
            buffer_bytes(r.2) == packet_layout(
                PacketType::GetInfo,
                seq![0x78u8, 0x65u8],
                e,
                Some(t),
            ),
{
    let master_magic: [u8; 2] = [0xff, 0xff];
    let info_magic: [u8; 2] = [0x78, 0x65];
    assert(master_magic@ =~= seq![0xffu8, 0xffu8]);
    assert(info_magic@ =~= seq![0x78u8, 0x65u8]);
    let count = create_packet(PacketType::GetCount, Some(master_magic.as_slice()), false);
    let list = create_packet(PacketType::GetList, Some(master_magic.as_slice()), false);
    let info = create_packet(PacketType::GetInfo, Some(info_magic.as_slice()), true);
    (count.0, list.0, info.0)
}

} // verus!
