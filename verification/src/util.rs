use crate::buffer::{buffer_bytes, buffer_new, buffer_put_slice, buffer_put_u16, buffer_put_u8, be_bytes};
use vstd::prelude::*;
use vstd::std_specs::cmp::PartialEqSpec;

verus! {

/// The four-byte tags of the protocol: the first four are sent, the others
/// are received.
#[derive(Debug, PartialEq, Eq)]
pub enum PacketType {
    GetCount,
    GetList,
    GetInfo,
    GetInfo64Legacy,
    Count,
    List,
    Info,
    Info64Legacy,
    InfoExtended,
    InfoExtendedMore,
}

/// The tag of a packet type as it stands on the wire, in ASCII.
pub open spec fn wire_tag(packet: PacketType) -> Seq<u8> {
    match packet {
        PacketType::GetCount => seq![0x63u8, 0x6fu8, 0x75u8, 0x32u8],
        PacketType::GetList => seq![0x72u8, 0x65u8, 0x71u8, 0x32u8],
        PacketType::GetInfo => seq![0x67u8, 0x69u8, 0x65u8, 0x33u8],
        PacketType::GetInfo64Legacy => seq![0x66u8, 0x73u8, 0x74u8, 0x64u8],
        PacketType::Info => seq![0x69u8, 0x6eu8, 0x66u8, 0x33u8],
        PacketType::Count => seq![0x73u8, 0x69u8, 0x7au8, 0x32u8],
        PacketType::List => seq![0x6cu8, 0x69u8, 0x73u8, 0x32u8],
        PacketType::Info64Legacy => seq![0x64u8, 0x74u8, 0x73u8, 0x66u8],
        PacketType::InfoExtended => seq![0x69u8, 0x65u8, 0x78u8, 0x74u8],
        PacketType::InfoExtendedMore => seq![0x69u8, 0x65u8, 0x78u8, 0x2bu8],
    }
}

impl PacketType {
    /// The four bytes of the tag.
    pub fn value(&self) -> (r: [u8; 4])
        ensures
            r@ == wire_tag(*self),
    {
        let r: [u8; 4] = match self {
            PacketType::GetCount => [0x63, 0x6f, 0x75, 0x32],
            PacketType::GetList => [0x72, 0x65, 0x71, 0x32],
            PacketType::GetInfo => [0x67, 0x69, 0x65, 0x33],
            PacketType::GetInfo64Legacy => [0x66, 0x73, 0x74, 0x64],
            PacketType::Info => [0x69, 0x6e, 0x66, 0x33],
            PacketType::Count => [0x73, 0x69, 0x7a, 0x32],
            PacketType::List => [0x6c, 0x69, 0x73, 0x32],
            PacketType::Info64Legacy => [0x64, 0x74, 0x73, 0x66],
            PacketType::InfoExtended => [0x69, 0x65, 0x78, 0x74],
            PacketType::InfoExtendedMore => [0x69, 0x65, 0x78, 0x2b],
        };
        assert(r@ =~= wire_tag(*self));
        r
    }

    /// Whether `bytes` is this tag, byte for byte.
    pub fn matches(&self, bytes: &[u8]) -> (r: bool)
        ensures
            r == (bytes@ == wire_tag(*self)),
    {
        let tag = self.value();
        if bytes.len() != 4 {
            return false;
        }
        let r = bytes[0] == tag[0] && bytes[1] == tag[1] && bytes[2] == tag[2] && bytes[3]
            == tag[3];
        assert(r == (bytes@ =~= wire_tag(*self)));
        r
    }
}

impl PartialEq<[u8]> for PacketType {
    fn eq(&self, other: &[u8]) -> (r: bool) {
        self.matches(other)
    }
}

impl vstd::std_specs::cmp::PartialEqSpecImpl<[u8]> for PacketType {
    open spec fn obeys_eq_spec() -> bool {
        true
    }

    open spec fn eq_spec(&self, other: &[u8]) -> bool {
        other@ == wire_tag(*self)
    }
}

impl PartialEq<PacketType> for [u8] {
    fn eq(&self, other: &PacketType) -> (r: bool) {
        other.matches(self)
    }
}

impl vstd::std_specs::cmp::PartialEqSpecImpl<PacketType> for [u8] {
    open spec fn obeys_eq_spec() -> bool {
        true
    }

    open spec fn eq_spec(&self, other: &PacketType) -> bool {
        self@ == wire_tag(*other)
    }
}

/// Comparing a tag with raw bytes gives the same answer in both operand
/// orders, a tag equals its own wire value, and it equals no bytes that differ
/// from that value anywhere.
pub proof fn lemma_tag_comparison(packet: PacketType, bytes: &[u8])
    ensures
        packet.eq_spec(bytes) == bytes.eq_spec(&packet),
        packet.eq_spec(bytes) <==> bytes@ == wire_tag(packet),
        bytes@ == wire_tag(packet) ==> packet.eq_spec(bytes) && bytes.eq_spec(&packet),
        (bytes@.len() != 4 || exists|i: int| 0 <= i < 4 && bytes@[i] != wire_tag(packet)[i])
            ==> !packet.eq_spec(bytes) && !bytes.eq_spec(&packet),
{
}

/// No two packet types share a wire value.
pub proof fn lemma_wire_tag_injective(a: PacketType, b: PacketType)
    requires
        wire_tag(a) == wire_tag(b),
    ensures
        a == b,
{
    assert(wire_tag(a)[0] == wire_tag(b)[0]);
    assert(wire_tag(a)[1] == wire_tag(b)[1]);
    assert(wire_tag(a)[2] == wire_tag(b)[2]);
    assert(wire_tag(a)[3] == wire_tag(b)[3]);
}

/// The wire value of one packet type never compares equal to another packet
/// type, in either operand order.
pub proof fn lemma_other_tag_never_matches(packet: PacketType, other: PacketType, bytes: &[u8])
    requires
        packet != other,
        bytes@ == wire_tag(other),
    ensures
        !packet.eq_spec(bytes),
        !bytes.eq_spec(&packet),
{
    if wire_tag(packet) == wire_tag(other) {
        lemma_wire_tag_injective(packet, other);
    }
}

/// The bytes of a request: the magic prefix, the extra token in big-endian
/// order, two reserved zero bytes, four bytes of padding, the tag, and the
/// token byte where there is one.
pub open spec fn packet_layout(
    packet: PacketType,
    magic: Seq<u8>,
    extra_token: u16,
    token: Option<u8>,
) -> Seq<u8> {
    let head = magic + be_bytes(extra_token) + seq![0u8, 0u8, 0xffu8, 0xffu8, 0xffu8, 0xffu8]
        + wire_tag(packet);
    match token {
        Some(t) => head.push(t),
        None => head,
    }
}

/// The magic prefix that a request starts with: none where none was given.
pub open spec fn magic_of(magic_bytes: Option<&[u8]>) -> Seq<u8> {
    match magic_bytes {
        Some(m) => m@,
        None => Seq::<u8>::empty(),
    }
}

/// A sixteen-bit number from the thread's generator of `rand`. Nothing is
/// claimed of the number.
#[verifier::external_body]
fn random_u16() -> u16 {
    rand::Rng::gen::<u16>(&mut rand::thread_rng())
}

/// A byte from the thread's generator of `rand`. Nothing is claimed of the
/// byte.
#[verifier::external_body]
fn random_u8() -> u8 {
    rand::Rng::gen::<u8>(&mut rand::thread_rng())
}

/// Lays out a request with the given tokens.
pub fn write_packet(
    packet: PacketType,
    magic_bytes: Option<&[u8]>,
    extra_token: u16,
    token: Option<u8>,
) -> (buf: bytes::BytesMut)
    ensures
        buffer_bytes(buf) == packet_layout(packet, magic_of(magic_bytes), extra_token, token),
{
    let mut buf = buffer_new();
    if let Some(magic) = magic_bytes {
        buffer_put_slice(&mut buf, magic);
    }
    assert(buffer_bytes(buf) =~= magic_of(magic_bytes));
    buffer_put_u16(&mut buf, extra_token);
    buffer_put_u8(&mut buf, 0x0);
    buffer_put_u8(&mut buf, 0x0);
    buffer_put_u8(&mut buf, 0xff);
    buffer_put_u8(&mut buf, 0xff);
    buffer_put_u8(&mut buf, 0xff);
    buffer_put_u8(&mut buf, 0xff);
    let tag = packet.value();
    buffer_put_slice(&mut buf, tag.as_slice());
    assert(buffer_bytes(buf) =~= packet_layout(
        packet,
        magic_of(magic_bytes),
        extra_token,
        None,
    ));
    if let Some(t) = token {
        buffer_put_u8(&mut buf, t);
    }
    buf
}

/// Builds a request with fresh random tokens: the buffer, the extra token in
/// it, and the token byte where one was asked for.
pub fn create_packet(packet: PacketType, magic_bytes: Option<&[u8]>, add_token: bool) -> (r: (
    bytes::BytesMut,
    u16,
    Option<u8>,
))
    ensures
        r.2 is Some == add_token,
        buffer_bytes(r.0) == packet_layout(packet, magic_of(magic_bytes), r.1, r.2),
        ({
            let bytes = buffer_bytes(r.0);
            let m = magic_of(magic_bytes).len() as int;
            &&& bytes.len() == m + 12 + (if add_token { 1int } else { 0int })
            &&& bytes[m] as int * 256 + bytes[m + 1] as int == r.1 as int
            &&& add_token ==> bytes.last() == r.2->Some_0
        }),
{
    let extra_token = random_u16();
    let token = if add_token {
        Some(random_u8())
    } else {
        None
    };
    let buf = write_packet(packet, magic_bytes, extra_token, token);
    proof {
        lemma_layout_embeds_tokens(packet, magic_of(magic_bytes), extra_token, token);
    }
    (buf, extra_token, token)
}

/// The tokens that come back with a request are the ones inside it: the extra
/// token stands right after the magic prefix, most significant byte first,
/// and the token, where there is one, is the last byte.
pub proof fn lemma_layout_embeds_tokens(
    packet: PacketType,
    magic: Seq<u8>,
    extra_token: u16,
    token: Option<u8>,
)
    ensures
        ({
            let bytes = packet_layout(packet, magic, extra_token, token);
            let m = magic.len() as int;
            &&& bytes.len() == m + 12 + (if token is Some { 1int } else { 0int })
            &&& bytes.subrange(0, m) == magic
            &&& bytes[m] as int * 256 + bytes[m + 1] as int == extra_token as int
            &&& bytes.subrange(m + 2, m + 8) == seq![0u8, 0u8, 0xffu8, 0xffu8, 0xffu8, 0xffu8]
            &&& bytes.subrange(m + 8, m + 12) == wire_tag(packet)
            &&& token is Some ==> bytes.last() == token->Some_0
        }),
{
    let bytes = packet_layout(packet, magic, extra_token, token);
    let m = magic.len() as int;
    assert(wire_tag(packet).len() == 4);
    assert(bytes.subrange(0, m) =~= magic);
    assert(bytes.subrange(m + 2, m + 8) =~= seq![0u8, 0u8, 0xffu8, 0xffu8, 0xffu8, 0xffu8]);
    assert(bytes.subrange(m + 8, m + 12) =~= wire_tag(packet));
}

/// A request with a token is the same request without it, followed by the
/// token: one byte longer, and that last byte is the token.
pub proof fn lemma_token_adds_one_byte(
    packet: PacketType,
    magic: Seq<u8>,
    extra_token: u16,
    token: u8,
)
    ensures
        packet_layout(packet, magic, extra_token, Some(token)) == packet_layout(
            packet,
            magic,
            extra_token,
            None,
        ).push(token),
        packet_layout(packet, magic, extra_token, Some(token)).len() == packet_layout(
            packet,
            magic,
            extra_token,
            None,
        ).len() + 1,
        packet_layout(packet, magic, extra_token, Some(token)).last() == token,
{
}

} // verus!
