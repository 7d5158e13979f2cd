//! Packet reconstruction stage: parse the decoded bytes as consecutive
//! IPv4/UDP packets, validate both checksums of each, keep only the packets
//! matching an externally supplied filter, and concatenate the survivors'
//! payloads in stream order.
//!
//! Every packet is a fixed 20-byte IPv4 header, a fixed 8-byte UDP header,
//! and a payload of `declared UDP length - 8` bytes. Truncation after at
//! least one whole packet ends reconstruction quietly; an input shorter than
//! one header is an error.

use vstd::prelude::*;
use vstd::slice::{slice_index_get, slice_subrange};

use crate::ascii85::{
    all_ascii, all_symbol_or_ws, decode, decode_symbols, envelope_interior, strip_ws,
};
use crate::errors::LayerError;

verus! {

/// Two bytes read as one big-endian 16-bit word.
pub open spec fn be16(hi: u8, lo: u8) -> u16 {
    (hi * 256 + lo) as u16
}

/// The big-endian word starting at index `i`.
pub open spec fn be16_at(s: Seq<u8>, i: int) -> u16
    recommends
        0 <= i && i + 2 <= s.len(),
{
    be16(s[i], s[i + 1])
}

/// A byte sequence reinterpreted as big-endian 16-bit words, pair by pair; a
/// trailing odd byte carries into no word.
pub open spec fn words_of(s: Seq<u8>) -> Seq<u16> {
    Seq::new((s.len() / 2) as nat, |i: int| be16(s[2 * i], s[2 * i + 1]))
}

/// One's-complement addition of two 16-bit words: the carry out of bit 15 is
/// added back into the low bits.
pub open spec fn ocs(x: u16, y: u16) -> u16 {
    if x + y < 0x10000 {
        (x + y) as u16
    } else {
        (x + y - 0xffff) as u16
    }
}

/// A word sequence folded left with one's-complement addition.
pub open spec fn fold_ocs(acc: u16, ws: Seq<u16>) -> u16
    decreases ws.len(),
{
    if ws.len() == 0 {
        acc
    } else {
        fold_ocs(ocs(acc, ws[0]), ws.skip(1))
    }
}

/// An Internet-style checksum is valid iff the fold, seeded with the all-ones
/// sentinel and run over every word including the stored checksum, ends at
/// the all-ones sentinel.
pub open spec fn checksum_valid(ws: Seq<u16>) -> bool {
    fold_ocs(0xffff, ws) == 0xffff
}

/// A four-octet IPv4 address.
#[derive(Debug, Clone, Copy, PartialEq, Eq, Structural)]
pub struct Ipv4Address {
    pub o0: u8,
    pub o1: u8,
    pub o2: u8,
    pub o3: u8,
}

impl Ipv4Address {
    pub fn new(o0: u8, o1: u8, o2: u8, o3: u8) -> (r: Self)
        ensures
            r == (Ipv4Address { o0, o1, o2, o3 }),
    {
        Ipv4Address { o0, o1, o2, o3 }
    }
}

/// The address whose four octets start at index `i`.
pub open spec fn addr_at(s: Seq<u8>, i: int) -> Ipv4Address
    recommends
        0 <= i && i + 4 <= s.len(),
{
    Ipv4Address { o0: s[i], o1: s[i + 1], o2: s[i + 2], o3: s[i + 3] }
}

/// The fields of a fixed 20-byte IPv4 header that this engine uses: the two
/// addresses, the stored checksum, and the whole header as ten words for
/// checksum verification. The remaining fields are opaque pass-through bytes.
#[derive(Debug)]
pub struct Ipv4Header {
    pub source: Ipv4Address,
    pub destination: Ipv4Address,
    pub checksum: u16,
    pub words: Vec<u16>,
}

/// One's-complement addition, carry folded back into the low word.
pub fn ones_complement_sum(x: u16, y: u16) -> (r: u16)
    ensures
        r == ocs(x, y),
{
    let sum: u32 = x as u32 + y as u32;
    proof {
        assert((sum & 0xffff) + (sum >> 16) == (if sum < 0x10000 {
            sum
        } else {
            (sum - 0xffff) as u32
        })) by (bit_vector)
            requires
                sum < 0x20000,
        ;
    }
    let low_word = (sum & 0xffff) as u16;
    low_word + ((sum >> 16) as u16)
}

/// Two big-endian bytes combined into one word.
fn read_be16(hi: u8, lo: u8) -> (r: u16)
    ensures
        r == be16(hi, lo),
{
    (hi as u16) * 256 + (lo as u16)
}

/// Reads a byte slice as big-endian 16-bit words, dropping a trailing odd
/// byte.
pub fn read_as_u16(bytes: &[u8]) -> (r: Vec<u16>)
    ensures
        r@ == words_of(bytes@),
{
    let mut words: Vec<u16> = Vec::new();
    let mut i: usize = 0;
    let n = bytes.len();
    while i < n / 2
        invariant
            n == bytes@.len(),
            i <= n / 2,
            words@.len() == i,
            forall|k: int| 0 <= k < i ==> words@[k] == be16(bytes@[2 * k], bytes@[2 * k + 1]),
        decreases n / 2 - i,
    {
        words.push(read_be16(bytes[2 * i], bytes[2 * i + 1]));
        i = i + 1;
    }
    proof {
        assert(words@ =~= words_of(bytes@));
    }
    words
}

/// Folds a word sequence with one's-complement addition, seeded with the
/// all-ones sentinel.
fn checksum_fold(words: &[u16]) -> (r: u16)
    ensures
        r == fold_ocs(0xffff, words@),
{
    let mut acc: u16 = 0xffff;
    let mut i: usize = 0;
    proof {
        assert(words@.skip(0) =~= words@);
    }
    while i < words.len()
        invariant
            i <= words@.len(),
            fold_ocs(0xffff, words@) == fold_ocs(acc, words@.skip(i as int)),
        decreases words.len() - i,
    {
        proof {
            let tail = words@.skip(i as int);
            assert(tail[0] == words@[i as int]);
            assert(tail.skip(1) =~= words@.skip(i as int + 1));
        }
        acc = ones_complement_sum(acc, words[i]);
        i = i + 1;
    }
    proof {
        assert(words@.skip(words@.len() as int) =~= Seq::<u16>::empty());
    }
    acc
}

impl Ipv4Header {
    /// Parses a 20-byte slice: checksum at offset 10, source address at 12,
    /// destination address at 16, and the whole header as ten words.
    pub fn from_bytes(bytes: &[u8]) -> (r: Result<Ipv4Header, LayerError>)
        ensures
            bytes@.len() != 20 ==> (r matches Err(e) && e == LayerError::TruncatedHeader),
            bytes@.len() == 20 ==> (r matches Ok(h) && h.source == addr_at(bytes@, 12)
                && h.destination == addr_at(bytes@, 16) && h.checksum == be16_at(bytes@, 10)
                && h.words@ == words_of(bytes@)),
    {
        if bytes.len() != 20 {
            return Err(LayerError::TruncatedHeader);
        }

        let checksum = read_be16(bytes[10], bytes[11]);
        let source = Ipv4Address::new(bytes[12], bytes[13], bytes[14], bytes[15]);
        let destination = Ipv4Address::new(bytes[16], bytes[17], bytes[18], bytes[19]);
        let words = read_as_u16(bytes);

        Ok(Ipv4Header { source, destination, checksum, words })
    }

    /// The header checksum is valid iff the fold over all ten words, stored
    /// checksum included, is the all-ones sentinel.
    pub fn valid_checksum(&self) -> (r: bool)
        ensures
            r == checksum_valid(self.words@),
    {
        checksum_fold(self.words.as_slice()) == 0xffff
    }
}

/// The high byte of a word.
pub open spec fn hi16(w: u16) -> u8 {
    (w / 256) as u8
}

/// The low byte of a word.
pub open spec fn lo16(w: u16) -> u8 {
    (w % 256) as u8
}

/// The fixed 8-byte UDP header: all four fields are big-endian words; the
/// declared length counts header plus data.
#[derive(Debug, Clone, Copy, PartialEq, Eq, Structural)]
pub struct UdpHeader {
    pub source_port: u16,
    pub destination_port: u16,
    pub length: u16,
    pub checksum: u16,
}

/// The derived pseudo-header fed into the UDP checksum and never stored on
/// the wire: both addresses copied from the IPv4 header, the fixed UDP
/// protocol number, and the declared UDP length.
#[derive(Debug, Clone, Copy, PartialEq, Eq, Structural)]
pub struct UdpPseudoHeader {
    pub source_address: Ipv4Address,
    pub destination_address: Ipv4Address,
    pub protocol: u8,
    pub udp_length: u16,
}

/// One reconstructed packet: both parsed headers, the derived pseudo-header,
/// and the owned payload bytes.
#[derive(Debug)]
pub struct UdpPacket {
    pub ip_header: Ipv4Header,
    pub pseudo_header: UdpPseudoHeader,
    pub udp_header: UdpHeader,
    pub data: Vec<u8>,
}

/// A packet whose headers are parsed but whose payload is not yet attached.
#[derive(Debug)]
pub struct EmptyUdpPacket(pub UdpPacket);

/// What a packet's header fields say when parsed from the 28 header bytes
/// starting at `off`.
pub open spec fn headers_parsed(p: UdpPacket, s: Seq<u8>, off: int) -> bool {
    &&& p.ip_header.source == addr_at(s, off + 12)
    &&& p.ip_header.destination == addr_at(s, off + 16)
    &&& p.ip_header.checksum == be16_at(s, off + 10)
    &&& p.ip_header.words@ == words_of(s.subrange(off, off + 20))
    &&& p.pseudo_header.source_address == addr_at(s, off + 12)
    &&& p.pseudo_header.destination_address == addr_at(s, off + 16)
    &&& p.pseudo_header.protocol == 17
    &&& p.pseudo_header.udp_length == be16_at(s, off + 24)
    &&& p.udp_header.source_port == be16_at(s, off + 20)
    &&& p.udp_header.destination_port == be16_at(s, off + 22)
    &&& p.udp_header.length == be16_at(s, off + 24)
    &&& p.udp_header.checksum == be16_at(s, off + 26)
}

/// Parses the 8 UDP header bytes and derives the pseudo-header from the
/// already-parsed IPv4 header, the fixed UDP protocol number, and the
/// declared length.
pub fn parse_udp_headers(ip_header: &Ipv4Header, bytes: &[u8]) -> (r: Result<
    (UdpPseudoHeader, UdpHeader),
    LayerError,
>)
    ensures
        bytes@.len() != 8 ==> (r matches Err(e) && e == LayerError::TruncatedHeader),
        bytes@.len() == 8 ==> (r matches Ok(ph) && ph.0 == (UdpPseudoHeader {
            source_address: ip_header.source,
            destination_address: ip_header.destination,
            protocol: 17u8,
            udp_length: be16_at(bytes@, 4),
        }) && ph.1 == (UdpHeader {
            source_port: be16_at(bytes@, 0),
            destination_port: be16_at(bytes@, 2),
            length: be16_at(bytes@, 4),
            checksum: be16_at(bytes@, 6),
        })),
{
    if bytes.len() != 8 {
        return Err(LayerError::TruncatedHeader);
    }

    let length = read_be16(bytes[4], bytes[5]);

    let pseudo_header = UdpPseudoHeader {
        source_address: ip_header.source,
        destination_address: ip_header.destination,
        protocol: 17,
        udp_length: length,
    };

    let header = UdpHeader {
        source_port: read_be16(bytes[0], bytes[1]),
        destination_port: read_be16(bytes[2], bytes[3]),
        length,
        checksum: read_be16(bytes[6], bytes[7]),
    };

    Ok((pseudo_header, header))
}

/// The byte string the UDP checksum is computed over: pseudo-header, UDP
/// header with its stored checksum intact, payload, and one zero pad byte if
/// the total is odd.
pub open spec fn udp_checksum_bytes(p: UdpPacket) -> Seq<u8> {
    let base = seq![
        p.pseudo_header.source_address.o0,
        p.pseudo_header.source_address.o1,
        p.pseudo_header.source_address.o2,
        p.pseudo_header.source_address.o3,
        p.pseudo_header.destination_address.o0,
        p.pseudo_header.destination_address.o1,
        p.pseudo_header.destination_address.o2,
        p.pseudo_header.destination_address.o3,
        0u8,
        p.pseudo_header.protocol,
        hi16(p.pseudo_header.udp_length),
        lo16(p.pseudo_header.udp_length),
        hi16(p.udp_header.source_port),
        lo16(p.udp_header.source_port),
        hi16(p.udp_header.destination_port),
        lo16(p.udp_header.destination_port),
        hi16(p.udp_header.length),
        lo16(p.udp_header.length),
        hi16(p.udp_header.checksum),
        lo16(p.udp_header.checksum),
    ] + p.data@;
    if base.len() % 2 == 0 {
        base
    } else {
        base.push(0u8)
    }
}

/// The UDP checksum is valid iff the fold over the checksum byte string,
/// read as words, is the all-ones sentinel.
pub open spec fn udp_checksum_valid(p: UdpPacket) -> bool {
    checksum_valid(words_of(udp_checksum_bytes(p)))
}

impl UdpPacket {
    /// Parses the 28 header bytes of one packet; the payload is attached
    /// separately once the declared length is known.
    pub fn parse_headers(bytes: &[u8]) -> (r: Result<EmptyUdpPacket, LayerError>)
        ensures
            bytes@.len() != 28 ==> (r matches Err(e) && e == LayerError::TruncatedHeader),
            bytes@.len() == 28 ==> (r matches Ok(ep) && headers_parsed(ep.0, bytes@, 0)
                && ep.0.data@ == Seq::<u8>::empty()),
    {
        if bytes.len() != 28 {
            return Err(LayerError::TruncatedHeader);
        }

        let ip_bytes = slice_subrange(bytes, 0, 20);
        let ip_header = match Ipv4Header::from_bytes(ip_bytes) {
            Ok(h) => h,
            Err(e) => {
                proof {
                    assert(false);
                }
                return Err(e);
            },
        };
        let udp_bytes = slice_subrange(bytes, 20, 28);
        let (pseudo_header, udp_header) = match parse_udp_headers(&ip_header, udp_bytes) {
            Ok(ph) => ph,
            Err(e) => {
                proof {
                    assert(false);
                }
                return Err(e);
            },
        };

        let packet = UdpPacket { ip_header, pseudo_header, udp_header, data: Vec::new() };
        proof {
            assert(headers_parsed(packet, bytes@, 0));
        }
        Ok(EmptyUdpPacket(packet))
    }

    /// The IP checksum over the ten header words.
    pub fn valid_ip_checksum(&self) -> (r: bool)
        ensures
            r == checksum_valid(self.ip_header.words@),
    {
        self.ip_header.valid_checksum()
    }

    /// The UDP checksum over pseudo-header, UDP header, and payload.
    pub fn valid_udp_checksum(&self) -> (r: bool)
        ensures
            r == udp_checksum_valid(*self),
    {
        let mut bytes: Vec<u8> = Vec::new();

        bytes.push(self.pseudo_header.source_address.o0);
        bytes.push(self.pseudo_header.source_address.o1);
        bytes.push(self.pseudo_header.source_address.o2);
        bytes.push(self.pseudo_header.source_address.o3);
        bytes.push(self.pseudo_header.destination_address.o0);
        bytes.push(self.pseudo_header.destination_address.o1);
        bytes.push(self.pseudo_header.destination_address.o2);
        bytes.push(self.pseudo_header.destination_address.o3);
        bytes.push(0x00);
        bytes.push(self.pseudo_header.protocol);
        bytes.push((self.pseudo_header.udp_length / 256) as u8);
        bytes.push((self.pseudo_header.udp_length % 256) as u8);
        bytes.push((self.udp_header.source_port / 256) as u8);
        bytes.push((self.udp_header.source_port % 256) as u8);
        bytes.push((self.udp_header.destination_port / 256) as u8);
        bytes.push((self.udp_header.destination_port % 256) as u8);
        bytes.push((self.udp_header.length / 256) as u8);
        bytes.push((self.udp_header.length % 256) as u8);
        bytes.push((self.udp_header.checksum / 256) as u8);
        bytes.push((self.udp_header.checksum % 256) as u8);

        let head = Ghost(bytes@);

        let mut i: usize = 0;
        while i < self.data.len()
            invariant
                head@.len() == 20,
                i <= self.data@.len(),
                bytes@ == head@ + self.data@.take(i as int),
            decreases self.data.len() - i,
        {
            bytes.push(self.data[i]);
            proof {
                assert(bytes@ =~= head@ + self.data@.take(i as int + 1));
            }
            i = i + 1;
        }
        proof {
            assert(self.data@.take(self.data@.len() as int) =~= self.data@);
        }

        if bytes.len() % 2 != 0 {
            bytes.push(0);
        }
        proof {
            assert(bytes@ =~= udp_checksum_bytes(*self));
        }

        let words = read_as_u16(bytes.as_slice());
        checksum_fold(words.as_slice()) == 0xffff
    }

    /// Both checksums together.
    pub fn valid_checksums(&self) -> (r: bool)
        ensures
            r == (checksum_valid(self.ip_header.words@) && udp_checksum_valid(*self)),
    {
        let valid_udp = self.valid_udp_checksum();
        let valid_ip = self.valid_ip_checksum();

        valid_ip && valid_udp
    }
}

impl EmptyUdpPacket {
    /// Attaches the payload, completing the packet.
    pub fn set_data(self, data: &[u8]) -> (r: UdpPacket)
        ensures
            r.ip_header == self.0.ip_header,
            r.pseudo_header == self.0.pseudo_header,
            r.udp_header == self.0.udp_header,
            r.data@ == data@,
    {
        let mut packet = self.0;
        packet.data = vstd::slice::slice_to_vec(data);
        packet
    }

    /// The payload length owed to this packet: the declared UDP length minus
    /// the 8 header bytes.
    pub fn len(&self) -> (r: u16)
        requires
            self.0.udp_header.length >= 8,
        ensures
            r == self.0.udp_header.length - 8,
    {
        self.0.udp_header.length - 8
    }
}

/// The filter a packet must match to be kept: both addresses and the
/// destination port, supplied by the caller rather than built in, so the
/// engine is reusable across inputs.
#[derive(Debug, Clone, Copy, PartialEq, Eq, Structural)]
pub struct PacketFilter {
    pub source: Ipv4Address,
    pub destination: Ipv4Address,
    pub destination_port: u16,
}

/// The declared UDP length of the packet starting at `off`.
pub open spec fn declared_len(s: Seq<u8>, off: int) -> u16 {
    be16_at(s, off + 24)
}

/// Where the packet starting at `off` ends: 20 IP header bytes plus the
/// declared UDP length (8 header bytes plus the payload).
pub open spec fn packet_end(s: Seq<u8>, off: int) -> int {
    off + 20 + declared_len(s, off)
}

/// Whether a whole packet can be read at `off`: 28 header bytes present, a
/// declared length that covers the UDP header, and the full payload present.
pub open spec fn can_parse_at(s: Seq<u8>, off: int) -> bool {
    &&& off + 28 <= s.len()
    &&& declared_len(s, off) >= 8
    &&& packet_end(s, off) <= s.len()
}

/// The payload bytes of the packet starting at `off`.
pub open spec fn payload_at(s: Seq<u8>, off: int) -> Seq<u8> {
    s.subrange(off + 28, packet_end(s, off))
}

/// The ten IP header words of the packet starting at `off`.
pub open spec fn ip_words_at(s: Seq<u8>, off: int) -> Seq<u16> {
    words_of(s.subrange(off, off + 20))
}

/// The UDP checksum input of the packet starting at `off`, read straight off
/// the wire bytes: pseudo-header, UDP header, payload, even-padded.
pub open spec fn udp_bytes_at(s: Seq<u8>, off: int) -> Seq<u8> {
    let base = s.subrange(off + 12, off + 20) + seq![0u8, 17u8] + s.subrange(off + 24, off + 26)
        + s.subrange(off + 20, off + 28) + payload_at(s, off);
    if base.len() % 2 == 0 {
        base
    } else {
        base.push(0u8)
    }
}

/// The UDP checksum of the packet starting at `off` is valid.
pub open spec fn udp_valid_at(s: Seq<u8>, off: int) -> bool {
    checksum_valid(words_of(udp_bytes_at(s, off)))
}

/// The packet starting at `off` is kept iff both checksums hold and its
/// source address, destination address, and destination port match the
/// filter.
pub open spec fn packet_kept(s: Seq<u8>, off: int, f: PacketFilter) -> bool {
    &&& checksum_valid(ip_words_at(s, off))
    &&& udp_valid_at(s, off)
    &&& addr_at(s, off + 12) == f.source
    &&& addr_at(s, off + 16) == f.destination
    &&& be16_at(s, off + 22) == f.destination_port
}

/// The start offsets of the kept packets: packets are consumed back to back
/// from `off`; reconstruction stops quietly at the first offset where no
/// whole packet can be read.
pub open spec fn kept_offsets(s: Seq<u8>, off: int, f: PacketFilter) -> Seq<int>
    decreases s.len() - off when 0 <= off
{
    if !(off < s.len() && can_parse_at(s, off)) {
        Seq::empty()
    } else if packet_kept(s, off, f) {
        seq![off] + kept_offsets(s, packet_end(s, off), f)
    } else {
        kept_offsets(s, packet_end(s, off), f)
    }
}

/// The kept packets' payloads, concatenated in stream order.
pub open spec fn kept_payload(s: Seq<u8>, off: int, f: PacketFilter) -> Seq<u8>
    decreases s.len() - off when 0 <= off
{
    if !(off < s.len() && can_parse_at(s, off)) {
        Seq::empty()
    } else if packet_kept(s, off, f) {
        payload_at(s, off) + kept_payload(s, packet_end(s, off), f)
    } else {
        kept_payload(s, packet_end(s, off), f)
    }
}

/// The payloads at a sequence of packet offsets, concatenated.
pub open spec fn payloads_of(s: Seq<u8>, offs: Seq<int>) -> Seq<u8>
    decreases offs.len(),
{
    if offs.len() == 0 {
        Seq::empty()
    } else {
        payload_at(s, offs[0]) + payloads_of(s, offs.skip(1))
    }
}

/// A packet value is the one starting at `off`: headers parsed from the 28
/// header bytes there, payload equal to the wire payload.
pub open spec fn packet_ok(p: UdpPacket, s: Seq<u8>, off: int) -> bool {
    headers_parsed(p, s, off) && p.data@ == payload_at(s, off)
}

/// The kept payload is exactly the concatenation of the payloads at the kept
/// offsets.
proof fn lemma_kept_payload_offsets(s: Seq<u8>, off: int, f: PacketFilter)
    requires
        0 <= off,
    ensures
        kept_payload(s, off, f) == payloads_of(s, kept_offsets(s, off, f)),
    decreases s.len() - off,
{
    if !(off < s.len() && can_parse_at(s, off)) {
        assert(kept_offsets(s, off, f) =~= Seq::<int>::empty());
    } else {
        let next = packet_end(s, off);
        lemma_kept_payload_offsets(s, next, f);
        if packet_kept(s, off, f) {
            let offs = kept_offsets(s, off, f);
            assert(offs == seq![off] + kept_offsets(s, next, f));
            assert(offs[0] == off);
            assert(offs.skip(1) =~= kept_offsets(s, next, f));
            assert(kept_payload(s, off, f) =~= payloads_of(s, offs));
        } else {
            assert(kept_payload(s, off, f) =~= payloads_of(s, kept_offsets(s, off, f)));
        }
    }
}

/// A word's halves come back out of `be16`.
proof fn lemma_be16_split(a: u8, b: u8)
    ensures
        hi16(be16(a, b)) == a,
        lo16(be16(a, b)) == b,
{
    assert(be16(a, b) == a as u16 * 256 + b as u16);
    assert(((a as u16 * 256 + b as u16) / 256) as u8 == a) by (bit_vector);
    assert(((a as u16 * 256 + b as u16) % 256) as u8 == b) by (bit_vector);
}

/// Header fields parsed from a packet's own 28 bytes describe the same
/// packet within the whole stream.
proof fn lemma_headers_shift(p: UdpPacket, s: Seq<u8>, off: int)
    requires
        0 <= off,
        off + 28 <= s.len(),
        headers_parsed(p, s.subrange(off, off + 28), 0),
    ensures
        headers_parsed(p, s, off),
{
    let c = s.subrange(off, off + 28);
    assert(c.subrange(0, 20) =~= s.subrange(off, off + 20));
    assert(addr_at(c, 12) == addr_at(s, off + 12));
    assert(addr_at(c, 16) == addr_at(s, off + 16));
    assert(be16_at(c, 10) == be16_at(s, off + 10));
    assert(be16_at(c, 20) == be16_at(s, off + 20));
    assert(be16_at(c, 22) == be16_at(s, off + 22));
    assert(be16_at(c, 24) == be16_at(s, off + 24));
    assert(be16_at(c, 26) == be16_at(s, off + 26));
}

/// The checksum input built from a parsed packet's fields equals the one
/// read straight off the wire bytes.
proof fn lemma_udp_bytes_at(p: UdpPacket, s: Seq<u8>, off: int)
    requires
        0 <= off,
        can_parse_at(s, off),
        packet_ok(p, s, off),
    ensures
        udp_checksum_bytes(p) == udp_bytes_at(s, off),
{
    lemma_be16_split(s[off + 24], s[off + 25]);
    lemma_be16_split(s[off + 20], s[off + 21]);
    lemma_be16_split(s[off + 22], s[off + 23]);
    lemma_be16_split(s[off + 26], s[off + 27]);
    assert(udp_checksum_bytes(p) =~= udp_bytes_at(s, off));
}

/// Parses the byte stream as consecutive packets from offset zero, keeping
/// the packets whose checksums hold and whose addresses and destination port
/// match the filter.
///
/// An input shorter than one 28-byte header (but not empty) is an error;
/// running out of bytes after that point ends reconstruction quietly, as
/// does a declared UDP length shorter than the UDP header itself.
#[verifier::rlimit(50)]
pub fn parse_and_filter_packets(bytes: &[u8], filter: &PacketFilter) -> (r: Result<
    Vec<UdpPacket>,
    LayerError,
>)
    ensures
        ({
            let s = bytes@;
            if s.len() > 0 && s.len() < 28 {
                r matches Err(e) && e == LayerError::TruncatedHeader
            } else {
                r matches Ok(ps) && {
                    let offs = kept_offsets(s, 0, *filter);
                    &&& ps@.len() == offs.len()
                    &&& (forall|k: int|
                        0 <= k < offs.len() ==> packet_ok(#[trigger] ps@[k], s, offs[k])
                            && packet_kept(s, #[trigger] offs[k], *filter))
                }
            }
        }),
{
    let n = bytes.len();
    let ghost s = bytes@;
    let ghost f = *filter;
    if n > 0 && n < 28 {
        return Err(LayerError::TruncatedHeader);
    }

    let mut packets: Vec<UdpPacket> = Vec::new();
    let ghost mut offs_done: Seq<int> = Seq::empty();
    let mut idx: usize = 0;

    proof {
        assert(offs_done + kept_offsets(s, 0, f) =~= kept_offsets(s, 0, f));
    }

    while idx < n
        invariant_except_break
            s == bytes@,
            f == *filter,
            n == s.len(),
            idx <= n,
            packets@.len() == offs_done.len(),
            forall|k: int|
                0 <= k < offs_done.len() ==> packet_ok(#[trigger] packets@[k], s, offs_done[k]),
            forall|k: int|
                0 <= k < offs_done.len() ==> packet_kept(s, #[trigger] offs_done[k], f),
            kept_offsets(s, 0, f) == offs_done + kept_offsets(s, idx as int, f),
        ensures
            packets@.len() == offs_done.len(),
            forall|k: int|
                0 <= k < offs_done.len() ==> packet_ok(#[trigger] packets@[k], s, offs_done[k]),
            forall|k: int|
                0 <= k < offs_done.len() ==> packet_kept(s, #[trigger] offs_done[k], f),
            kept_offsets(s, 0, f) == offs_done,
        decreases n - idx,
    {
        if n - idx < 28 {
            proof {
                assert(!can_parse_at(s, idx as int));
                assert(kept_offsets(s, idx as int, f) =~= Seq::<int>::empty());
                assert(kept_offsets(s, 0, f) =~= offs_done);
            }
            break;
        }

        let data_start = idx + 28;
        let header_slice = slice_subrange(bytes, idx, data_start);
        let header = match UdpPacket::parse_headers(header_slice) {
            Ok(h) => h,
            Err(e) => {
                proof {
                    assert(false);
                }
                return Err(e);
            },
        };
        proof {
            lemma_headers_shift(header.0, s, idx as int);
        }

        let declared = header.0.udp_header.length;
        if declared < 8 {
            proof {
                assert(declared_len(s, idx as int) == declared);
                assert(!can_parse_at(s, idx as int));
                assert(kept_offsets(s, idx as int, f) =~= Seq::<int>::empty());
                assert(kept_offsets(s, 0, f) =~= offs_done);
            }
            break;
        }
        let payload_len = (declared - 8) as usize;
        if payload_len > n - data_start {
            proof {
                assert(declared_len(s, idx as int) == declared);
                assert(packet_end(s, idx as int) > s.len());
                assert(!can_parse_at(s, idx as int));
                assert(kept_offsets(s, idx as int, f) =~= Seq::<int>::empty());
                assert(kept_offsets(s, 0, f) =~= offs_done);
            }
            break;
        }
        let data_end = data_start + payload_len;
        let data_slice = slice_subrange(bytes, data_start, data_end);
        let packet = header.set_data(data_slice);
        proof {
            assert(declared_len(s, idx as int) == declared);
            assert(can_parse_at(s, idx as int));
            assert(packet_end(s, idx as int) == data_end);
            assert(packet.data@ =~= payload_at(s, idx as int));
            assert(packet_ok(packet, s, idx as int));
        }

        let keep = packet.valid_checksums() && packet.ip_header.source == filter.source
            && packet.ip_header.destination == filter.destination
            && packet.udp_header.destination_port == filter.destination_port;
        proof {
            lemma_udp_bytes_at(packet, s, idx as int);
            assert(packet.ip_header.words@ == ip_words_at(s, idx as int));
            assert(keep == packet_kept(s, idx as int, f));
        }

        if keep {
            packets.push(packet);
            proof {
                offs_done = offs_done + seq![idx as int];
                assert(kept_offsets(s, idx as int, f) == seq![idx as int] + kept_offsets(
                    s,
                    data_end as int,
                    f,
                ));
                assert(kept_offsets(s, 0, f) =~= offs_done + kept_offsets(s, data_end as int, f));
            }
        } else {
            proof {
                assert(kept_offsets(s, idx as int, f) == kept_offsets(s, data_end as int, f));
            }
        }

        idx = data_end;
    }

    Ok(packets)
}

/// Decodes the stage's envelope, reconstructs the packet stream, and returns
/// the kept packets' payloads concatenated in stream order.
pub fn run(bytes: &[u8], filter: &PacketFilter) -> (r: Result<Vec<u8>, LayerError>)
    ensures
        match envelope_interior(bytes@) {
            None => r matches Err(e) && e == LayerError::MissingDelimiter,
            Some(inner) => if !all_ascii(inner) {
                r matches Err(e) && e == LayerError::NonAsciiInput
            } else if !all_symbol_or_ws(inner) {
                r matches Err(e) && e == LayerError::InvalidSymbol
            } else {
                let d = decode_symbols(strip_ws(inner));
                if d.len() > 0 && d.len() < 28 {
                    r matches Err(e) && e == LayerError::TruncatedHeader
                } else {
                    r matches Ok(v) && v@ == kept_payload(d, 0, *filter)
                }
            },
        },
{
    let decoded = match decode(bytes) {
        Ok(d) => d,
        Err(e) => {
            return Err(e);
        },
    };
    let packets = match parse_and_filter_packets(decoded.as_slice(), filter) {
        Ok(p) => p,
        Err(e) => {
            return Err(e);
        },
    };

    let ghost d = decoded@;
    let ghost f = *filter;
    let ghost offs = kept_offsets(d, 0, f);
    proof {
        lemma_kept_payload_offsets(d, 0, f);
        assert(offs.skip(0) =~= offs);
    }

    let mut out: Vec<u8> = Vec::new();
    let mut k: usize = 0;
    while k < packets.len()
        invariant
            packets@.len() == offs.len(),
            forall|t: int| 0 <= t < offs.len() ==> packet_ok(#[trigger] packets@[t], d, offs[t]),
            k <= packets@.len(),
            payloads_of(d, offs) == out@ + payloads_of(d, offs.skip(k as int)),
        decreases packets.len() - k,
    {
        let p = slice_index_get(packets.as_slice(), k);
        let ghost pre = out@;
        let mut j: usize = 0;
        while j < p.data.len()
            invariant
                j <= p.data@.len(),
                out@ == pre + p.data@.take(j as int),
            decreases p.data.len() - j,
        {
            out.push(p.data[j]);
            proof {
                assert(out@ =~= pre + p.data@.take(j as int + 1));
            }
            j = j + 1;
        }
        proof {
            assert(p.data@.take(p.data@.len() as int) =~= p.data@);
            let tail = offs.skip(k as int);
            assert(tail[0] == offs[k as int]);
            assert(tail.skip(1) =~= offs.skip(k as int + 1));
            assert(payloads_of(d, tail) == payload_at(d, offs[k as int]) + payloads_of(
                d,
                offs.skip(k as int + 1),
            ));
            assert(payloads_of(d, offs) =~= out@ + payloads_of(d, offs.skip(k as int + 1)));
        }
        k = k + 1;
    }
    proof {
        assert(offs.skip(offs.len() as int) =~= Seq::<int>::empty());
        assert(out@ =~= payloads_of(d, offs));
    }

    Ok(out)
}

} // verus!
