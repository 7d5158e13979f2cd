use layers::errors::LayerError;
use layers::layers::layer4::{
    self, ones_complement_sum, parse_and_filter_packets, Ipv4Address, Ipv4Header, PacketFilter,
    UdpPacket,
};

const SAMPLE_PACKET: [u8; 40] = [
    // ip header
    0x45, 0x00, // stuff i can ignore :)
    0x00, 0x28, // total length (40)
    0xb5, 0x81, 0x00, 0x00, 0x40, // stuff i can ignore :)
    0x11, // protocol (17 -> UDP)
    0xc7, 0x41, // ip cksum
    0x7f, 0x00, 0x00, 0x01, // src addr (127.0.0.1)
    0x7f, 0x00, 0x00, 0x01, // dest addr (127.0.0.1)
    // no options

    // udp header
    0xc9, 0x64, // src port (51556)
    0x1f, 0xbd, // dest port (8125)
    0x00, 0x14, // udp length (header + data, 8 + 12 = 20)
    0xcc, 0x52, // udp chksum
    // data (rust is cool)
    0x72, 0x75, 0x73, 0x74, 0x20, 0x69, 0x73, 0x20, 0x63, 0x6f, 0x6f, 0x6c,
];

#[test]
fn test_udp_parse() {
    let header = &SAMPLE_PACKET[0..28];
    let data = &SAMPLE_PACKET[28..];

    let packet = UdpPacket::parse_headers(header).unwrap().set_data(data);

    assert_eq!(packet.ip_header.source, Ipv4Address::new(127, 0, 0, 1));
    assert_eq!(packet.ip_header.destination, Ipv4Address::new(127, 0, 0, 1));
    assert!(packet.ip_header.valid_checksum());

    assert_eq!(packet.pseudo_header.source_address, Ipv4Address::new(127, 0, 0, 1));
    assert_eq!(packet.pseudo_header.destination_address, Ipv4Address::new(127, 0, 0, 1));
    assert_eq!(packet.pseudo_header.protocol, 17);
    assert_eq!(packet.pseudo_header.udp_length, 20);

    assert_eq!(packet.udp_header.source_port, 51556);
    assert_eq!(packet.udp_header.destination_port, 8125);
    assert_eq!(packet.udp_header.length, 20);

    assert!(packet.valid_udp_checksum());
    assert!(packet.valid_checksums()); // already checked individually, but make sure this method works
}

#[test]
fn test_from_bytes() {
    // a random packet from tcpdump
    let packet = [
        0x45, 0x00, 0x00, 0xd0, 0xb4, 0x2a, 0x40, 0x00, 0x40, 0x06, 0xc2, 0xd8, 0xac, 0x18, 0xba,
        0xf2, 0xac, 0x18, 0xb0, 0x01,
    ];
    let out = Ipv4Header::from_bytes(&packet).unwrap();
    assert_eq!(out.source, Ipv4Address::new(172, 24, 186, 242));
    assert_eq!(out.destination, Ipv4Address::new(172, 24, 176, 1));
}

#[test]
fn test_ones_complement_sum() {
    //   0001 0110     22
    // + 0000 0011      3
    // ===========   ====
    //   0001 1001     25

    let x = 0b_0000_0000_0001_0110;
    let y = 0b_0000_0000_0000_0011;
    assert_eq!(ones_complement_sum(x, y), 0b_0000_0000_0001_1001);

    //   1111 1110     -1   (254)
    // + 0000 0001      1
    // ===========   ====
    //   1111 1111     -0   (lol)

    let x = 0b_0000_0000_1111_1110;
    let y = 0b_0000_0000_0000_0001;
    assert_eq!(ones_complement_sum(x, y), 0b_0000_0000_1111_1111);

    //   1111 1110     -1   (254)
    // + 0000 0011      3
    // ===========   ====
    // 1 0000 0001
    // \________
    //          \
    // + 0000 0001
    // ===========   ====
    //   0000 0010      2

    let x = 0b_1111_1111_1111_1110;
    let y = 0b_0000_0000_0000_0011;
    assert_eq!(ones_complement_sum(x, y), 0b_0000_0000_0000_0010);
}

fn loopback_filter() -> PacketFilter {
    PacketFilter {
        source: Ipv4Address::new(127, 0, 0, 1),
        destination: Ipv4Address::new(127, 0, 0, 1),
        destination_port: 8125,
    }
}

/// The sample packet with its destination port changed to 9999 and its UDP
/// checksum fixed up, so both checksums still hold and only the filter
/// rejects it.
fn wrong_port_packet() -> [u8; 40] {
    let mut bad = SAMPLE_PACKET;
    bad[22] = 0x27;
    bad[23] = 0x0f;
    bad[26] = 0xc5;
    bad[27] = 0x00;
    bad
}

#[test]
fn test_filter_skips_wrong_port_packet() {
    // a packet failing the filter, then a passing one: only the second's
    // payload comes out, the first skipped whole via its declared length
    let mut stream = Vec::new();
    stream.extend_from_slice(&wrong_port_packet());
    stream.extend_from_slice(&SAMPLE_PACKET);

    let packets = parse_and_filter_packets(&stream, &loopback_filter()).unwrap();
    assert_eq!(packets.len(), 1);
    assert_eq!(packets[0].data, b"rust is cool".to_vec());
    assert_eq!(packets[0].udp_header.destination_port, 8125);
}

#[test]
fn test_wrong_port_packet_still_has_valid_checksums() {
    let bad = wrong_port_packet();
    let packet = UdpPacket::parse_headers(&bad[0..28]).unwrap().set_data(&bad[28..]);
    assert!(packet.valid_checksums());
    assert_eq!(packet.udp_header.destination_port, 9999);
}

#[test]
fn test_corrupted_checksum_packet_is_dropped() {
    let mut corrupted = SAMPLE_PACKET;
    corrupted[30] = corrupted[30] ^ 0x01; // flip one payload bit
    let packets = parse_and_filter_packets(&corrupted, &loopback_filter()).unwrap();
    assert_eq!(packets.len(), 0);
}

#[test]
fn test_truncated_header_before_any_packet() {
    let stream = [0u8; 10];
    let r = parse_and_filter_packets(&stream, &loopback_filter());
    assert!(matches!(r, Err(LayerError::TruncatedHeader)));
}

#[test]
fn test_empty_stream() {
    let packets = parse_and_filter_packets(&[], &loopback_filter()).unwrap();
    assert_eq!(packets.len(), 0);
}

#[test]
fn test_mid_stream_truncation_is_benign() {
    let mut stream = Vec::new();
    stream.extend_from_slice(&SAMPLE_PACKET);
    stream.extend_from_slice(&[0u8; 5]); // too short for another header
    let packets = parse_and_filter_packets(&stream, &loopback_filter()).unwrap();
    assert_eq!(packets.len(), 1);
    assert_eq!(packets[0].data, b"rust is cool".to_vec());
}

#[test]
fn test_layer4_run() {
    // the wrong-port packet then the passing packet, inside an envelope
    let envelope = b"<~70!<9[=J;X5S;%&IfKHLIfKHLa^cb0!#3BPEclGF+DGm>@rH:%70!<9[=J;X5S;%&IfKHLIfKHLa^cL,!#3XTEclGF+DGm>@rH:%~>";
    let out = layer4::run(envelope, &loopback_filter()).unwrap();
    assert_eq!(out, b"rust is cool".to_vec());
}
