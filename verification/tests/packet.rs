use armada_lib::packet::{create_syn_tcp_packet_v4, create_syn_tcp_packet_v6};

fn ones_complement_sum(words: &[u16]) -> u16 {
    let mut sum: u32 = 0;
    for word in words {
        sum += *word as u32;
    }
    while sum >> 16 != 0 {
        sum = (sum >> 16) + (sum & 0xFFFF);
    }
    sum as u16
}

fn words_of(bytes: &[u8]) -> Vec<u16> {
    bytes.chunks(2).map(|pair| u16::from_be_bytes([pair[0], pair[1]])).collect()
}

#[test]
fn syn_segment_over_ipv4_has_the_expected_bytes() {
    let mut buffer = [0xAAu8; 32];
    let mut seq: u32 = 0x0102_0303;
    let built =
        create_syn_tcp_packet_v4(0xC0A8_010A, 0xC0A8_0114, 54321, 80, &mut buffer, &mut seq);
    assert!(built);
    assert_eq!(seq, 0x0102_0304);
    assert_eq!(
        buffer,
        [
            212, 49, 0, 80, 1, 2, 3, 4, 0, 0, 0, 0, 128, 2, 4, 0, 24, 40, 0, 0, 2, 4, 5, 180, 0,
            0, 0, 0, 0, 0, 0, 0
        ]
    );
}

#[test]
fn syn_segment_over_ipv6_has_the_expected_bytes() {
    let mut buffer = [0u8; 32];
    let mut seq: u32 = 6;
    let built = create_syn_tcp_packet_v6(
        0x2001_0db8_0000_0000_0000_0000_0000_0001,
        0x2001_0db8_0000_0000_0000_0000_0000_0002,
        54321,
        443,
        &mut buffer,
        &mut seq,
    );
    assert!(built);
    assert_eq!(seq, 7);
    assert_eq!(
        buffer,
        [
            212, 49, 1, 187, 0, 0, 0, 7, 0, 0, 0, 0, 128, 2, 4, 0, 66, 182, 0, 0, 2, 4, 5, 180, 0,
            0, 0, 0, 0, 0, 0, 0
        ]
    );
}

#[test]
fn syn_segment_of_all_ones() {
    let mut buffer = [0u8; 32];
    let mut seq: u32 = 0xFFFF_FFFE;
    assert!(create_syn_tcp_packet_v4(0xFFFF_FFFF, 0xFFFF_FFFF, 65535, 65535, &mut buffer, &mut seq));
    assert_eq!(seq, 0xFFFF_FFFF);
    assert_eq!(
        buffer,
        [
            255, 255, 255, 255, 255, 255, 255, 255, 0, 0, 0, 0, 128, 2, 4, 0, 116, 31, 0, 0, 2, 4,
            5, 180, 0, 0, 0, 0, 0, 0, 0, 0
        ]
    );
}

#[test]
fn sequence_counter_wraps() {
    let mut buffer = [0u8; 32];
    let mut seq: u32 = u32::MAX;
    assert!(create_syn_tcp_packet_v4(1, 2, 3, 4, &mut buffer, &mut seq));
    assert_eq!(seq, 0);
    assert_eq!(&buffer[4..8], &[0, 0, 0, 0]);
}

#[test]
fn short_buffer_is_refused_and_left_alone() {
    let mut buffer = [7u8; 31];
    let mut seq: u32 = 10;
    assert!(!create_syn_tcp_packet_v4(1, 2, 3, 4, &mut buffer, &mut seq));
    assert_eq!(buffer, [7u8; 31]);
    assert_eq!(seq, 11);
    let mut none: [u8; 0] = [];
    assert!(!create_syn_tcp_packet_v6(1, 2, 3, 4, &mut none, &mut seq));
    assert_eq!(seq, 12);
}

#[test]
fn longer_buffer_keeps_its_tail() {
    let mut buffer = [9u8; 40];
    let mut seq: u32 = 0x0102_0303;
    assert!(create_syn_tcp_packet_v4(0xC0A8_010A, 0xC0A8_0114, 54321, 80, &mut buffer, &mut seq));
    assert_eq!(&buffer[16..18], &[24, 40]);
    assert_eq!(&buffer[32..], &[9u8; 8]);
}

#[test]
fn packet_builder_gives_the_same_bytes_for_the_same_input() {
    let mut first = [0u8; 32];
    let mut second = [0xFFu8; 32];
    let mut seq_a: u32 = 99;
    let mut seq_b: u32 = 99;
    assert!(create_syn_tcp_packet_v4(0x0A00_0001, 0x0A00_0002, 50000, 22, &mut first, &mut seq_a));
    assert!(create_syn_tcp_packet_v4(0x0A00_0001, 0x0A00_0002, 50000, 22, &mut second, &mut seq_b));
    assert_eq!(first, second);
    assert_eq!(seq_a, seq_b);
}

#[test]
fn ipv4_checksum_verifies_against_the_pseudo_header() {
    let source: u32 = 0x0A00_0001;
    let remote: u32 = 0x0A00_00FE;
    let mut buffer = [0u8; 32];
    let mut seq: u32 = 0xDEAD_BEEF;
    assert!(create_syn_tcp_packet_v4(source, remote, 50123, 8080, &mut buffer, &mut seq));
    let mut words = vec![
        (source >> 16) as u16,
        source as u16,
        (remote >> 16) as u16,
        remote as u16,
        6,
        32,
    ];
    words.extend(words_of(&buffer));
    assert_eq!(ones_complement_sum(&words), 0xFFFF);
}

#[test]
fn ipv6_checksum_verifies_against_the_pseudo_header() {
    let source: u128 = 0xfe80_0000_0000_0000_0202_b3ff_fe1e_8329;
    let remote: u128 = 0x2001_0db8_85a3_0000_0000_8a2e_0370_7334;
    let mut buffer = [0u8; 32];
    let mut seq: u32 = 0;
    assert!(create_syn_tcp_packet_v6(source, remote, 50123, 22, &mut buffer, &mut seq));
    let mut words = words_of(&source.to_be_bytes());
    words.extend(words_of(&remote.to_be_bytes()));
    words.push(6);
    words.push(32);
    words.extend(words_of(&buffer));
    assert_eq!(ones_complement_sum(&words), 0xFFFF);
}
