use armada_lib::engine::model::Event;
use armada_lib::tcp_ext::{
    fixup_packet, open_socket_from_response, parse_tcp_header, read_tcp_segment, try_next,
    try_send_to, TcpHeader, TCP_ACK, TCP_FIN, TCP_RST, TCP_SYN,
};
use armada_lib::{IpAddress, IpFamily, Probe};

fn segment(source: u16, destination: u16, sequence: u32, byte12: u8, flags: u8) -> Vec<u8> {
    let mut bytes = vec![0u8; 20];
    bytes[0..2].copy_from_slice(&source.to_be_bytes());
    bytes[2..4].copy_from_slice(&destination.to_be_bytes());
    bytes[4..8].copy_from_slice(&sequence.to_be_bytes());
    bytes[12] = byte12;
    bytes[13] = flags;
    bytes
}

#[test]
fn tcp_header_fields_are_read_in_network_order() {
    let header = parse_tcp_header(&segment(443, 54321, 0x0A0B0C0D, 0x50, 0x12)).unwrap();
    assert_eq!(
        header,
        TcpHeader { source: 443, destination: 54321, sequence: 0x0A0B0C0D, flags: 0x012 }
    );
    assert!(header.ack());
    assert!(header.syn());
    assert!(!header.rst());
}

#[test]
fn ninth_flag_bit_comes_from_the_data_offset_byte() {
    let header = parse_tcp_header(&segment(1, 2, 3, 0x51, 0x01)).unwrap();
    assert_eq!(header.flags, 0x101);
    assert_eq!(header.flags & TCP_FIN, TCP_FIN);
}

#[test]
fn short_tcp_header_is_refused() {
    assert_eq!(parse_tcp_header(&[0u8; 19]), None);
    assert_eq!(parse_tcp_header(&[]), None);
    assert!(parse_tcp_header(&[0u8; 20]).is_some());
}

#[test]
fn ipv4_segment_lies_behind_the_ip_header() {
    let mut datagram = vec![0u8; 64];
    datagram[0] = 0x45;
    datagram[20..40].copy_from_slice(&segment(80, 50000, 1, 0x50, 0x12));
    assert_eq!(
        read_tcp_segment(IpFamily::V4, &datagram, 40),
        Some(TcpHeader { source: 80, destination: 50000, sequence: 1, flags: 0x12 })
    );
    let mut with_options = vec![0u8; 64];
    with_options[0] = 0x46;
    with_options[24..44].copy_from_slice(&segment(81, 50001, 2, 0x50, 0x10));
    assert_eq!(
        read_tcp_segment(IpFamily::V4, &with_options, 44),
        Some(TcpHeader { source: 81, destination: 50001, sequence: 2, flags: 0x10 })
    );
}

#[test]
fn ipv6_segment_lies_behind_forty_bytes() {
    let mut datagram = vec![0u8; 80];
    datagram[0] = 0x6F;
    datagram[40..60].copy_from_slice(&segment(22, 50000, 9, 0x50, 0x12));
    assert_eq!(
        read_tcp_segment(IpFamily::V6, &datagram, 60),
        Some(TcpHeader { source: 22, destination: 50000, sequence: 9, flags: 0x12 })
    );
}

#[test]
fn truncated_datagrams_hold_no_segment() {
    let mut datagram = vec![0u8; 64];
    datagram[0] = 0x45;
    assert_eq!(read_tcp_segment(IpFamily::V4, &datagram, 39), None);
    assert_eq!(read_tcp_segment(IpFamily::V4, &datagram, 19), None);
    assert_eq!(read_tcp_segment(IpFamily::V4, &datagram, 0), None);
    assert_eq!(read_tcp_segment(IpFamily::V4, &datagram, 65), None);
    assert_eq!(read_tcp_segment(IpFamily::V4, &datagram[..19], 19), None);
    assert_eq!(read_tcp_segment(IpFamily::V6, &datagram, 59), None);
    assert!(read_tcp_segment(IpFamily::V6, &datagram, 60).is_some());
    datagram[0] = 0x4F;
    assert_eq!(read_tcp_segment(IpFamily::V4, &datagram, 64), None);
}

#[test]
fn syn_ack_to_the_listening_port_signals_an_open_port() {
    let header = TcpHeader { source: 22, destination: 50000, sequence: 0, flags: TCP_SYN | TCP_ACK };
    assert!(header.signals_open(50000));
    assert_eq!(
        open_socket_from_response(&header, IpAddress::V4(7), 50000),
        Some(Probe { ip: IpAddress::V4(7), port: 22 })
    );
}

#[test]
fn bare_ack_signals_an_open_port_too() {
    let header = TcpHeader { source: 22, destination: 50000, sequence: 0, flags: TCP_ACK };
    assert!(header.signals_open(50000));
}

#[test]
fn reset_or_wrong_port_or_no_ack_signals_nothing() {
    let reset = TcpHeader { source: 22, destination: 50000, sequence: 0, flags: TCP_RST | TCP_ACK };
    assert!(!reset.signals_open(50000));
    assert_eq!(open_socket_from_response(&reset, IpAddress::V4(7), 50000), None);
    let elsewhere =
        TcpHeader { source: 22, destination: 50001, sequence: 0, flags: TCP_SYN | TCP_ACK };
    assert!(!elsewhere.signals_open(50000));
    let syn_only = TcpHeader { source: 22, destination: 50000, sequence: 0, flags: TCP_SYN };
    assert!(!syn_only.signals_open(50000));
}

#[test]
fn what_sendto_returned_becomes_an_event() {
    assert_eq!(try_send_to(32, false), Event::Sent);
    assert_eq!(try_send_to(0, false), Event::Sent);
    assert_eq!(try_send_to(32, true), Event::Sent);
    assert_eq!(try_send_to(-1, true), Event::WouldBlock);
    assert_eq!(try_send_to(-1, false), Event::SendFailed);
    assert_eq!(try_send_to(-2, false), Event::SendFailed);
    assert_eq!(try_send_to(isize::MIN, false), Event::SendFailed);
}

#[test]
fn a_send_that_fails_otherwise_than_by_a_full_buffer_is_an_error() {
    for returned in [-1isize, -2, -13, isize::MIN] {
        assert_eq!(try_send_to(returned, false), Event::SendFailed);
        assert_eq!(try_send_to(returned, true), Event::WouldBlock);
    }
}

#[test]
fn what_recvfrom_returned_becomes_an_event() {
    let mut datagram = vec![0u8; 64];
    datagram[0] = 0x45;
    datagram[20..40].copy_from_slice(&segment(80, 50000, 1, 0x50, 0x12));
    let remote = IpAddress::V4(9);
    let received = Event::Received {
        header: TcpHeader { source: 80, destination: 50000, sequence: 1, flags: 0x12 },
        remote,
    };
    assert_eq!(try_next(IpFamily::V4, &datagram, 40, false, remote), received);
    assert_eq!(try_next(IpFamily::V4, &datagram, 40, true, remote), received);
    assert_eq!(try_next(IpFamily::V4, &datagram, 39, false, remote), Event::NothingReceived);
    assert_eq!(try_next(IpFamily::V4, &datagram, 0, false, remote), Event::NothingReceived);
    assert_eq!(try_next(IpFamily::V6, &datagram, 59, false, remote), Event::NothingReceived);
}

#[test]
fn a_receive_that_fails_otherwise_than_by_having_nothing_is_an_error() {
    let datagram = vec![0u8; 64];
    let remote = IpAddress::V4(9);
    for returned in [-1isize, -2, isize::MIN] {
        assert_eq!(
            try_next(IpFamily::V4, &datagram, returned, true, remote),
            Event::NothingReceived
        );
        assert_eq!(
            try_next(IpFamily::V4, &datagram, returned, false, remote),
            Event::ReceiveFailed
        );
        assert_eq!(
            try_next(IpFamily::V6, &datagram, returned, false, remote),
            Event::ReceiveFailed
        );
    }
}

#[test]
fn a_bsd_header_is_set_right() {
    let mut header = vec![0u8; 40];
    header[0] = 0x45;
    header[2] = 0x28;
    header[3] = 0x00;
    header[6] = 0b0100_0001;
    header[7] = 0b1110_0010;
    fixup_packet(&mut header);
    assert_eq!(&header[2..4], &[0x00, 0x28]);
    assert_eq!(header[6], 0b0100_0010);
    assert_eq!(header[7], 0b0000_0001);
    assert_eq!(header[0], 0x45);
}

#[test]
fn a_total_length_without_the_header_gets_it_back() {
    let mut header = vec![0u8; 40];
    header[0] = 0x45;
    header[2] = 20;
    header[3] = 0;
    fixup_packet(&mut header);
    assert_eq!(&header[2..4], &[0, 40]);
    let mut other = vec![0u8; 41];
    other[0] = 0x45;
    other[2] = 20;
    other[3] = 0;
    fixup_packet(&mut other);
    assert_eq!(&other[2..4], &[0, 20]);
}
