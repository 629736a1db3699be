//! The receive side of the raw sockets: where the TCP segment lies in what a
//! socket delivered, what its header says, and whether it answers a probe.
use vstd::prelude::*;
use crate::engine::model::Event;
use crate::net::{IpAddress, IpFamily, Probe};

verus! {

/// The FIN flag of a TCP header.
pub const TCP_FIN: u16 = 0x001;

/// The SYN flag of a TCP header.
pub const TCP_SYN: u16 = 0x002;

/// The RST flag of a TCP header.
pub const TCP_RST: u16 = 0x004;

/// The ACK flag of a TCP header.
pub const TCP_ACK: u16 = 0x010;

/// The length of a TCP header without options.
pub const TCP_HEADER_LEN: usize = 20;

/// The length of an IPv4 header without options.
pub const IPV4_HEADER_LEN: usize = 20;

/// The length of the IPv6 header.
pub const IPV6_HEADER_LEN: usize = 40;

/// What the engine reads of a TCP header.
#[derive(Clone, Copy, Debug, PartialEq, Eq, Structural)]
pub struct TcpHeader {
    pub source: u16,
    pub destination: u16,
    pub sequence: u32,
    /// The nine flag bits, NS highest and FIN lowest.
    pub flags: u16,
}

impl TcpHeader {
    /// The segment acknowledges something.
    pub open spec fn spec_ack(&self) -> bool {
        self.flags & TCP_ACK != 0
    }

    /// The segment resets the connection.
    pub open spec fn spec_rst(&self) -> bool {
        self.flags & TCP_RST != 0
    }

    /// The segment asks to synchronise sequence numbers.
    pub open spec fn spec_syn(&self) -> bool {
        self.flags & TCP_SYN != 0
    }

    /// The segment tells a scanner that listens on `listening_port` that the
    /// port it came from is open: it is addressed to that port, has ACK set
    /// and RST clear.
    pub open spec fn spec_signals_open(&self, listening_port: u16) -> bool {
        self.destination == listening_port && !self.spec_rst() && self.spec_ack()
    }

    /// Whether the ACK flag is set.
    #[verifier::when_used_as_spec(spec_ack)]
    pub fn ack(&self) -> (set: bool)
        ensures
            set == self.spec_ack(),
    {
        self.flags & TCP_ACK != 0
    }

    /// Whether the RST flag is set.
    #[verifier::when_used_as_spec(spec_rst)]
    pub fn rst(&self) -> (set: bool)
        ensures
            set == self.spec_rst(),
    {
        self.flags & TCP_RST != 0
    }

    /// Whether the SYN flag is set.
    #[verifier::when_used_as_spec(spec_syn)]
    pub fn syn(&self) -> (set: bool)
        ensures
            set == self.spec_syn(),
    {
        self.flags & TCP_SYN != 0
    }

    /// Whether the segment tells that a probed port is open.
    #[verifier::when_used_as_spec(spec_signals_open)]
    pub fn signals_open(&self, listening_port: u16) -> (open: bool)
        ensures
            open == self.spec_signals_open(listening_port),
    {
        self.destination == listening_port && !self.rst() && self.ack()
    }
}

/// The header fields of a TCP segment of at least 20 bytes.
pub open spec fn spec_tcp_header(segment: Seq<u8>) -> TcpHeader {
    TcpHeader {
        source: (segment[0] as int * 256 + segment[1] as int) as u16,
        destination: (segment[2] as int * 256 + segment[3] as int) as u16,
        sequence: (segment[4] as int * 0x100_0000 + segment[5] as int * 0x1_0000 + segment[6] as int
            * 0x100 + segment[7] as int) as u32,
        flags: ((segment[12] as int % 2) * 256 + segment[13] as int) as u16,
    }
}

/// Where the TCP segment starts in what a raw socket of `family` delivered:
/// behind the IPv4 header, whose length in 32-bit words is the low half of
/// its first byte, or behind the 40 bytes of the IPv6 header. There is no
/// answer for IPv4 when the buffer cannot hold an IPv4 header.
pub open spec fn spec_tcp_offset(family: IpFamily, buffer: Seq<u8>) -> Option<int> {
    match family {
        IpFamily::V4 => if buffer.len() >= 20 {
            Some((buffer[0] as int % 16) * 4)
        } else {
            None
        },
        IpFamily::V6 => Some(40),
    }
}

/// The header of the TCP segment in the first `recv_len` bytes of `buffer`,
/// if they hold one whole: the bytes received reach past the IP header by at
/// least the 20 bytes of a TCP header.
pub open spec fn spec_read_tcp_segment(family: IpFamily, buffer: Seq<u8>, recv_len: int) -> Option<
    TcpHeader,
> {
    match spec_tcp_offset(family, buffer) {
        Some(offset) => if offset + 20 <= recv_len <= buffer.len() {
            Some(spec_tcp_header(buffer.subrange(offset, recv_len)))
        } else {
            None
        },
        None => None,
    }
}

/// Reads the header of a TCP segment.
pub fn parse_tcp_header(segment: &[u8]) -> (header: Option<TcpHeader>)
    ensures
        header == if segment@.len() >= 20 {
            Some(spec_tcp_header(segment@))
        } else {
            None
        },
{
    if segment.len() < TCP_HEADER_LEN {
        return None;
    }
    let source: u16 = segment[0] as u16 * 256 + segment[1] as u16;
    let destination: u16 = segment[2] as u16 * 256 + segment[3] as u16;
    let sequence: u32 = segment[4] as u32 * 0x100_0000 + segment[5] as u32 * 0x1_0000
        + segment[6] as u32 * 0x100 + segment[7] as u32;
    let flags: u16 = (segment[12] % 2) as u16 * 256 + segment[13] as u16;
    Some(TcpHeader { source, destination, sequence, flags })
}

/// Finds and reads the TCP segment in what a raw socket of `family` delivered
/// into `buffer`, of which the first `recv_len` bytes were received. `None`
/// for a datagram that is cut short.
pub fn read_tcp_segment(family: IpFamily, buffer: &[u8], recv_len: usize) -> (header: Option<
    TcpHeader,
>)
    ensures
        header == spec_read_tcp_segment(family, buffer@, recv_len as int),
{
    let offset: usize = match family {
        IpFamily::V4 => {
            if buffer.len() < IPV4_HEADER_LEN {
                return None;
            }
            (buffer[0] % 16) as usize * 4
        },
        IpFamily::V6 => IPV6_HEADER_LEN,
    };
    if recv_len > buffer.len() || recv_len < offset {
        return None;
    }
    parse_tcp_header(vstd::slice::slice_subrange(buffer, offset, recv_len))
}

/// The probe that a segment from `remote` answers, if it tells that the port
/// it came from is open.
pub fn open_socket_from_response(
    header: &TcpHeader,
    remote: IpAddress,
    listening_port: u16,
) -> (probe: Option<Probe>)
    ensures
        probe == if header.spec_signals_open(listening_port) {
            Some(Probe { ip: remote, port: header.source })
        } else {
            None
        },
{
    if header.signals_open(listening_port) {
        Some(Probe::new(remote, header.source))
    } else {
        None
    }
}

/// What the engine is told of a send, from what `sendto` returned and, where
/// it failed, from whether the failure is that the socket's buffer is full
/// (`would_block`, read from the error of the call right after it): a
/// number that is not negative means that the segment was taken; a full
/// buffer means that the socket is busy; every other failure is an error of
/// the socket.
pub fn try_send_to(returned: isize, would_block: bool) -> (event: Event)
    ensures
        event == if returned >= 0 {
            Event::Sent
        } else if would_block {
            Event::WouldBlock
        } else {
            Event::SendFailed
        },
{
    if returned >= 0 {
        Event::Sent
    } else if would_block {
        Event::WouldBlock
    } else {
        Event::SendFailed
    }
}

/// What the engine is told of a receive on the socket of `family`, from
/// what `recvfrom` returned and put into `buffer` as coming from `remote`,
/// and, where it failed, from whether the failure is that nothing was
/// waiting (`would_block`, read from the error of the call right after it):
/// nothing waiting means that nothing was received; every other failure is
/// an error of the socket; a datagram that holds no whole TCP header counts
/// as nothing.
pub fn try_next(
    family: IpFamily,
    buffer: &[u8],
    returned: isize,
    would_block: bool,
    remote: IpAddress,
) -> (event: Event)
    ensures
        event == if returned < 0 {
            if would_block {
                Event::NothingReceived
            } else {
                Event::ReceiveFailed
            }
        } else {
            match spec_read_tcp_segment(family, buffer@, returned as int) {
                Some(header) => Event::Received { header, remote },
                None => Event::NothingReceived,
            }
        },
{
    if returned < 0 {
        if would_block {
            Event::NothingReceived
        } else {
            Event::ReceiveFailed
        }
    } else {
        match read_tcp_segment(family, buffer, returned as usize) {
            Some(header) => Event::Received { header, remote },
            None => Event::NothingReceived,
        }
    }
}

/// An IPv4 header as a BSD raw socket on a little-endian host delivers it,
/// set right: the two bytes of the total length change places, as do the
/// two bytes of the fragment offset, whose three flag bits stay where they
/// are. Where the total length then lacks exactly the header's length to
/// reach the length of the buffer, the header's length is added to it.
pub open spec fn spec_fixup_packet(packet: Seq<u8>) -> Seq<u8> {
    let swapped = packet[3] as int * 256 + packet[2] as int;
    let whole = swapped + (packet[0] as int % 16) * 4;
    let length = if whole == packet.len() {
        whole % 0x1_0000
    } else {
        swapped
    };
    packet.update(2, (length / 256) as u8).update(3, (length % 256) as u8).update(
        6,
        ((packet[6] as int / 32) * 32 + packet[7] as int % 32) as u8,
    ).update(7, (packet[6] as int % 32) as u8)
}

/// Sets right the IPv4 header at the start of `buffer`, as a BSD raw socket
/// on a little-endian host delivers it.
pub fn fixup_packet(buffer: &mut [u8])
    requires
        old(buffer)@.len() >= 20,
    ensures
        final(buffer)@ == spec_fixup_packet(old(buffer)@),
{
    let buflen = buffer.len();
    let swapped: usize = buffer[3] as usize * 256 + buffer[2] as usize;
    let whole: usize = swapped + (buffer[0] % 16) as usize * 4;
    let length: usize = if whole == buflen {
        whole % 0x1_0000
    } else {
        swapped
    };
    let flags_and_offset = buffer[6];
    let offset_low = buffer[7];
    buffer[2] = (length / 256) as u8;
    buffer[3] = (length % 256) as u8;
    buffer[6] = (flags_and_offset / 32) * 32 + offset_low % 32;
    buffer[7] = flags_and_offset % 32;
    proof {
        assert(buffer@ =~= spec_fixup_packet(old(buffer)@));
    }
}

} // verus!
