//! The probe on the wire: a 32-byte TCP segment with the SYN flag, a window
//! of 1024, and one option, a maximum segment size of 1460. The checksum over
//! the segment and its pseudo-header is computed by `pnet`.
use vstd::prelude::*;
use vstd::arithmetic::div_mod::lemma_mod_multiples_vanish;
use vstd::slice::slice_subrange;
use pnet::packet::ip::IpNextHeaderProtocol;
use crate::tcp_ext::{spec_tcp_header, TcpHeader, TCP_SYN};

verus! {

/// The length of a probe segment: a 20-byte header and 12 bytes of options.
pub const SYN_SEGMENT_LEN: usize = 32;

/// The protocol number of TCP in an IP header.
pub const IP_PROTOCOL_TCP: u8 = 6;

/// The index of the checksum among the 16-bit words of a TCP header.
pub const TCP_CHECKSUM_WORD: usize = 8;

/// The sequence number that follows `seq`; after the largest comes 0.
pub open spec fn next_sequence(seq: u32) -> u32 {
    if seq == u32::MAX {
        0
    } else {
        (seq + 1) as u32
    }
}

/// The probe segment with its checksum field left at zero.
pub open spec fn syn_header(source_port: u16, remote_port: u16, sequence: u32) -> Seq<u8> {
    seq![
        (source_port / 256) as u8,
        (source_port % 256) as u8,
        (remote_port / 256) as u8,
        (remote_port % 256) as u8,
        (sequence / 0x100_0000) as u8,
        (sequence / 0x1_0000 % 256) as u8,
        (sequence / 0x100 % 256) as u8,
        (sequence % 256) as u8,
        0u8,
        0u8,
        0u8,
        0u8,
        0x80u8,
        0x02u8,
        0x04u8,
        0x00u8,
        0u8,
        0u8,
        0u8,
        0u8,
        2u8,
        4u8,
        0x05u8,
        0xB4u8,
        0u8,
        0u8,
        0u8,
        0u8,
        0u8,
        0u8,
        0u8,
        0u8,
    ]
}

/// The `i`-th 16-bit word of `data`, read in network order.
pub open spec fn word_at(data: Seq<u8>, i: int) -> int {
    data[2 * i] as int * 256 + data[2 * i + 1] as int
}

/// The sum of the first `n` 16-bit words of `data`.
pub open spec fn words_sum(data: Seq<u8>, n: int) -> int
    decreases n,
{
    if n <= 0 {
        0
    } else {
        words_sum(data, n - 1) + word_at(data, n - 1)
    }
}

/// The sum of the 16-bit words of `data` but for the word `skipword`.
pub open spec fn words_sum_skipping(data: Seq<u8>, skipword: int) -> int {
    words_sum(data, data.len() as int / 2) - if 0 <= skipword < data.len() as int / 2 {
        word_at(data, skipword)
    } else {
        0
    }
}

/// A sum with its carries above 16 bits added back in until none is left.
pub open spec fn fold_carries(sum: int) -> int
    decreases sum,
{
    if sum < 0x1_0000 {
        sum
    } else {
        fold_carries(sum / 0x1_0000 + sum % 0x1_0000)
    }
}

/// The Internet checksum of a sum of 16-bit words: the one's complement of
/// the folded sum.
pub open spec fn checksum_of(sum: int) -> u16 {
    (0xFFFF - fold_carries(sum)) as u16
}

/// The sum of the two 16-bit words of an IPv4 address.
pub open spec fn ipv4_words(addr: u32) -> int {
    addr as int / 0x1_0000 + addr as int % 0x1_0000
}

/// The 16-bit word of an IPv6 address that stands above `below`, a power of
/// 0x1_0000.
pub open spec fn ipv6_word(addr: u128, below: int) -> int {
    addr as int / below % 0x1_0000
}

/// The sum of the eight 16-bit words of an IPv6 address.
pub open spec fn ipv6_words(addr: u128) -> int {
    ipv6_word(addr, 0x1_0000_0000_0000_0000_0000_0000_0000)
        + ipv6_word(addr, 0x1_0000_0000_0000_0000_0000_0000)
        + ipv6_word(addr, 0x1_0000_0000_0000_0000_0000)
        + ipv6_word(addr, 0x1_0000_0000_0000_0000)
        + ipv6_word(addr, 0x1_0000_0000_0000)
        + ipv6_word(addr, 0x1_0000_0000)
        + ipv6_word(addr, 0x1_0000)
        + ipv6_word(addr, 1)
}

/// The sum of the words of the IPv4 pseudo-header: both addresses, the
/// protocol and the length of the segment.
pub open spec fn ipv4_pseudo_sum(source: u32, destination: u32, protocol: u8, len: int) -> int {
    ipv4_words(source) + ipv4_words(destination) + protocol as int + len
}

/// The sum of the words of the IPv6 pseudo-header.
pub open spec fn ipv6_pseudo_sum(source: u128, destination: u128, protocol: u8, len: int) -> int {
    ipv6_words(source) + ipv6_words(destination) + protocol as int + len
}

/// `pnet::util::ipv4_checksum` with no extra data: the Internet checksum of
/// the IPv4 pseudo-header and of the 16-bit words of `data` but for the word
/// `skipword`. The crate sums in 32 bits, which data of up to 64 KiB cannot
/// overflow.
#[verifier::external_body]
fn ipv4_checksum(
    data: &[u8],
    skipword: usize,
    source: u32,
    destination: u32,
    protocol: u8,
) -> (checksum: u16)
    requires
        data@.len() % 2 == 0,
        data@.len() <= 0x1_0000,
    ensures
        checksum == checksum_of(
            ipv4_pseudo_sum(source, destination, protocol, data@.len() as int)
                + words_sum_skipping(data@, skipword as int),
        ),
{
    pnet::util::ipv4_checksum(
        data,
        skipword,
        &[],
        &source.into(),
        &destination.into(),
        IpNextHeaderProtocol(protocol),
    )
}

/// `pnet::util::ipv6_checksum` with no extra data: as for IPv4, with the
/// eight words of each address.
#[verifier::external_body]
fn ipv6_checksum(
    data: &[u8],
    skipword: usize,
    source: u128,
    destination: u128,
    protocol: u8,
) -> (checksum: u16)
    requires
        data@.len() % 2 == 0,
        data@.len() <= 0x1_0000,
    ensures
        checksum == checksum_of(
            ipv6_pseudo_sum(source, destination, protocol, data@.len() as int)
                + words_sum_skipping(data@, skipword as int),
        ),
{
    pnet::util::ipv6_checksum(
        data,
        skipword,
        &[],
        &source.into(),
        &destination.into(),
        IpNextHeaderProtocol(protocol),
    )
}

/// `segment` with `checksum` written into its checksum field.
pub open spec fn with_checksum(segment: Seq<u8>, checksum: u16) -> Seq<u8> {
    segment.update(16, (checksum / 256) as u8).update(17, (checksum % 256) as u8)
}

/// The probe segment from `source_ip` to `remote_ip` over IPv4.
pub open spec fn syn_segment_v4(
    source_ip: u32,
    remote_ip: u32,
    source_port: u16,
    remote_port: u16,
    sequence: u32,
) -> Seq<u8> {
    let header = syn_header(source_port, remote_port, sequence);
    with_checksum(
        header,
        checksum_of(
            ipv4_pseudo_sum(source_ip, remote_ip, IP_PROTOCOL_TCP, 32) + words_sum_skipping(
                header,
                8,
            ),
        ),
    )
}

/// The probe segment from `source_ip` to `remote_ip` over IPv6.
pub open spec fn syn_segment_v6(
    source_ip: u128,
    remote_ip: u128,
    source_port: u16,
    remote_port: u16,
    sequence: u32,
) -> Seq<u8> {
    let header = syn_header(source_port, remote_port, sequence);
    with_checksum(
        header,
        checksum_of(
            ipv6_pseudo_sum(source_ip, remote_ip, IP_PROTOCOL_TCP, 32) + words_sum_skipping(
                header,
                8,
            ),
        ),
    )
}

/// Writes the probe's header into the first 32 bytes of `buffer`, with the
/// checksum field at zero, after stepping the sequence counter.
fn create_syn_tcp_packet_inner(
    source_port: u16,
    remote_port: u16,
    buffer: &mut [u8],
    tcp_seq: &mut u32,
) -> (built: bool)
    ensures
        *final(tcp_seq) == next_sequence(*old(tcp_seq)),
        built <==> old(buffer)@.len() >= 32,
        final(buffer)@.len() == old(buffer)@.len(),
        built ==> final(buffer)@.take(32) == syn_header(source_port, remote_port, *final(tcp_seq))
            && final(buffer)@.skip(32) == old(buffer)@.skip(32),
        !built ==> final(buffer)@ == old(buffer)@,
{
    *tcp_seq = tcp_seq.wrapping_add(1);
    if buffer.len() < SYN_SEGMENT_LEN {
        return false;
    }
    let seq: u32 = *tcp_seq;
    buffer[0] = (source_port / 256) as u8;
    buffer[1] = (source_port % 256) as u8;
    buffer[2] = (remote_port / 256) as u8;
    buffer[3] = (remote_port % 256) as u8;
    buffer[4] = (seq / 0x100_0000) as u8;
    buffer[5] = (seq / 0x1_0000 % 256) as u8;
    buffer[6] = (seq / 0x100 % 256) as u8;
    buffer[7] = (seq % 256) as u8;
    buffer[8] = 0;
    buffer[9] = 0;
    buffer[10] = 0;
    buffer[11] = 0;
    buffer[12] = 0x80;
    buffer[13] = 0x02;
    buffer[14] = 0x04;
    buffer[15] = 0x00;
    buffer[16] = 0;
    buffer[17] = 0;
    buffer[18] = 0;
    buffer[19] = 0;
    buffer[20] = 2;
    buffer[21] = 4;
    buffer[22] = 0x05;
    buffer[23] = 0xB4;
    let mut i: usize = 24;
    while i < 32
        invariant
            24 <= i <= 32,
            buffer@.len() == old(buffer)@.len(),
            buffer@.len() >= 32,
            buffer@.skip(32) == old(buffer)@.skip(32),
            buffer@.take(24) == syn_header(source_port, remote_port, seq).take(24),
            forall|j: int| 24 <= j < i ==> buffer@[j] == 0,
        decreases 32 - i,
    {
        buffer[i] = 0;
        i = i + 1;
    }
    assert(buffer@.take(32) =~= syn_header(source_port, remote_port, seq));
    true
}

/// Writes into the first 32 bytes of `buffer` the SYN segment that probes
/// `remote_port` at `remote_ip` from `source_port` at `source_ip`, over
/// IPv4. The sequence counter is stepped first, and its new value is the
/// segment's sequence number. Returns whether the buffer could hold the
/// segment; a shorter one is left as it was.
pub fn create_syn_tcp_packet_v4(
    source_ip: u32,
    remote_ip: u32,
    source_port: u16,
    remote_port: u16,
    buffer: &mut [u8],
    tcp_seq: &mut u32,
) -> (built: bool)
    ensures
        *final(tcp_seq) == next_sequence(*old(tcp_seq)),
        built <==> old(buffer)@.len() >= 32,
        final(buffer)@.len() == old(buffer)@.len(),
        built ==> final(buffer)@.take(32) == syn_segment_v4(
            source_ip,
            remote_ip,
            source_port,
            remote_port,
            *final(tcp_seq),
        ) && final(buffer)@.skip(32) == old(buffer)@.skip(32),
        !built ==> final(buffer)@ == old(buffer)@,
{
    if !create_syn_tcp_packet_inner(source_port, remote_port, buffer, tcp_seq) {
        return false;
    }
    let ghost header = buffer@;
    let checksum = ipv4_checksum(
        slice_subrange(buffer, 0, SYN_SEGMENT_LEN),
        TCP_CHECKSUM_WORD,
        source_ip,
        remote_ip,
        IP_PROTOCOL_TCP,
    );
    buffer[16] = (checksum / 256) as u8;
    buffer[17] = (checksum % 256) as u8;
    proof {
        assert(header.subrange(0, 32) =~= header.take(32));
        assert(buffer@.skip(32) =~= header.skip(32));
        assert(buffer@.take(32) =~= with_checksum(header.take(32), checksum));
    }
    true
}

/// As `create_syn_tcp_packet_v4`, over IPv6.
pub fn create_syn_tcp_packet_v6(
    source_ip: u128,
    remote_ip: u128,
    source_port: u16,
    remote_port: u16,
    buffer: &mut [u8],
    tcp_seq: &mut u32,
) -> (built: bool)
    ensures
        *final(tcp_seq) == next_sequence(*old(tcp_seq)),
        built <==> old(buffer)@.len() >= 32,
        final(buffer)@.len() == old(buffer)@.len(),
        built ==> final(buffer)@.take(32) == syn_segment_v6(
            source_ip,
            remote_ip,
            source_port,
            remote_port,
            *final(tcp_seq),
        ) && final(buffer)@.skip(32) == old(buffer)@.skip(32),
        !built ==> final(buffer)@ == old(buffer)@,
{
    if !create_syn_tcp_packet_inner(source_port, remote_port, buffer, tcp_seq) {
        return false;
    }
    let ghost header = buffer@;
    let checksum = ipv6_checksum(
        slice_subrange(buffer, 0, SYN_SEGMENT_LEN),
        TCP_CHECKSUM_WORD,
        source_ip,
        remote_ip,
        IP_PROTOCOL_TCP,
    );
    buffer[16] = (checksum / 256) as u8;
    buffer[17] = (checksum % 256) as u8;
    proof {
        assert(header.subrange(0, 32) =~= header.take(32));
        assert(buffer@.skip(32) =~= header.skip(32));
        assert(buffer@.take(32) =~= with_checksum(header.take(32), checksum));
    }
    true
}

/// Folding keeps a sum's remainder by 65535, and a positive sum folds to a
/// positive 16-bit value.
pub proof fn lemma_fold_carries(sum: int)
    requires
        sum >= 0,
    ensures
        fold_carries(sum) % 0xFFFF == sum % 0xFFFF,
        0 <= fold_carries(sum) <= 0xFFFF,
        sum > 0 ==> fold_carries(sum) > 0,
    decreases sum,
{
    if sum >= 0x1_0000 {
        let q = sum / 0x1_0000;
        let r = sum % 0x1_0000;
        assert(sum == 0xFFFF * q + (q + r));
        lemma_mod_multiples_vanish(q, q + r, 0xFFFF);
        lemma_fold_carries(q + r);
    }
}

/// A segment whose checksum field holds the checksum of the rest sums, with
/// that field and the pseudo-header, to 0xFFFF: the receiver's test.
pub proof fn lemma_checksum_verifies(header: Seq<u8>, pseudo_sum: int)
    requires
        header.len() == 32,
        header[16] == 0,
        header[17] == 0,
        pseudo_sum > 0,
    ensures
        fold_carries(
            pseudo_sum + words_sum(
                with_checksum(header, checksum_of(pseudo_sum + words_sum_skipping(header, 8))),
                16,
            ),
        ) == 0xFFFF,
{
    let rest = pseudo_sum + words_sum_skipping(header, 8);
    let checksum = checksum_of(rest);
    let segment = with_checksum(header, checksum);
    reveal_with_fuel(words_sum, 17);
    assert(word_at(header, 8) == 0);
    assert(words_sum(header, 16) >= 0);
    lemma_fold_carries(rest);
    assert(word_at(segment, 8) == checksum as int);
    assert(words_sum(segment, 16) == words_sum(header, 16) + checksum);
    let total = rest + checksum;
    lemma_fold_carries(total);
    assert(total % 0xFFFF == 0) by {
        assert(rest == 0xFFFF * (rest / 0xFFFF) + rest % 0xFFFF);
        assert(fold_carries(rest) % 0xFFFF == rest % 0xFFFF);
        if fold_carries(rest) == 0xFFFF {
            assert(rest % 0xFFFF == 0);
        } else {
            assert(fold_carries(rest) % 0xFFFF == fold_carries(rest));
            assert(total == 0xFFFF * (rest / 0xFFFF + 1) + 0);
            lemma_mod_multiples_vanish(rest / 0xFFFF + 1, 0, 0xFFFF);
        }
    }
}

/// The checksum of an IPv4 probe verifies: the words of the pseudo-header
/// and of the whole segment sum to 0xFFFF.
pub proof fn lemma_syn_v4_checksum_verifies(
    source_ip: u32,
    remote_ip: u32,
    source_port: u16,
    remote_port: u16,
    sequence: u32,
)
    ensures
        fold_carries(
            ipv4_pseudo_sum(source_ip, remote_ip, IP_PROTOCOL_TCP, 32) + words_sum(
                syn_segment_v4(source_ip, remote_ip, source_port, remote_port, sequence),
                16,
            ),
        ) == 0xFFFF,
{
    lemma_checksum_verifies(
        syn_header(source_port, remote_port, sequence),
        ipv4_pseudo_sum(source_ip, remote_ip, IP_PROTOCOL_TCP, 32),
    );
}

/// The words of an address are not negative.
pub proof fn lemma_ipv6_words_not_negative(addr: u128)
    ensures
        ipv6_words(addr) >= 0,
{
    assert(ipv6_word(addr, 0x1_0000_0000_0000_0000_0000_0000_0000) >= 0);
    assert(ipv6_word(addr, 0x1_0000_0000_0000_0000_0000_0000) >= 0);
    assert(ipv6_word(addr, 0x1_0000_0000_0000_0000_0000) >= 0);
    assert(ipv6_word(addr, 0x1_0000_0000_0000_0000) >= 0);
    assert(ipv6_word(addr, 0x1_0000_0000_0000) >= 0);
    assert(ipv6_word(addr, 0x1_0000_0000) >= 0);
    assert(ipv6_word(addr, 0x1_0000) >= 0);
    assert(ipv6_word(addr, 1) >= 0);
}

/// The checksum of an IPv6 probe verifies.
pub proof fn lemma_syn_v6_checksum_verifies(
    source_ip: u128,
    remote_ip: u128,
    source_port: u16,
    remote_port: u16,
    sequence: u32,
)
    ensures
        fold_carries(
            ipv6_pseudo_sum(source_ip, remote_ip, IP_PROTOCOL_TCP, 32) + words_sum(
                syn_segment_v6(source_ip, remote_ip, source_port, remote_port, sequence),
                16,
            ),
        ) == 0xFFFF,
{
    lemma_ipv6_words_not_negative(source_ip);
    lemma_ipv6_words_not_negative(remote_ip);
    let pseudo_sum = ipv6_pseudo_sum(source_ip, remote_ip, IP_PROTOCOL_TCP, 32);
    assert(pseudo_sum > 0);
    lemma_checksum_verifies(syn_header(source_port, remote_port, sequence), pseudo_sum);
}

/// A probe reads back as what it was built from: its ports, its sequence
/// number, and the SYN flag alone, whatever its checksum.
pub proof fn lemma_syn_segment_reads_back(
    source_port: u16,
    remote_port: u16,
    sequence: u32,
    checksum: u16,
)
    ensures
        spec_tcp_header(with_checksum(syn_header(source_port, remote_port, sequence), checksum))
            == (TcpHeader {
            source: source_port,
            destination: remote_port,
            sequence,
            flags: TCP_SYN,
        }),
{
}

} // verus!
