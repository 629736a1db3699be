use armada_lib::{CidrBlock, HostIterator, IpAddress};

fn v4(a: u8, b: u8, c: u8, d: u8) -> u32 {
    u32::from_be_bytes([a, b, c, d])
}

fn drain(hosts: &mut HostIterator) -> Vec<IpAddress> {
    let mut all = Vec::new();
    while let Some(host) = hosts.next() {
        all.push(host);
    }
    all
}

#[test]
fn cidr_block_clears_the_host_bits() {
    let block = CidrBlock::v4(v4(10, 1, 2, 3), 24).unwrap();
    assert_eq!(block, CidrBlock::V4 { prefix: v4(10, 1, 2, 0), bits: 24 });
    assert_eq!(block.last_offset(), 255);
    assert_eq!(block.host_at(0), IpAddress::V4(v4(10, 1, 2, 0)));
    assert_eq!(block.host_at(255), IpAddress::V4(v4(10, 1, 2, 255)));
}

#[test]
fn cidr_block_rejects_too_many_bits() {
    assert_eq!(CidrBlock::v4(0, 33), None);
    assert_eq!(CidrBlock::v6(0, 129), None);
    assert!(CidrBlock::v4(0, 32).is_some());
    assert!(CidrBlock::v6(0, 128).is_some());
}

#[test]
fn cidr_block_of_everything_in_ipv4() {
    let block = CidrBlock::v4(v4(203, 0, 113, 9), 0).unwrap();
    assert_eq!(block, CidrBlock::V4 { prefix: 0, bits: 0 });
    assert_eq!(block.last_offset(), 0xFFFF_FFFF);
}

#[test]
fn cidr_block_in_ipv6() {
    let addr: u128 = 0x2001_0db8_0000_0000_0000_0000_0000_00ff;
    let block = CidrBlock::v6(addr, 120).unwrap();
    assert_eq!(
        block,
        CidrBlock::V6 { prefix: 0x2001_0db8_0000_0000_0000_0000_0000_0000, bits: 120 }
    );
    assert_eq!(block.last_offset(), 255);
    assert_eq!(
        block.host_at(17),
        IpAddress::V6(0x2001_0db8_0000_0000_0000_0000_0000_0011)
    );
    let wide = CidrBlock::v6(addr, 1).unwrap();
    assert_eq!(wide, CidrBlock::V6 { prefix: 0, bits: 1 });
    assert_eq!(wide.last_offset(), (1u128 << 127) - 1);
}

#[test]
fn single_address_blocks() {
    assert_eq!(
        CidrBlock::single(IpAddress::V4(v4(127, 0, 0, 1))),
        CidrBlock::V4 { prefix: v4(127, 0, 0, 1), bits: 32 }
    );
    assert_eq!(CidrBlock::single(IpAddress::V6(1)), CidrBlock::V6 { prefix: 1, bits: 128 });
    assert_eq!(CidrBlock::single(IpAddress::V6(1)).last_offset(), 0);
}

#[test]
fn host_iterator_walks_blocks_in_the_order_added() {
    let mut hosts = HostIterator::new()
        .add_cidr(CidrBlock::v4(v4(10, 0, 0, 0), 30).unwrap())
        .add_ip(IpAddress::V6(0xfe80 << 112 | 1))
        .add_cidr(CidrBlock::v4(v4(192, 168, 0, 255), 31).unwrap());
    assert_eq!(hosts.size(), 7);
    assert_eq!(
        drain(&mut hosts),
        vec![
            IpAddress::V4(v4(10, 0, 0, 0)),
            IpAddress::V4(v4(10, 0, 0, 1)),
            IpAddress::V4(v4(10, 0, 0, 2)),
            IpAddress::V4(v4(10, 0, 0, 3)),
            IpAddress::V6(0xfe80 << 112 | 1),
            IpAddress::V4(v4(192, 168, 0, 254)),
            IpAddress::V4(v4(192, 168, 0, 255)),
        ]
    );
    assert_eq!(hosts.next(), None);
}

#[test]
fn host_iterator_size_is_the_sum_of_the_block_sizes() {
    let hosts = HostIterator::new()
        .add_cidr(CidrBlock::v4(0, 0).unwrap())
        .add_cidr(CidrBlock::v6(0, 64).unwrap())
        .add_ip(IpAddress::V4(1));
    assert_eq!(hosts.size(), (1u128 << 32) + (1u128 << 64) + 1);
}

#[test]
fn empty_host_iterator_has_no_hosts() {
    let mut hosts = HostIterator::new();
    assert_eq!(hosts.size(), 0);
    assert_eq!(hosts.next(), None);
}

#[test]
fn host_iterator_add_ips_appends_each_address() {
    let mut hosts = HostIterator::new()
        .add_ip(IpAddress::V4(5))
        .add_ips(vec![IpAddress::V4(9), IpAddress::V6(9), IpAddress::V4(5)]);
    assert_eq!(hosts.size(), 4);
    assert_eq!(
        drain(&mut hosts),
        vec![IpAddress::V4(5), IpAddress::V4(9), IpAddress::V6(9), IpAddress::V4(5)]
    );
}

#[test]
fn host_iterator_reset_starts_over() {
    let mut hosts = HostIterator::new().add_cidr(CidrBlock::v4(v4(10, 0, 0, 0), 31).unwrap());
    assert_eq!(hosts.next(), Some(IpAddress::V4(v4(10, 0, 0, 0))));
    hosts.reset();
    assert_eq!(
        drain(&mut hosts),
        vec![IpAddress::V4(v4(10, 0, 0, 0)), IpAddress::V4(v4(10, 0, 0, 1))]
    );
}

#[test]
fn host_iterator_clone_keeps_blocks_and_starts_over() {
    let mut hosts = HostIterator::new().add_cidr(CidrBlock::v4(v4(10, 0, 0, 0), 30).unwrap());
    assert_eq!(hosts.next(), Some(IpAddress::V4(v4(10, 0, 0, 0))));
    assert_eq!(hosts.next(), Some(IpAddress::V4(v4(10, 0, 0, 1))));
    let mut copy = hosts.clone();
    assert_eq!(copy.size(), 4);
    assert_eq!(drain(&mut copy).len(), 4);
    assert_eq!(drain(&mut hosts).len(), 2);
}

#[test]
fn ip_address_family() {
    assert!(IpAddress::V4(0).is_ipv4());
    assert!(!IpAddress::V6(0).is_ipv4());
    assert_eq!(IpAddress::V4(0).family(), armada_lib::IpFamily::V4);
    assert_eq!(IpAddress::V6(0).family(), armada_lib::IpFamily::V6);
}

#[test]
fn blocks_that_cannot_be_counted_are_refused() {
    let everything = CidrBlock::v6(0, 0).unwrap();
    assert!(everything.is_well_formed());
    let hosts = HostIterator::new().add_ip(IpAddress::V4(1));
    let hosts = match hosts.try_add_cidr(everything) {
        Ok(_) => panic!("all of IPv6 cannot be counted"),
        Err(hosts) => hosts,
    };
    assert_eq!(hosts.size(), 1);
    let half = CidrBlock::v6(0, 1).unwrap();
    let hosts = hosts.try_add_cidr(half).ok().unwrap();
    assert_eq!(hosts.size(), (1u128 << 127) + 1);
    let hosts = match hosts.try_add_cidr(CidrBlock::v6(1 << 127, 1).unwrap()) {
        Ok(_) => panic!("more addresses than can be counted"),
        Err(hosts) => hosts,
    };
    assert_eq!(hosts.size(), (1u128 << 127) + 1);
}

#[test]
fn blocks_with_stray_bits_are_refused() {
    assert!(!CidrBlock::V4 { prefix: 1, bits: 24 }.is_well_formed());
    assert!(!CidrBlock::V4 { prefix: 0, bits: 33 }.is_well_formed());
    assert!(!CidrBlock::V6 { prefix: 1, bits: 127 }.is_well_formed());
    assert!(CidrBlock::V4 { prefix: 0x0A00_0000, bits: 8 }.is_well_formed());
    assert!(CidrBlock::V6 { prefix: 2, bits: 127 }.is_well_formed());
    let hosts = HostIterator::new();
    assert!(hosts.try_add_cidr(CidrBlock::V4 { prefix: 1, bits: 24 }).is_err());
}
