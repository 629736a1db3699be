use armada_lib::work::{ArmadaWork, ProbeProduct};
use armada_lib::{ArmadaWorkMessage, CidrBlock, HostIterator, IpAddress, PortIterator, Probe};

fn drain(stream: &mut ProbeProduct) -> Vec<Probe> {
    let mut all = Vec::new();
    while let Some(probe) = stream.next() {
        all.push(probe);
    }
    all
}

fn probe(ip: u32, port: u16) -> Probe {
    Probe { ip: IpAddress::V4(ip), port }
}

#[test]
fn product_walks_every_port_of_each_host_in_turn() {
    let hosts = HostIterator::new().add_cidr(CidrBlock::v4(8, 31).unwrap());
    let ports = PortIterator::new().add_port(80).add_range(442, 443);
    let mut stream = ProbeProduct::new(hosts, ports);
    assert_eq!(
        drain(&mut stream),
        vec![
            probe(8, 80),
            probe(8, 442),
            probe(8, 443),
            probe(9, 80),
            probe(9, 442),
            probe(9, 443)
        ]
    );
    assert_eq!(stream.next(), None);
}

#[test]
fn product_with_no_ports_or_no_hosts_is_empty() {
    let hosts = HostIterator::new().add_cidr(CidrBlock::v4(0, 0).unwrap());
    let mut stream = ProbeProduct::new(hosts, PortIterator::new());
    assert_eq!(stream.next(), None);
    let mut stream = ProbeProduct::new(HostIterator::new(), PortIterator::new().add_port(1));
    assert_eq!(stream.next(), None);
}

#[test]
fn product_starts_where_the_hosts_stand_and_with_all_ports() {
    let mut hosts = HostIterator::new().add_cidr(CidrBlock::v4(8, 30).unwrap());
    assert_eq!(hosts.next(), Some(IpAddress::V4(8)));
    assert_eq!(hosts.next(), Some(IpAddress::V4(9)));
    let mut ports = PortIterator::new().add_range(1, 2);
    assert_eq!(ports.next(), Some(1));
    let mut stream = ProbeProduct::new(hosts, ports);
    assert_eq!(drain(&mut stream), vec![probe(10, 1), probe(10, 2), probe(11, 1), probe(11, 2)]);
}

#[test]
fn armada_work_keeps_what_it_is_given() {
    let hosts = HostIterator::new().add_ip(IpAddress::V4(1));
    let ports = PortIterator::new().add_port(2);
    let mut work = ArmadaWork::new(hosts, ports, 3, 250, Some(1000), vec![4], vec![5, 6]);
    assert_eq!(work.port_retries, 3);
    assert_eq!(work.port_timeout, 250);
    assert_eq!(work.packets_per_second, Some(1000));
    assert_eq!(work.source_ipv4_addrs, vec![4]);
    assert_eq!(work.source_ipv6_addrs, vec![5, 6]);
    assert_eq!(drain(&mut work.remote_addrs), vec![probe(1, 2)]);
}

#[test]
fn work_messages_carry_their_contents() {
    assert_eq!(
        ArmadaWorkMessage::results(vec![probe(1, 2)]),
        ArmadaWorkMessage::Results(vec![probe(1, 2)])
    );
    assert_eq!(
        ArmadaWorkMessage::stats(1, 2, 3),
        ArmadaWorkMessage::Stats {
            total_processed_ports: 1,
            current_inflight_packets: 2,
            total_packets_sent: 3
        }
    );
}
