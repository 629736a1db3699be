use armada_lib::config::port::PortRegion;
use armada_lib::PortIterator;

fn drain(ports: &mut PortIterator) -> Vec<u16> {
    let mut all = Vec::new();
    while let Some(port) = ports.next() {
        all.push(port);
    }
    all
}

#[test]
fn port_iterator_yields_ranges_in_order() {
    let mut ports = PortIterator::new().add_range(80, 82).add_port(443);
    assert_eq!(ports.size(), 4);
    assert_eq!(ports.next(), Some(80));
    assert_eq!(ports.next(), Some(81));
    assert_eq!(ports.next(), Some(82));
    assert_eq!(ports.next(), Some(443));
    assert_eq!(ports.next(), None);
    assert_eq!(ports.next(), None);
}

#[test]
fn empty_port_iterator_has_no_ports() {
    let mut ports = PortIterator::new();
    assert_eq!(ports.size(), 0);
    assert_eq!(ports.next(), None);
}

#[test]
fn port_iterator_size_is_the_number_of_ports_it_yields() {
    let mut ports = PortIterator::new().add_range(1, 1000).add_port(8080).add_range(65530, 65535);
    assert_eq!(ports.size(), 1007);
    let all = drain(&mut ports);
    assert_eq!(all.len(), 1007);
    assert_eq!(all[0], 1);
    assert_eq!(all[999], 1000);
    assert_eq!(all[1000], 8080);
    assert_eq!(all[1001], 65530);
    assert_eq!(all[1006], 65535);
}

#[test]
fn the_whole_port_space_counts_65536_ports() {
    let mut ports = PortIterator::new().add_range(0, 65535);
    assert_eq!(ports.size(), 65536);
    let all = drain(&mut ports);
    assert_eq!(all.len(), 65536);
    assert_eq!(all[0], 0);
    assert_eq!(all[65535], 65535);
}

#[test]
fn repeated_ranges_are_kept_apart() {
    let mut ports = PortIterator::new().add_port(80).add_port(80);
    assert_eq!(ports.size(), 2);
    assert_eq!(drain(&mut ports), vec![80, 80]);
}

#[test]
fn port_iterator_reset_starts_over() {
    let mut ports = PortIterator::new().add_range(10, 12);
    assert_eq!(ports.next(), Some(10));
    assert_eq!(ports.next(), Some(11));
    ports.reset();
    assert_eq!(drain(&mut ports), vec![10, 11, 12]);
    ports.reset();
    assert_eq!(drain(&mut ports), vec![10, 11, 12]);
}

#[test]
fn port_iterator_clone_keeps_ranges_and_starts_over() {
    let mut ports = PortIterator::new().add_range(10, 12).add_port(20);
    assert_eq!(ports.next(), Some(10));
    assert_eq!(ports.next(), Some(11));
    let mut copy = ports.clone();
    assert_eq!(copy.size(), 4);
    assert_eq!(drain(&mut copy), vec![10, 11, 12, 20]);
    assert_eq!(drain(&mut ports), vec![12, 20]);
}

#[test]
fn a_range_added_after_the_end_is_walked_next() {
    let mut ports = PortIterator::new().add_port(1);
    assert_eq!(drain(&mut ports), vec![1]);
    let mut ports = ports.add_range(5, 6);
    assert_eq!(ports.size(), 3);
    assert_eq!(drain(&mut ports), vec![5, 6]);
}

#[test]
fn port_region_walks_from_start_to_end() {
    let mut region = PortRegion::new(7, 9);
    assert_eq!(region.size(), 3);
    assert_eq!(region.next(), Some(7));
    assert_eq!(region.next(), Some(8));
    assert_eq!(region.next(), Some(9));
    assert_eq!(region.next(), None);
    region.reset();
    assert_eq!(region.next(), Some(7));
}

#[test]
fn port_region_of_one_port() {
    let mut region = PortRegion::new(65535, 65535);
    assert_eq!(region.size(), 1);
    assert_eq!(region.next(), Some(65535));
    assert_eq!(region.next(), None);
}

#[test]
fn reversed_ranges_are_refused() {
    let ports = PortIterator::new().add_port(1);
    let ports = match ports.try_add_range(9, 8) {
        Ok(_) => panic!("a range cannot end below its start"),
        Err(ports) => ports,
    };
    assert_eq!(ports.size(), 1);
    let mut ports = ports.try_add_range(8, 9).ok().unwrap();
    assert_eq!(ports.size(), 3);
    assert_eq!(drain(&mut ports), vec![1, 8, 9]);
}
