use std::collections::VecDeque;

use armada_lib::engine::model::{Event, ScanError};
use armada_lib::engine::worker::{Action, ArmadaWorker};
use armada_lib::tcp_ext::{
    parse_tcp_header, try_next, try_send_to, TcpHeader, TCP_ACK, TCP_RST, TCP_SYN,
};
use armada_lib::work::ArmadaWork;
use armada_lib::{
    ArmadaWorkMessage, CidrBlock, HostIterator, IpAddress, IpFamily, PortIterator, Probe,
};

const LISTENING_PORT: u16 = 54321;

/// A network in which the listed endpoints answer every SYN with a SYN-ACK
/// and nothing else answers at all. Time advances by one millisecond with
/// every action the engine asks for.
struct Network {
    listeners: Vec<Probe>,
    deaf_attempts: usize,
    busy_at: Vec<usize>,
    fail_send_at: Option<usize>,
    fail_report_at: Option<usize>,
    replies_v4: VecDeque<(TcpHeader, IpAddress)>,
    replies_v6: VecDeque<(TcpHeader, IpAddress)>,
    sends: Vec<(IpAddress, Vec<u8>)>,
    attempts: usize,
    messages: Vec<ArmadaWorkMessage>,
    message_times: Vec<u64>,
    clock: u64,
    slept: u64,
}

impl Network {
    fn new(listeners: Vec<Probe>) -> Self {
        Network {
            listeners,
            deaf_attempts: 0,
            busy_at: Vec::new(),
            fail_send_at: None,
            fail_report_at: None,
            replies_v4: VecDeque::new(),
            replies_v6: VecDeque::new(),
            sends: Vec::new(),
            attempts: 0,
            messages: Vec::new(),
            message_times: Vec::new(),
            clock: 1_000,
            slept: 0,
        }
    }

    fn perform(&mut self, worker: &ArmadaWorker, action: Action) -> Option<Event> {
        self.clock += 1;
        match action {
            Action::Report(message) => {
                if self.fail_report_at == Some(self.messages.len()) {
                    return Some(Event::ReportFailed);
                }
                self.messages.push(message);
                self.message_times.push(self.clock);
                Some(Event::Reported)
            }
            Action::Send { destination } => {
                let attempt = self.attempts;
                self.attempts += 1;
                if self.fail_send_at == Some(attempt) {
                    return Some(Event::SendFailed);
                }
                if self.busy_at.contains(&attempt) {
                    return Some(Event::WouldBlock);
                }
                let segment = worker.segment().to_vec();
                let header = parse_tcp_header(&segment).unwrap();
                let target = Probe { ip: destination, port: header.destination };
                let sent_before =
                    self.sends.iter().filter(|(ip, bytes)| {
                        *ip == destination && bytes[2..4] == segment[2..4]
                    }).count();
                if self.listeners.contains(&target) && sent_before >= self.deaf_attempts {
                    let reply = TcpHeader {
                        source: header.destination,
                        destination: header.source,
                        sequence: 0,
                        flags: TCP_SYN | TCP_ACK,
                    };
                    match destination {
                        IpAddress::V4(_) => self.replies_v4.push_back((reply, destination)),
                        IpAddress::V6(_) => self.replies_v6.push_back((reply, destination)),
                    }
                }
                self.sends.push((destination, segment));
                Some(Event::Sent)
            }
            Action::Receive { family } => {
                let queue = match family {
                    IpFamily::V4 => &mut self.replies_v4,
                    IpFamily::V6 => &mut self.replies_v6,
                };
                match queue.pop_front() {
                    Some((header, remote)) => Some(Event::Received { header, remote }),
                    None => Some(Event::NothingReceived),
                }
            }
            Action::Sleep { millis } => {
                self.clock += millis;
                self.slept += millis;
                Some(Event::Woke)
            }
            Action::Finished { .. } => None,
        }
    }

    fn run(&mut self, worker: &mut ArmadaWorker) -> Result<(), ScanError> {
        let mut event = Event::Start;
        for _ in 0..10_000_000u64 {
            let action = worker.process_work(event, self.clock);
            if let Action::Finished { outcome } = action {
                return outcome;
            }
            event = self.perform(worker, action).unwrap();
        }
        panic!("the scan did not end");
    }

    fn results(&self) -> Vec<Probe> {
        let mut all = Vec::new();
        for message in &self.messages {
            if let ArmadaWorkMessage::Results(found) = message {
                all.extend(found.iter().cloned());
            }
        }
        all
    }

    fn result_batches(&self) -> Vec<Vec<Probe>> {
        let mut all = Vec::new();
        for message in &self.messages {
            if let ArmadaWorkMessage::Results(found) = message {
                all.push(found.clone());
            }
        }
        all
    }

    fn stats(&self) -> Vec<(u128, u128, u128)> {
        let mut all = Vec::new();
        for message in &self.messages {
            if let ArmadaWorkMessage::Stats {
                total_processed_ports,
                current_inflight_packets,
                total_packets_sent,
            } = message
            {
                all.push((*total_processed_ports, *current_inflight_packets, *total_packets_sent));
            }
        }
        all
    }

    fn final_stats(&self) -> (u128, u128, u128) {
        let n = self.messages.len();
        assert!(n >= 2);
        assert!(matches!(self.messages[n - 1], ArmadaWorkMessage::Results(_)));
        match &self.messages[n - 2] {
            ArmadaWorkMessage::Stats {
                total_processed_ports,
                current_inflight_packets,
                total_packets_sent,
            } => (*total_processed_ports, *current_inflight_packets, *total_packets_sent),
            _ => panic!("the scan did not end with statistics and results"),
        }
    }

    fn sends_to(&self, probe: Probe) -> usize {
        self.sends
            .iter()
            .filter(|(ip, bytes)| *ip == probe.ip && bytes[2..4] == probe.port.to_be_bytes())
            .count()
    }
}

fn v4(a: u8, b: u8, c: u8, d: u8) -> u32 {
    u32::from_be_bytes([a, b, c, d])
}

fn localhost(port: u16) -> Probe {
    Probe { ip: IpAddress::V4(v4(127, 0, 0, 1)), port }
}

fn worker(
    hosts: HostIterator,
    ports: PortIterator,
    retries: u8,
    timeout: u64,
    rate: Option<usize>,
    source_v4: Vec<u32>,
    source_v6: Vec<u128>,
) -> ArmadaWorker {
    let work = ArmadaWork::new(hosts, ports, retries, timeout, rate, source_v4, source_v6);
    ArmadaWorker::new(work, LISTENING_PORT, 41)
}

#[test]
fn single_closed_port_without_retries() {
    let hosts = HostIterator::new().add_ip(IpAddress::V4(v4(127, 0, 0, 1)));
    let ports = PortIterator::new().add_range(1, 1);
    let mut engine = worker(hosts, ports, 0, 50, None, vec![v4(127, 0, 0, 1)], vec![]);
    let mut network = Network::new(vec![]);
    assert_eq!(network.run(&mut engine), Ok(()));
    assert_eq!(network.sends.len(), 1);
    assert_eq!(network.results(), vec![]);
    assert_eq!(network.final_stats(), (1, 0, 1));
    assert_eq!(network.messages.last(), Some(&ArmadaWorkMessage::Results(vec![])));
}

#[test]
fn single_open_port() {
    let hosts = HostIterator::new().add_ip(IpAddress::V4(v4(127, 0, 0, 1)));
    let ports = PortIterator::new().add_range(22, 22);
    let mut engine = worker(hosts, ports, 0, 1000, None, vec![v4(127, 0, 0, 1)], vec![]);
    let mut network = Network::new(vec![localhost(22)]);
    assert_eq!(network.run(&mut engine), Ok(()));
    let batches: Vec<Vec<Probe>> =
        network.result_batches().into_iter().filter(|batch| !batch.is_empty()).collect();
    assert_eq!(batches, vec![vec![localhost(22)]]);
    assert_eq!(network.final_stats().0, 1);
    assert_eq!(network.final_stats(), (1, 0, 1));
}

#[test]
fn results_follow_statistics_that_count_them() {
    let hosts = HostIterator::new().add_ip(IpAddress::V4(v4(127, 0, 0, 1)));
    let ports = PortIterator::new().add_range(22, 22);
    let mut engine = worker(hosts, ports, 0, 1000, None, vec![v4(127, 0, 0, 1)], vec![]);
    let mut network = Network::new(vec![localhost(22)]);
    assert_eq!(network.run(&mut engine), Ok(()));
    let at = network
        .messages
        .iter()
        .position(|m| *m == ArmadaWorkMessage::Results(vec![localhost(22)]))
        .unwrap();
    assert_eq!(
        network.messages[at - 1],
        ArmadaWorkMessage::Stats {
            total_processed_ports: 1,
            current_inflight_packets: 0,
            total_packets_sent: 1
        }
    );
}

#[test]
fn cidr_expansion_with_retries() {
    let hosts = HostIterator::new().add_cidr(CidrBlock::v4(v4(10, 0, 0, 0), 30).unwrap());
    let ports = PortIterator::new().add_port(80).add_port(443);
    let mut engine = worker(hosts, ports, 2, 20, None, vec![v4(10, 0, 0, 200)], vec![]);
    let mut network = Network::new(vec![]);
    assert_eq!(network.run(&mut engine), Ok(()));
    for host in 0..4u8 {
        for port in [80u16, 443] {
            let probe = Probe { ip: IpAddress::V4(v4(10, 0, 0, host)), port };
            assert_eq!(network.sends_to(probe), 3);
        }
    }
    assert_eq!(network.sends.len(), 24);
    assert_eq!(network.final_stats(), (8, 0, 24));
    assert_eq!(network.results(), vec![]);
}

#[test]
fn rate_limit_caps_each_bucket() {
    let hosts = HostIterator::new().add_ip(IpAddress::V4(v4(10, 0, 0, 1)));
    let ports = PortIterator::new().add_range(1, 1000);
    let mut engine = worker(hosts, ports, 0, 1000, Some(100), vec![v4(10, 0, 0, 2)], vec![]);
    let mut network = Network::new(vec![]);
    let started = network.clock;
    assert_eq!(network.run(&mut engine), Ok(()));
    assert!(network.clock - started >= 10_000);
    assert_eq!(network.sends.len(), 1000);
    let stats = network.stats();
    assert!(stats.len() >= 100);
    for pair in stats.windows(2) {
        assert!(pair[1].2 >= pair[0].2);
        assert!(pair[1].2 - pair[0].2 <= 10);
    }
    assert_eq!(network.final_stats(), (1000, 0, 1000));
}

#[test]
fn rate_limit_below_one_batch_per_bucket() {
    let hosts = HostIterator::new().add_ip(IpAddress::V4(v4(10, 0, 0, 1)));
    let ports = PortIterator::new().add_range(1, 100);
    let mut engine = worker(hosts, ports, 0, 10, Some(200), vec![v4(10, 0, 0, 2)], vec![]);
    let mut network = Network::new(vec![]);
    assert_eq!(network.run(&mut engine), Ok(()));
    assert_eq!(network.sends.len(), 100);
    assert!(network.slept > 0);
    for pair in network.stats().windows(2) {
        assert!(pair[1].2 - pair[0].2 <= 20);
    }
    assert_eq!(network.final_stats(), (100, 0, 100));
}

#[test]
fn mixed_families_use_both_sockets() {
    let remote_v6: u128 = 0x2001_0db8_0000_0000_0000_0000_0000_0099;
    let hosts =
        HostIterator::new().add_ip(IpAddress::V4(v4(10, 0, 0, 1))).add_ip(IpAddress::V6(remote_v6));
    let ports = PortIterator::new().add_range(1, 1);
    let mut engine = worker(hosts, ports, 0, 50, None, vec![v4(10, 0, 0, 2)], vec![1]);
    let mut network = Network::new(vec![]);
    assert_eq!(network.run(&mut engine), Ok(()));
    assert_eq!(network.sends.len(), 2);
    let families: Vec<IpFamily> = network.sends.iter().map(|(ip, _)| ip.family()).collect();
    assert!(families.contains(&IpFamily::V4));
    assert!(families.contains(&IpFamily::V6));
    assert_eq!(network.final_stats().2, 2);
    assert_eq!(network.final_stats(), (2, 0, 2));
}

#[test]
fn missing_source_family_drops_the_probe() {
    let hosts = HostIterator::new().add_ip(IpAddress::V6(0x2001_0db8 << 96 | 1));
    let ports = PortIterator::new().add_port(443);
    let mut engine = worker(hosts, ports, 2, 50, None, vec![v4(10, 0, 0, 2)], vec![]);
    let mut network = Network::new(vec![]);
    assert_eq!(network.run(&mut engine), Ok(()));
    assert_eq!(network.sends.len(), 0);
    assert_eq!(network.final_stats(), (0, 0, 0));
    assert_eq!(network.results(), vec![]);
    assert_eq!(engine.skipped_ports(), 1);
}

#[test]
fn probes_with_a_source_are_not_skipped() {
    let hosts = HostIterator::new()
        .add_ip(IpAddress::V6(7))
        .add_ip(IpAddress::V4(v4(10, 0, 0, 1)))
        .add_ip(IpAddress::V6(8));
    let ports = PortIterator::new().add_range(1, 3);
    let mut engine = worker(hosts, ports, 1, 20, None, vec![v4(10, 0, 0, 2)], vec![]);
    let mut network = Network::new(vec![]);
    assert_eq!(network.run(&mut engine), Ok(()));
    assert_eq!(engine.skipped_ports(), 6);
    assert_eq!(network.sends.len(), 6);
    assert_eq!(network.final_stats(), (3, 0, 6));
    assert_eq!(network.final_stats().0 + engine.skipped_ports(), 3 * 3);
}

#[test]
fn empty_scan_ends_with_statistics_and_empty_results() {
    let mut engine = worker(HostIterator::new(), PortIterator::new(), 2, 50, None, vec![], vec![]);
    let mut network = Network::new(vec![]);
    assert_eq!(network.run(&mut engine), Ok(()));
    assert_eq!(
        network.messages,
        vec![
            ArmadaWorkMessage::Stats {
                total_processed_ports: 0,
                current_inflight_packets: 0,
                total_packets_sent: 0
            },
            ArmadaWorkMessage::Results(vec![])
        ]
    );
}

#[test]
fn probes_leave_with_the_listening_port_and_rising_sequence_numbers() {
    let hosts = HostIterator::new().add_ip(IpAddress::V4(v4(10, 0, 0, 1)));
    let ports = PortIterator::new().add_range(7, 9);
    let mut engine = worker(hosts, ports, 0, 5, None, vec![v4(10, 0, 0, 2)], vec![]);
    let mut network = Network::new(vec![]);
    assert_eq!(network.run(&mut engine), Ok(()));
    assert_eq!(network.sends.len(), 3);
    let headers: Vec<TcpHeader> =
        network.sends.iter().map(|(_, bytes)| parse_tcp_header(bytes).unwrap()).collect();
    assert_eq!(headers[0].source, LISTENING_PORT);
    assert_eq!(headers[0].flags, TCP_SYN);
    assert_eq!(
        headers.iter().map(|h| h.destination).collect::<Vec<u16>>(),
        vec![9, 8, 7]
    );
    assert_eq!(headers.iter().map(|h| h.sequence).collect::<Vec<u32>>(), vec![42, 43, 44]);
    assert_eq!(engine.tcp_seq(), 44);
    for (_, bytes) in &network.sends {
        assert_eq!(bytes.len(), 32);
        assert_eq!(&bytes[12..16], &[0x80, 0x02, 0x04, 0x00]);
        assert_eq!(&bytes[20..24], &[2, 4, 0x05, 0xB4]);
    }
}

#[test]
fn a_reply_to_a_retry_opens_the_port() {
    let hosts = HostIterator::new().add_ip(IpAddress::V4(v4(127, 0, 0, 1)));
    let ports = PortIterator::new().add_port(22);
    let mut engine = worker(hosts, ports, 3, 20, None, vec![v4(127, 0, 0, 1)], vec![]);
    let mut network = Network::new(vec![localhost(22)]);
    network.deaf_attempts = 2;
    assert_eq!(network.run(&mut engine), Ok(()));
    assert_eq!(network.sends.len(), 3);
    assert_eq!(network.results(), vec![localhost(22)]);
    assert_eq!(network.final_stats(), (1, 0, 3));
}

#[test]
fn open_and_closed_ports_are_told_apart() {
    let hosts = HostIterator::new().add_cidr(CidrBlock::v4(v4(127, 0, 0, 0), 31).unwrap());
    let ports = PortIterator::new().add_range(20, 25);
    let open = vec![
        Probe { ip: IpAddress::V4(v4(127, 0, 0, 0)), port: 22 },
        localhost(25),
        localhost(20),
    ];
    let mut engine = worker(hosts, ports, 1, 30, None, vec![v4(127, 0, 0, 1)], vec![]);
    let mut network = Network::new(open.clone());
    assert_eq!(network.run(&mut engine), Ok(()));
    let mut found = network.results();
    found.sort_by_key(|probe| probe.key());
    let mut expected = open;
    expected.sort_by_key(|probe| probe.key());
    assert_eq!(found, expected);
    assert_eq!(network.sends.len(), 3 + 9 * 2);
    assert_eq!(network.final_stats(), (12, 0, 21));
}

#[test]
fn statistics_never_count_more_settled_than_sent() {
    let hosts = HostIterator::new().add_cidr(CidrBlock::v4(v4(10, 0, 0, 0), 28).unwrap());
    let ports = PortIterator::new().add_range(1, 50);
    let open =
        vec![Probe { ip: IpAddress::V4(v4(10, 0, 0, 3)), port: 7 }, Probe {
            ip: IpAddress::V4(v4(10, 0, 0, 9)),
            port: 50,
        }];
    let mut engine = worker(hosts, ports, 1, 40, Some(5000), vec![v4(10, 0, 0, 99)], vec![]);
    let mut network = Network::new(open);
    assert_eq!(network.run(&mut engine), Ok(()));
    let stats = network.stats();
    assert!(stats.len() > 2);
    for (processed, inflight, sent) in &stats {
        assert!(sent >= processed);
        assert!(*sent >= *processed + *inflight);
    }
    for pair in stats.windows(2) {
        assert!(pair[1].0 >= pair[0].0);
        assert!(pair[1].2 >= pair[0].2);
    }
    assert_eq!(network.final_stats(), (800, 0, 2 + 798 * 2));
}

#[test]
fn no_endpoint_is_reported_twice() {
    let hosts = HostIterator::new().add_cidr(CidrBlock::v4(v4(10, 0, 0, 0), 29).unwrap());
    let ports = PortIterator::new().add_range(1, 100);
    let mut open = Vec::new();
    for host in 0..8u8 {
        for port in [1u16, 50, 100] {
            open.push(Probe { ip: IpAddress::V4(v4(10, 0, 0, host)), port });
        }
    }
    let mut engine = worker(hosts, ports, 2, 25, None, vec![v4(10, 0, 0, 99)], vec![]);
    let mut network = Network::new(open.clone());
    assert_eq!(network.run(&mut engine), Ok(()));
    let mut found = network.results();
    assert_eq!(found.len(), open.len());
    found.sort_by_key(|probe| probe.key());
    found.dedup();
    assert_eq!(found.len(), open.len());
    for probe in &found {
        assert!(open.contains(probe));
    }
}

#[test]
fn unsolicited_segments_are_discarded() {
    let hosts = HostIterator::new().add_ip(IpAddress::V4(v4(127, 0, 0, 1)));
    let ports = PortIterator::new().add_port(22);
    let mut engine = worker(hosts, ports, 0, 30, None, vec![v4(127, 0, 0, 1)], vec![]);
    let mut network = Network::new(vec![]);
    let syn_ack = TCP_SYN | TCP_ACK;
    let stranger = IpAddress::V4(v4(127, 0, 0, 2));
    let host = IpAddress::V4(v4(127, 0, 0, 1));
    let header = |source: u16, destination: u16, flags: u16| TcpHeader {
        source,
        destination,
        sequence: 0,
        flags,
    };
    network.replies_v4.push_back((header(22, LISTENING_PORT, syn_ack), stranger));
    network.replies_v4.push_back((header(23, LISTENING_PORT, syn_ack), host));
    network.replies_v4.push_back((header(22, LISTENING_PORT + 1, syn_ack), host));
    network.replies_v4.push_back((header(22, LISTENING_PORT, TCP_RST | TCP_ACK), host));
    network.replies_v4.push_back((header(22, LISTENING_PORT, TCP_SYN), host));
    assert_eq!(network.run(&mut engine), Ok(()));
    assert_eq!(network.results(), vec![]);
    assert_eq!(network.final_stats(), (1, 0, 1));
}

#[test]
fn a_reply_on_either_socket_settles_the_probe() {
    let hosts = HostIterator::new().add_ip(IpAddress::V4(v4(127, 0, 0, 1)));
    let ports = PortIterator::new().add_port(22);
    let mut engine = worker(hosts, ports, 0, 30, None, vec![v4(127, 0, 0, 1)], vec![]);
    let mut network = Network::new(vec![]);
    network.replies_v6.push_back((
        TcpHeader { source: 22, destination: LISTENING_PORT, sequence: 0, flags: TCP_ACK },
        IpAddress::V4(v4(127, 0, 0, 1)),
    ));
    assert_eq!(network.run(&mut engine), Ok(()));
    assert_eq!(network.results(), vec![localhost(22)]);
    assert_eq!(network.final_stats(), (1, 0, 1));
}

#[test]
fn a_busy_socket_puts_the_probe_back() {
    let hosts = HostIterator::new().add_ip(IpAddress::V4(v4(10, 0, 0, 1)));
    let ports = PortIterator::new().add_range(1, 3);
    let mut engine = worker(hosts, ports, 0, 30, None, vec![v4(10, 0, 0, 2)], vec![]);
    let mut network = Network::new(vec![]);
    network.busy_at = vec![1, 2];
    assert_eq!(network.run(&mut engine), Ok(()));
    assert_eq!(network.attempts, 5);
    assert_eq!(network.sends.len(), 3);
    let ports: Vec<u16> =
        network.sends.iter().map(|(_, bytes)| parse_tcp_header(bytes).unwrap().destination).collect();
    assert_eq!(ports, vec![3, 2, 1]);
    assert_eq!(network.final_stats(), (3, 0, 3));
}

#[test]
fn a_failing_socket_ends_the_scan_after_the_last_reports() {
    let hosts = HostIterator::new().add_ip(IpAddress::V4(v4(10, 0, 0, 1)));
    let ports = PortIterator::new().add_range(1, 3);
    let mut engine = worker(hosts, ports, 0, 30, None, vec![v4(10, 0, 0, 2)], vec![]);
    let mut network = Network::new(vec![]);
    network.fail_send_at = Some(1);
    assert_eq!(network.run(&mut engine), Err(ScanError::Socket));
    assert_eq!(network.sends.len(), 1);
    assert_eq!(network.final_stats(), (0, 1, 1));
    assert_eq!(network.messages.last(), Some(&ArmadaWorkMessage::Results(vec![])));
}

#[test]
fn a_failing_receive_ends_the_scan_after_the_last_reports() {
    let hosts = HostIterator::new().add_ip(IpAddress::V4(v4(10, 0, 0, 1)));
    let ports = PortIterator::new().add_port(1);
    let mut engine = worker(hosts, ports, 0, 30, None, vec![v4(10, 0, 0, 2)], vec![]);
    assert_eq!(
        engine.process_work(Event::Start, 0),
        Action::Send { destination: IpAddress::V4(v4(10, 0, 0, 1)) }
    );
    assert_eq!(engine.process_work(Event::Sent, 0), Action::Receive { family: IpFamily::V4 });
    assert_eq!(
        engine.process_work(Event::ReceiveFailed, 0),
        Action::Report(ArmadaWorkMessage::stats(0, 1, 1))
    );
    assert_eq!(
        engine.process_work(Event::Reported, 0),
        Action::Report(ArmadaWorkMessage::results(vec![]))
    );
    assert_eq!(
        engine.process_work(Event::Reported, 0),
        Action::Finished { outcome: Err(ScanError::Socket) }
    );
    assert_eq!(
        engine.process_work(Event::Start, 0),
        Action::Finished { outcome: Err(ScanError::Socket) }
    );
}

#[test]
fn a_consumer_that_has_gone_ends_the_scan_at_once() {
    let hosts = HostIterator::new().add_ip(IpAddress::V4(v4(10, 0, 0, 1)));
    let ports = PortIterator::new().add_port(1);
    let mut engine = worker(hosts, ports, 0, 30, None, vec![v4(10, 0, 0, 2)], vec![]);
    let mut network = Network::new(vec![]);
    network.fail_report_at = Some(0);
    assert_eq!(network.run(&mut engine), Err(ScanError::Reporting));
    assert_eq!(network.messages, vec![]);
}

#[test]
fn an_event_that_was_not_asked_for_ends_the_scan() {
    let hosts = HostIterator::new().add_ip(IpAddress::V4(v4(10, 0, 0, 1)));
    let ports = PortIterator::new().add_port(1);
    let mut engine = worker(hosts, ports, 0, 30, None, vec![v4(10, 0, 0, 2)], vec![]);
    assert_eq!(
        engine.process_work(Event::Sent, 0),
        Action::Finished { outcome: Err(ScanError::UnexpectedEvent) }
    );
    let hosts = HostIterator::new().add_ip(IpAddress::V4(v4(10, 0, 0, 1)));
    let ports = PortIterator::new().add_port(1);
    let mut engine = worker(hosts, ports, 0, 30, None, vec![v4(10, 0, 0, 2)], vec![]);
    assert_eq!(
        engine.process_work(Event::Start, 0),
        Action::Send { destination: IpAddress::V4(v4(10, 0, 0, 1)) }
    );
    assert_eq!(
        engine.process_work(Event::Woke, 0),
        Action::Finished { outcome: Err(ScanError::UnexpectedEvent) }
    );
}

#[test]
fn one_iteration_goes_step_by_step() {
    let hosts = HostIterator::new().add_ip(IpAddress::V4(v4(10, 0, 0, 1)));
    let ports = PortIterator::new().add_range(80, 81);
    let mut engine = worker(hosts, ports, 0, 50, Some(10_000), vec![v4(10, 0, 0, 2)], vec![]);
    let host = IpAddress::V4(v4(10, 0, 0, 1));
    assert_eq!(engine.process_work(Event::Start, 1000), Action::Send { destination: host });
    assert_eq!(engine.process_work(Event::Sent, 1000), Action::Send { destination: host });
    assert_eq!(engine.process_work(Event::Sent, 1001), Action::Receive { family: IpFamily::V4 });
    let reply = TcpHeader { source: 81, destination: LISTENING_PORT, sequence: 5, flags: 0x12 };
    assert_eq!(
        engine.process_work(Event::Received { header: reply, remote: host }, 1001),
        Action::Receive { family: IpFamily::V4 }
    );
    assert_eq!(
        engine.process_work(Event::NothingReceived, 1001),
        Action::Receive { family: IpFamily::V6 }
    );
    assert_eq!(
        engine.process_work(Event::NothingReceived, 1002),
        Action::Report(ArmadaWorkMessage::stats(1, 1, 2))
    );
    assert_eq!(
        engine.process_work(Event::Reported, 1002),
        Action::Report(ArmadaWorkMessage::results(vec![Probe { ip: host, port: 81 }]))
    );
    assert_eq!(engine.process_work(Event::Reported, 1002), Action::Receive { family: IpFamily::V4 });
    assert_eq!(
        engine.process_work(Event::NothingReceived, 1050),
        Action::Receive { family: IpFamily::V6 }
    );
    assert_eq!(
        engine.process_work(Event::NothingReceived, 1051),
        Action::Report(ArmadaWorkMessage::stats(2, 0, 2))
    );
    assert_eq!(
        engine.process_work(Event::Reported, 1051),
        Action::Report(ArmadaWorkMessage::results(vec![]))
    );
    assert_eq!(engine.process_work(Event::Reported, 1051), Action::Finished { outcome: Ok(()) });
}

#[test]
fn the_bucket_rollover_is_reported_and_a_full_bucket_sleeps() {
    let hosts = HostIterator::new().add_ip(IpAddress::V4(v4(10, 0, 0, 1)));
    let ports = PortIterator::new().add_range(1, 3);
    let mut engine = worker(hosts, ports, 0, 500, Some(20), vec![v4(10, 0, 0, 2)], vec![]);
    let host = IpAddress::V4(v4(10, 0, 0, 1));
    assert_eq!(engine.process_work(Event::Start, 0), Action::Send { destination: host });
    assert_eq!(engine.process_work(Event::Sent, 1), Action::Send { destination: host });
    assert_eq!(engine.process_work(Event::Sent, 2), Action::Receive { family: IpFamily::V4 });
    assert_eq!(engine.process_work(Event::NothingReceived, 3), Action::Receive { family: IpFamily::V6 });
    assert_eq!(engine.process_work(Event::NothingReceived, 40), Action::Sleep { millis: 60 });
    assert_eq!(engine.process_work(Event::Woke, 100), Action::Receive { family: IpFamily::V4 });
    assert_eq!(engine.process_work(Event::NothingReceived, 100), Action::Receive { family: IpFamily::V6 });
    assert_eq!(
        engine.process_work(Event::NothingReceived, 100),
        Action::Report(ArmadaWorkMessage::stats(0, 2, 2))
    );
    assert_eq!(engine.process_work(Event::Reported, 100), Action::Send { destination: host });
}

#[test]
fn a_clock_that_runs_backwards_is_not_followed() {
    let hosts = HostIterator::new().add_ip(IpAddress::V4(v4(10, 0, 0, 1)));
    let ports = PortIterator::new().add_port(1);
    let mut engine = worker(hosts, ports, 0, 50, None, vec![v4(10, 0, 0, 2)], vec![]);
    let host = IpAddress::V4(v4(10, 0, 0, 1));
    assert_eq!(engine.process_work(Event::Start, 1000), Action::Send { destination: host });
    assert_eq!(engine.process_work(Event::Sent, 1000), Action::Receive { family: IpFamily::V4 });
    assert_eq!(engine.process_work(Event::NothingReceived, 0), Action::Receive { family: IpFamily::V6 });
    assert_eq!(engine.process_work(Event::NothingReceived, 0), Action::Receive { family: IpFamily::V4 });
    assert_eq!(
        engine.process_work(Event::NothingReceived, 1049),
        Action::Receive { family: IpFamily::V6 }
    );
    assert_eq!(
        engine.process_work(Event::NothingReceived, 1049),
        Action::Receive { family: IpFamily::V4 }
    );
    assert_eq!(
        engine.process_work(Event::NothingReceived, 1050),
        Action::Receive { family: IpFamily::V6 }
    );
    assert_eq!(
        engine.process_work(Event::NothingReceived, 1050),
        Action::Report(ArmadaWorkMessage::stats(1, 0, 1))
    );
}

#[test]
fn source_addresses_rotate_with_the_iterations() {
    let hosts = HostIterator::new().add_ip(IpAddress::V4(v4(10, 0, 0, 1)));
    let ports = PortIterator::new().add_port(1);
    let mut engine = worker(hosts, ports, 2, 10, None, vec![1, 2], vec![]);
    let mut network = Network::new(vec![]);
    assert_eq!(network.run(&mut engine), Ok(()));
    assert_eq!(network.sends.len(), 3);
    let mut checksums = Vec::new();
    for (_, bytes) in &network.sends {
        checksums.push([bytes[16], bytes[17]]);
    }
    checksums.dedup();
    assert!(checksums.len() >= 2);
}

#[test]
fn a_receive_phase_takes_at_most_thirty_two_segments_from_a_socket() {
    let hosts = HostIterator::new().add_ip(IpAddress::V4(v4(10, 0, 0, 1)));
    let ports = PortIterator::new().add_port(1);
    let mut engine = worker(hosts, ports, 0, 5000, None, vec![v4(10, 0, 0, 2)], vec![]);
    let host = IpAddress::V4(v4(10, 0, 0, 1));
    assert_eq!(engine.process_work(Event::Start, 0), Action::Send { destination: host });
    assert_eq!(engine.process_work(Event::Sent, 0), Action::Receive { family: IpFamily::V4 });
    let noise = TcpHeader { source: 9, destination: 9, sequence: 0, flags: 0 };
    for _ in 0..31 {
        assert_eq!(
            engine.process_work(Event::Received { header: noise, remote: host }, 0),
            Action::Receive { family: IpFamily::V4 }
        );
    }
    assert_eq!(
        engine.process_work(Event::Received { header: noise, remote: host }, 0),
        Action::Receive { family: IpFamily::V6 }
    );
}

#[test]
fn a_send_phase_takes_at_most_thirty_two_probes() {
    let hosts = HostIterator::new().add_ip(IpAddress::V4(v4(10, 0, 0, 1)));
    let ports = PortIterator::new().add_range(1, 40);
    let mut engine = worker(hosts, ports, 0, 5000, None, vec![v4(10, 0, 0, 2)], vec![]);
    let host = IpAddress::V4(v4(10, 0, 0, 1));
    assert_eq!(engine.process_work(Event::Start, 0), Action::Send { destination: host });
    for _ in 0..31 {
        assert_eq!(engine.process_work(Event::Sent, 0), Action::Send { destination: host });
    }
    assert_eq!(engine.process_work(Event::Sent, 0), Action::Receive { family: IpFamily::V4 });
}

#[test]
fn a_seeded_engine_counts_on_from_its_seed() {
    let hosts = HostIterator::new().add_ip(IpAddress::V4(v4(10, 0, 0, 1)));
    let ports = PortIterator::new().add_range(1, 2);
    let work = ArmadaWork::new(hosts, ports, 0, 5, None, vec![v4(10, 0, 0, 2)], vec![]);
    let mut engine = ArmadaWorker::seeded(work, LISTENING_PORT);
    let seed = engine.tcp_seq();
    let mut network = Network::new(vec![]);
    assert_eq!(network.run(&mut engine), Ok(()));
    let sequences: Vec<u32> = network
        .sends
        .iter()
        .map(|(_, bytes)| parse_tcp_header(bytes).unwrap().sequence)
        .collect();
    assert_eq!(sequences, vec![seed.wrapping_add(1), seed.wrapping_add(2)]);
    assert_eq!(engine.tcp_seq(), seed.wrapping_add(2));
}

#[test]
fn ipv6_probes_carry_an_ipv6_checksum() {
    let remote: u128 = 0x2001_0db8_0000_0000_0000_0000_0000_0002;
    let source: u128 = 0x2001_0db8_0000_0000_0000_0000_0000_0001;
    let hosts = HostIterator::new().add_ip(IpAddress::V6(remote));
    let ports = PortIterator::new().add_port(443);
    let work = ArmadaWork::new(hosts, ports, 0, 5, None, vec![], vec![source]);
    let mut engine = ArmadaWorker::new(work, 54321, 6);
    let mut network = Network::new(vec![]);
    assert_eq!(network.run(&mut engine), Ok(()));
    assert_eq!(network.sends.len(), 1);
    assert_eq!(network.sends[0].0, IpAddress::V6(remote));
    assert_eq!(
        network.sends[0].1,
        vec![
            212, 49, 1, 187, 0, 0, 0, 7, 0, 0, 0, 0, 128, 2, 4, 0, 66, 182, 0, 0, 2, 4, 5, 180, 0,
            0, 0, 0, 0, 0, 0, 0
        ]
    );
}

#[test]
fn many_probes_are_all_settled() {
    let hosts = HostIterator::new().add_cidr(CidrBlock::v4(v4(10, 1, 0, 0), 24).unwrap());
    let ports = PortIterator::new().add_range(1, 20);
    let mut engine = worker(hosts, ports, 1, 15, None, vec![v4(10, 0, 0, 99)], vec![]);
    let mut network = Network::new(vec![]);
    assert_eq!(network.run(&mut engine), Ok(()));
    assert_eq!(network.sends.len(), 256 * 20 * 2);
    assert_eq!(network.final_stats(), (5120, 0, 10240));
}

#[test]
fn an_unanswered_scan_lasts_its_buckets_and_its_timeout() {
    let hosts = HostIterator::new().add_ip(IpAddress::V4(v4(10, 0, 0, 1)));
    let ports = PortIterator::new().add_range(1, 50);
    let mut engine = worker(hosts, ports, 0, 500, Some(100), vec![v4(10, 0, 0, 2)], vec![]);
    let mut network = Network::new(vec![]);
    let started = network.clock;
    assert_eq!(network.run(&mut engine), Ok(()));
    assert_eq!(network.sends.len(), 50);
    assert_eq!(network.final_stats(), (50, 0, 50));
    assert!(network.clock - started >= 4 * 100 + 500);
}

#[test]
fn no_probe_is_sent_more_often_than_the_retries_allow() {
    let hosts = HostIterator::new().add_cidr(CidrBlock::v4(v4(10, 0, 0, 0), 29).unwrap());
    let ports = PortIterator::new().add_range(1, 40);
    let mut open = Vec::new();
    for host in 0..8u8 {
        open.push(Probe { ip: IpAddress::V4(v4(10, 0, 0, host)), port: 7 });
    }
    let mut engine = worker(hosts, ports, 2, 25, None, vec![v4(10, 0, 0, 99)], vec![]);
    let mut network = Network::new(open.clone());
    network.deaf_attempts = 1;
    assert_eq!(network.run(&mut engine), Ok(()));
    for host in 0..8u8 {
        for port in 1..=40u16 {
            let probe = Probe { ip: IpAddress::V4(v4(10, 0, 0, host)), port };
            let sends = network.sends_to(probe);
            assert!(sends >= 1 && sends <= 3);
            if open.contains(&probe) {
                assert_eq!(sends, 2);
            } else {
                assert_eq!(sends, 3);
            }
        }
    }
}

#[test]
fn a_socket_that_fails_on_receive_is_not_taken_for_an_empty_one() {
    let hosts = HostIterator::new().add_ip(IpAddress::V4(v4(10, 0, 0, 1)));
    let ports = PortIterator::new().add_port(1);
    let mut engine = worker(hosts, ports, 3, 30, None, vec![v4(10, 0, 0, 2)], vec![]);
    let host = IpAddress::V4(v4(10, 0, 0, 1));
    assert_eq!(engine.process_work(Event::Start, 0), Action::Send { destination: host });
    assert_eq!(
        engine.process_work(try_send_to(-1, true), 0),
        Action::Receive { family: IpFamily::V4 }
    );
    assert_eq!(
        engine.process_work(try_next(IpFamily::V4, &[0u8; 64], -1, true, host), 0),
        Action::Receive { family: IpFamily::V6 }
    );
    assert_eq!(
        engine.process_work(try_next(IpFamily::V6, &[0u8; 64], -1, false, host), 0),
        Action::Report(ArmadaWorkMessage::stats(0, 0, 0))
    );
    assert_eq!(
        engine.process_work(Event::Reported, 0),
        Action::Report(ArmadaWorkMessage::results(vec![]))
    );
    assert_eq!(
        engine.process_work(Event::Reported, 0),
        Action::Finished { outcome: Err(ScanError::Socket) }
    );
}

#[test]
fn a_socket_that_fails_on_send_ends_the_scan() {
    let hosts = HostIterator::new().add_ip(IpAddress::V4(v4(10, 0, 0, 1)));
    let ports = PortIterator::new().add_port(1);
    let mut engine = worker(hosts, ports, 3, 30, None, vec![v4(10, 0, 0, 2)], vec![]);
    let host = IpAddress::V4(v4(10, 0, 0, 1));
    assert_eq!(engine.process_work(Event::Start, 0), Action::Send { destination: host });
    assert_eq!(
        engine.process_work(try_send_to(-1, false), 0),
        Action::Report(ArmadaWorkMessage::stats(0, 0, 0))
    );
    assert_eq!(
        engine.process_work(Event::Reported, 0),
        Action::Report(ArmadaWorkMessage::results(vec![]))
    );
    assert_eq!(
        engine.process_work(Event::Reported, 0),
        Action::Finished { outcome: Err(ScanError::Socket) }
    );
}
