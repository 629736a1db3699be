//! What a scan is given and what it reports: the stream of probes to send,
//! the scan's parameters, and the messages that come back.
use vstd::prelude::*;
use crate::config::host::HostIterator;
use crate::config::port::PortIterator;
use crate::net::{IpAddress, Probe};

verus! {

/// The probes of one host: that host with each of the ports, in order.
pub open spec fn pair_up(host: IpAddress, ports: Seq<u16>) -> Seq<Probe> {
    ports.map_values(|port: u16| Probe { ip: host, port })
}

/// The cartesian product of hosts and ports, hosts outermost: every port of
/// the first host, then every port of the second, and so on.
pub open spec fn product(hosts: Seq<IpAddress>, ports: Seq<u16>) -> Seq<Probe>
    decreases hosts.len(),
{
    if hosts.len() == 0 {
        Seq::empty()
    } else {
        pair_up(hosts[0], ports) + product(hosts.skip(1), ports)
    }
}

/// The product has one probe for each pair of a host and a port.
pub proof fn lemma_product_len(hosts: Seq<IpAddress>, ports: Seq<u16>)
    ensures
        product(hosts, ports).len() == hosts.len() * ports.len(),
    decreases hosts.len(),
{
    if hosts.len() > 0 {
        lemma_product_len(hosts.skip(1), ports);
        assert(ports.len() + (hosts.len() - 1) * ports.len() == hosts.len() * ports.len())
            by (nonlinear_arith);
    } else {
        assert(0 * ports.len() == 0) by (nonlinear_arith);
    }
}

/// A probe is in the product exactly when its host is among the hosts and its
/// port among the ports.
pub proof fn lemma_product_contains(hosts: Seq<IpAddress>, ports: Seq<u16>, probe: Probe)
    ensures
        product(hosts, ports).contains(probe) <==> hosts.contains(probe.ip) && ports.contains(
            probe.port,
        ),
    decreases hosts.len(),
{
    if hosts.len() > 0 {
        let head = pair_up(hosts[0], ports);
        let tail = product(hosts.skip(1), ports);
        lemma_product_contains(hosts.skip(1), ports, probe);
        if product(hosts, ports).contains(probe) {
            let i = choose|i: int| 0 <= i < (head + tail).len() && (head + tail)[i] == probe;
            if i < head.len() {
                assert(ports[i] == probe.port);
                assert(hosts[0] == probe.ip);
            } else {
                assert(tail[i - head.len()] == probe);
                assert(tail.contains(probe));
                let j = choose|j: int| 0 <= j < hosts.skip(1).len() && hosts.skip(1)[j] == probe.ip;
                assert(hosts[j + 1] == probe.ip);
            }
        }
        if hosts.contains(probe.ip) && ports.contains(probe.port) {
            let j = choose|j: int| 0 <= j < hosts.len() && hosts[j] == probe.ip;
            if j == 0 {
                let k = choose|k: int| 0 <= k < ports.len() && ports[k] == probe.port;
                assert(head[k] == probe);
                assert((head + tail)[k] == probe);
            } else {
                assert(hosts.skip(1)[j - 1] == probe.ip);
                assert(hosts.skip(1).contains(probe.ip));
                let k = choose|k: int| 0 <= k < tail.len() && tail[k] == probe;
                assert((head + tail)[head.len() + k] == probe);
            }
        }
    }
}

/// The product of hosts that are all different with ports that are all
/// different holds no probe twice.
pub proof fn lemma_product_no_duplicates(hosts: Seq<IpAddress>, ports: Seq<u16>)
    requires
        hosts.no_duplicates(),
        ports.no_duplicates(),
    ensures
        product(hosts, ports).no_duplicates(),
    decreases hosts.len(),
{
    if hosts.len() > 0 {
        let head = pair_up(hosts[0], ports);
        let tail = product(hosts.skip(1), ports);
        lemma_product_no_duplicates(hosts.skip(1), ports);
        assert forall|i: int, j: int| 0 <= i < (head + tail).len() && 0 <= j < (head + tail).len()
            && i != j implies (head + tail)[i] != (head + tail)[j] by {
            if i < head.len() && j < head.len() {
                assert(ports[i] != ports[j]);
            } else if i >= head.len() && j >= head.len() {
                assert(tail[i - head.len()] != tail[j - head.len()]);
            } else {
                let (low, high) = if i < j {
                    (i, j)
                } else {
                    (j, i)
                };
                let other = tail[high - head.len()];
                assert(tail.contains(other));
                lemma_product_contains(hosts.skip(1), ports, other);
                if other.ip == hosts[0] {
                    let k = choose|k: int| 0 <= k < hosts.skip(1).len() && hosts.skip(1)[k] == other.ip;
                    assert(hosts[k + 1] == hosts[0]);
                }
                assert(head[low].ip == hosts[0]);
            }
        }
    }
}

/// The product of hosts that are all different with ports that are all
/// different is a set of as many probes as there are hosts times ports.
pub proof fn lemma_product_set_len(hosts: Seq<IpAddress>, ports: Seq<u16>)
    requires
        hosts.no_duplicates(),
        ports.no_duplicates(),
    ensures
        product(hosts, ports).to_set().finite(),
        product(hosts, ports).to_set().len() == hosts.len() * ports.len(),
{
    lemma_product_no_duplicates(hosts, ports);
    lemma_product_len(hosts, ports);
    product(hosts, ports).unique_seq_to_set();
    vstd::seq_lib::seq_to_set_is_finite(product(hosts, ports));
}

/// The probes of a scan, handed out one at a time: the cartesian product of a
/// host sequence and a port sequence, hosts outermost.
#[derive(Debug)]
pub struct ProbeProduct {
    hosts: HostIterator,
    ports: PortIterator,
    /// The host whose ports are being handed out.
    current: Option<IpAddress>,
    /// The port sequence holds no port at all.
    no_ports: bool,
}

impl ProbeProduct {
    /// Both sequences are well formed.
    pub closed spec fn wf(&self) -> bool {
        &&& self.hosts.wf()
        &&& self.ports.wf()
        &&& self.no_ports == (self.ports.all_ports().len() == 0)
    }

    /// The probes that `next` has yet to hand out, in order.
    pub closed spec fn remaining(&self) -> Seq<Probe> {
        (match self.current {
            Some(host) => pair_up(host, self.ports.remaining()),
            None => Seq::empty(),
        }) + product(self.hosts.remaining(), self.ports.all_ports())
    }

    /// The product of what `hosts` has yet to hand out with every port of
    /// `ports`.
    pub fn new(hosts: HostIterator, ports: PortIterator) -> (stream: Self)
        requires
            hosts.wf(),
            ports.wf(),
        ensures
            stream.wf(),
            stream.remaining() == product(hosts.remaining(), ports.all_ports()),
    {
        let no_ports = ports.size() == 0;
        let stream = ProbeProduct { hosts, ports, current: None, no_ports };
        proof {
            assert(stream.remaining() =~= product(hosts.remaining(), ports.all_ports()));
        }
        stream
    }

    /// Hands out the next probe, or `None` once every probe has been handed
    /// out.
    pub fn next(&mut self) -> (probe: Option<Probe>)
        requires
            old(self).wf(),
        ensures
            final(self).wf(),
            old(self).remaining().len() > 0 ==> {
                &&& probe == Some(old(self).remaining()[0])
                &&& final(self).remaining() == old(self).remaining().skip(1)
            },
            old(self).remaining().len() == 0 ==> {
                &&& probe is None
                &&& final(self).remaining() == old(self).remaining()
            },
    {
        if self.no_ports {
            proof {
                self.ports.lemma_position_bound();
                lemma_product_len(self.hosts.remaining(), self.ports.all_ports());
                assert(self.hosts.remaining().len() * 0 == 0) by (nonlinear_arith);
            }
            return None;
        }
        loop
            invariant
                self.wf(),
                !self.no_ports,
                self.remaining() == old(self).remaining(),
            decreases
                    2 * self.hosts.remaining().len() + if self.current is Some {
                        1nat
                    } else {
                        0nat
                    },
        {
            proof {
                self.ports.lemma_position_bound();
                self.hosts.lemma_position_bound();
            }
            match self.current {
                Some(host) => {
                    let ghost before = *self;
                    match self.ports.next() {
                        Some(port) => {
                            proof {
                                let rest = product(
                                    self.hosts.remaining(),
                                    self.ports.all_ports(),
                                );
                                assert(self.ports.remaining() =~= before.ports.remaining().skip(1));
                                assert(pair_up(host, self.ports.remaining()) + rest =~= (pair_up(
                                    host,
                                    before.ports.remaining(),
                                ) + rest).skip(1));
                            }
                            return Some(Probe::new(host, port));
                        },
                        None => {
                            self.current = None;
                            proof {
                                assert(self.remaining() =~= before.remaining());
                            }
                        },
                    }
                },
                None => {
                    let ghost before = *self;
                    match self.hosts.next() {
                        Some(host) => {
                            self.current = Some(host);
                            self.ports.reset();
                            proof {
                                assert(self.hosts.remaining() =~= before.hosts.remaining().skip(1));
                                assert(self.ports.remaining() =~= self.ports.all_ports());
                                assert(self.remaining() =~= before.remaining());
                            }
                        },
                        None => {
                            proof {
                                assert(self.remaining() =~= Seq::<Probe>::empty());
                            }
                            return None;
                        },
                    }
                },
            }
        }
    }
}

/// One scan: the probes to send and how to send them.
#[derive(Debug)]
pub struct ArmadaWork {
    /// The probes of the scan, not yet handed out.
    pub remote_addrs: ProbeProduct,
    /// How often a probe is sent again after a timeout.
    pub port_retries: u8,
    /// How long a probe waits for a reply, in milliseconds.
    pub port_timeout: u64,
    /// The most segments to send in a second, if there is a limit.
    pub packets_per_second: Option<usize>,
    /// The addresses to send IPv4 probes from.
    pub source_ipv4_addrs: Vec<u32>,
    /// The addresses to send IPv6 probes from.
    pub source_ipv6_addrs: Vec<u128>,
}

impl ArmadaWork {
    /// The scan of every port of `ports` on every host that `remote_hosts`
    /// has yet to hand out.
    pub fn new(
        remote_hosts: HostIterator,
        ports: PortIterator,
        port_retries: u8,
        port_timeout: u64,
        packets_per_second: Option<usize>,
        source_ipv4_addrs: Vec<u32>,
        source_ipv6_addrs: Vec<u128>,
    ) -> (work: Self)
        requires
            remote_hosts.wf(),
            ports.wf(),
        ensures
            work.remote_addrs.wf(),
            work.remote_addrs.remaining() == product(remote_hosts.remaining(), ports.all_ports()),
            work.port_retries == port_retries,
            work.port_timeout == port_timeout,
            work.packets_per_second == packets_per_second,
            work.source_ipv4_addrs == source_ipv4_addrs,
            work.source_ipv6_addrs == source_ipv6_addrs,
    {
        let remote_addrs = ProbeProduct::new(remote_hosts, ports);
        ArmadaWork {
            remote_addrs,
            port_retries,
            port_timeout,
            packets_per_second,
            source_ipv4_addrs,
            source_ipv6_addrs,
        }
    }
}

/// The counters of a scan, all counted from its start.
#[derive(Clone, Copy, Debug, PartialEq, Eq, Structural)]
pub struct ScanStats {
    /// Probes whose outcome is known: open, or closed after the last retry.
    pub total_processed_ports: u128,
    /// Probes that were sent and are still waiting for a reply or a timeout.
    pub current_inflight_packets: u128,
    /// Segments that a socket took, retransmissions included.
    pub total_packets_sent: u128,
}

/// What the engine reports while a scan runs.
#[derive(Debug, PartialEq, Eq)]
pub enum ArmadaWorkMessage {
    /// Endpoints newly found open.
    Results(Vec<Probe>),
    /// The counters at the time of the report.
    Stats { total_processed_ports: u128, current_inflight_packets: u128, total_packets_sent: u128 },
}

/// A report as a mathematical value.
pub enum WorkMessageView {
    Results(Seq<Probe>),
    Stats(ScanStats),
}

impl View for ArmadaWorkMessage {
    type V = WorkMessageView;

    open spec fn view(&self) -> WorkMessageView {
        match *self {
            ArmadaWorkMessage::Results(results) => WorkMessageView::Results(results@),
            ArmadaWorkMessage::Stats {
                total_processed_ports,
                current_inflight_packets,
                total_packets_sent,
            } => WorkMessageView::Stats(
                ScanStats { total_processed_ports, current_inflight_packets, total_packets_sent },
            ),
        }
    }
}

impl ArmadaWorkMessage {
    /// A report of newly found open endpoints.
    pub fn results(results: Vec<Probe>) -> (message: ArmadaWorkMessage)
        ensures
            message@ == WorkMessageView::Results(results@),
    {
        ArmadaWorkMessage::Results(results)
    }

    /// A report of the counters.
    pub fn stats(
        total_processed_ports: u128,
        current_inflight_packets: u128,
        total_packets_sent: u128,
    ) -> (message: ArmadaWorkMessage)
        ensures
            message@ == WorkMessageView::Stats(
                ScanStats { total_processed_ports, current_inflight_packets, total_packets_sent },
            ),
    {
        ArmadaWorkMessage::Stats {
            total_processed_ports,
            current_inflight_packets,
            total_packets_sent,
        }
    }
}

} // verus!
