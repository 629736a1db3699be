//! The engine itself: the state of a scan in executable form, and the step
//! that drives it.
use vstd::prelude::*;
use std::collections::VecDeque;
use crate::engine::accounting::{lemma_initial_accounted, lemma_process_work_accounted};
use crate::engine::laws::{lemma_initial_state, lemma_process_work};
use crate::engine::model::{
    due_batches, due_probes, initial_state, saturating_inc, ActionView, EngineState, Event,
    ExpiryView, Phase, ScanError, BATCH_RECV_SIZE, BATCH_SEND_SIZE, BUCKETS_PER_SECOND,
    RATE_LIMIT_RESOLUTION, REQUEUE_FILL,
};
use crate::engine::tracker::{ProbeSet, RetryTracker};
use crate::net::{IpAddress, IpFamily, Probe};
use crate::packet::{create_syn_tcp_packet_v4, create_syn_tcp_packet_v6, next_sequence};
use crate::tcp_ext::TcpHeader;
use crate::work::{ArmadaWork, ArmadaWorkMessage, ProbeProduct, WorkMessageView};

verus! {

/// `rand::random` for `u32`: any number. No two calls need agree.
#[verifier::external_body]
fn random_sequence_number() -> u32 {
    rand::random::<u32>()
}

/// What the engine asks for next.
#[derive(Debug, PartialEq, Eq)]
pub enum Action {
    /// Hand this report to the consumer.
    Report(ArmadaWorkMessage),
    /// Send the engine's segment to `destination`, on the socket of its
    /// family.
    Send { destination: IpAddress },
    /// Try to receive one segment on the socket of `family`.
    Receive { family: IpFamily },
    /// Sleep for `millis` milliseconds.
    Sleep { millis: u64 },
    /// Nothing: the scan is over.
    Finished { outcome: Result<(), ScanError> },
}

impl View for Action {
    type V = ActionView;

    open spec fn view(&self) -> ActionView {
        match *self {
            Action::Report(message) => ActionView::Report(message@),
            Action::Send { destination } => ActionView::Send { destination },
            Action::Receive { family } => ActionView::Receive { family },
            Action::Sleep { millis } => ActionView::Sleep { millis },
            Action::Finished { outcome } => ActionView::Finished { outcome },
        }
    }
}

/// A batch of probes that were sent together, and when they time out.
#[derive(Debug)]
pub struct ExpiryBatch {
    pub deadline: u128,
    pub probes: Vec<Probe>,
}

impl View for ExpiryBatch {
    type V = ExpiryView;

    open spec fn view(&self) -> ExpiryView {
        ExpiryView { deadline: self.deadline, probes: self.probes@ }
    }
}

/// The engine of one scan. It does no I/O: `process_work` is told what came
/// of the last action and names the next.
pub struct ArmadaWorker {
    listening_port: u16,
    port_retries: u8,
    port_timeout: u64,
    packets_per_second: Option<usize>,
    source_ipv4_addrs: Vec<u32>,
    source_ipv6_addrs: Vec<u128>,
    remote_addrs: ProbeProduct,
    requeued_addrs: Vec<Probe>,
    inflight_addrs: ProbeSet,
    packet_retry_tracker: RetryTracker,
    expiry_list: VecDeque<ExpiryBatch>,
    open_ports: Vec<Probe>,
    total_processed_ports: u128,
    total_packets_sent: u128,
    total_skipped_ports: u128,
    clock: u64,
    next_packet_bucket_expiry: u128,
    current_packets_sent_for_bucket: usize,
    tcp_seq: u32,
    syn_tcp_buffer: Vec<u8>,
    next_ipv4: usize,
    next_ipv6: usize,
    source_ipv4_addr: Option<u32>,
    source_ipv6_addr: Option<u128>,
    phase: Phase,
    sent_addrs: Vec<Probe>,
    slots: usize,
    pending: Option<Probe>,
    drained: usize,
    outcome: Result<(), ScanError>,
    targets: Ghost<Set<Probe>>,
    reported: Ghost<Seq<Probe>>,
    closed: Ghost<Set<Probe>>,
    dropped: Ghost<Set<Probe>>,
    transmissions: Ghost<Map<Probe, nat>>,
    segments_taken: Ghost<nat>,
    started_at: Ghost<u64>,
    rollovers: Ghost<nat>,
    sent_at_rollover: Ghost<u128>,
    last_sent_at: Ghost<u64>,
    rollovers_at_last_send: Ghost<nat>,
}

impl View for ArmadaWorker {
    type V = EngineState;

    closed spec fn view(&self) -> EngineState {
        EngineState {
            listening_port: self.listening_port,
            retries: self.port_retries,
            timeout: self.port_timeout,
            rate_limit: self.packets_per_second,
            source_ipv4: self.source_ipv4_addrs@,
            source_ipv6: self.source_ipv6_addrs@,
            upstream: self.remote_addrs.remaining(),
            requeue: self.requeued_addrs@,
            inflight: self.inflight_addrs@,
            retry_tracker: self.packet_retry_tracker@,
            expiry: self.expiry_list@.map_values(|batch: ExpiryBatch| batch@),
            open_ports: self.open_ports@,
            processed: self.total_processed_ports,
            total_sent: self.total_packets_sent,
            skipped: self.total_skipped_ports,
            clock: self.clock,
            bucket_deadline: self.next_packet_bucket_expiry,
            bucket_sent: self.current_packets_sent_for_bucket,
            tcp_seq: self.tcp_seq,
            segment: self.syn_tcp_buffer@,
            next_ipv4: self.next_ipv4,
            next_ipv6: self.next_ipv6,
            current_ipv4: self.source_ipv4_addr,
            current_ipv6: self.source_ipv6_addr,
            phase: self.phase,
            sent: self.sent_addrs@,
            slots: self.slots,
            pending: self.pending,
            drained: self.drained,
            outcome: self.outcome,
            targets: self.targets@,
            reported: self.reported@,
            closed: self.closed@,
            dropped: self.dropped@,
            transmissions: self.transmissions@,
            segments_taken: self.segments_taken@,
            started_at: self.started_at@,
            rollovers: self.rollovers@,
            sent_at_rollover: self.sent_at_rollover@,
            last_sent_at: self.last_sent_at@,
            rollovers_at_last_send: self.rollovers_at_last_send@,
        }
    }
}

impl ArmadaWorker {
    /// The parts of the engine are well formed each by itself.
    pub closed spec fn parts_wf(&self) -> bool {
        &&& self.remote_addrs.wf()
        &&& self.inflight_addrs.wf()
        &&& self.syn_tcp_buffer@.len() == 32
    }

    /// The engine is well formed: its parts are, and its state meets the
    /// invariant of a scan.
    pub open spec fn wf(&self) -> bool {
        self.parts_wf() && self@.inv()
    }

    /// The engine of the scan `work`, whose probes leave from
    /// `listening_port` with sequence numbers that follow `tcp_seq`.
    pub fn new(work: ArmadaWork, listening_port: u16, tcp_seq: u32) -> (worker: Self)
        requires
            work.remote_addrs.wf(),
        ensures
            worker.wf(),
            worker@ == initial_state(
                work.remote_addrs.remaining(),
                work.port_retries,
                work.port_timeout,
                work.packets_per_second,
                work.source_ipv4_addrs@,
                work.source_ipv6_addrs@,
                listening_port,
                tcp_seq,
            ),
            work.remote_addrs.remaining().no_duplicates() ==> worker@.accounted(),
    {
        let ghost upstream = work.remote_addrs.remaining();
        let mut syn_tcp_buffer: Vec<u8> = Vec::new();
        let mut i: usize = 0;
        while i < 32
            invariant
                0 <= i <= 32,
                syn_tcp_buffer@.len() == i,
                forall|j: int| 0 <= j < i ==> syn_tcp_buffer@[j] == 0,
            decreases 32 - i,
        {
            syn_tcp_buffer.push(0);
            i = i + 1;
        }
        let worker = ArmadaWorker {
            listening_port,
            port_retries: work.port_retries,
            port_timeout: work.port_timeout,
            packets_per_second: work.packets_per_second,
            source_ipv4_addrs: work.source_ipv4_addrs,
            source_ipv6_addrs: work.source_ipv6_addrs,
            remote_addrs: work.remote_addrs,
            requeued_addrs: Vec::new(),
            inflight_addrs: ProbeSet::new(),
            packet_retry_tracker: RetryTracker::new(),
            expiry_list: VecDeque::new(),
            open_ports: Vec::new(),
            total_processed_ports: 0,
            total_packets_sent: 0,
            total_skipped_ports: 0,
            clock: 0,
            next_packet_bucket_expiry: RATE_LIMIT_RESOLUTION as u128,
            current_packets_sent_for_bucket: 0,
            tcp_seq,
            syn_tcp_buffer,
            next_ipv4: 0,
            next_ipv6: 0,
            source_ipv4_addr: None,
            source_ipv6_addr: None,
            phase: Phase::Idle,
            sent_addrs: Vec::new(),
            slots: 0,
            pending: None,
            drained: 0,
            outcome: Ok(()),
            targets: Ghost(upstream.to_set()),
            reported: Ghost(Seq::empty()),
            closed: Ghost(Set::empty()),
            dropped: Ghost(Set::empty()),
            transmissions: Ghost(Map::empty()),
            segments_taken: Ghost(0),
            started_at: Ghost(0),
            rollovers: Ghost(0),
            sent_at_rollover: Ghost(0),
            last_sent_at: Ghost(0),
            rollovers_at_last_send: Ghost(0),
        };
        proof {
            let init = initial_state(
                upstream,
                work.port_retries,
                work.port_timeout,
                work.packets_per_second,
                work.source_ipv4_addrs@,
                work.source_ipv6_addrs@,
                listening_port,
                tcp_seq,
            );
            lemma_initial_state(
                upstream,
                work.port_retries,
                work.port_timeout,
                work.packets_per_second,
                work.source_ipv4_addrs@,
                work.source_ipv6_addrs@,
                listening_port,
                tcp_seq,
            );
            assert(worker@.segment =~= init.segment);
            assert(worker@.expiry =~= init.expiry);
            assert(worker@ =~= init);
            if upstream.no_duplicates() {
                lemma_initial_accounted(
                    upstream,
                    work.port_retries,
                    work.port_timeout,
                    work.packets_per_second,
                    work.source_ipv4_addrs@,
                    work.source_ipv6_addrs@,
                    listening_port,
                    tcp_seq,
                );
            }
        }
        worker
    }

    /// The engine of the scan `work`, whose probes leave from
    /// `listening_port` with sequence numbers that follow a random one.
    pub fn seeded(work: ArmadaWork, listening_port: u16) -> (worker: Self)
        requires
            work.remote_addrs.wf(),
        ensures
            worker.wf(),
            worker@ == initial_state(
                work.remote_addrs.remaining(),
                work.port_retries,
                work.port_timeout,
                work.packets_per_second,
                work.source_ipv4_addrs@,
                work.source_ipv6_addrs@,
                listening_port,
                worker@.tcp_seq,
            ),
            work.remote_addrs.remaining().no_duplicates() ==> worker@.accounted(),
    {
        ArmadaWorker::new(work, listening_port, random_sequence_number())
    }

    /// The segment to send when the engine asks for a send.
    pub fn segment(&self) -> (segment: &[u8])
        ensures
            segment@ == self@.segment,
    {
        self.syn_tcp_buffer.as_slice()
    }

    /// The number of probes dropped so far because their family has no
    /// source address to send from.
    pub fn skipped_ports(&self) -> (skipped: u128)
        ensures
            skipped == self@.skipped,
    {
        self.total_skipped_ports
    }

    /// The sequence number of the last segment built.
    pub fn tcp_seq(&self) -> (seq: u32)
        ensures
            seq == self@.tcp_seq,
    {
        self.tcp_seq
    }

    /// A report of the counters.
    fn stats_message(&self) -> (message: ArmadaWorkMessage)
        requires
            self.parts_wf(),
        ensures
            message@ == WorkMessageView::Stats(self@.stats()),
    {
        ArmadaWorkMessage::stats(
            self.total_processed_ports,
            self.inflight_addrs.len() as u128,
            self.total_packets_sent,
        )
    }

    /// Moves probes from upstream to the end of the requeue buffer until the
    /// buffer holds 512 or upstream has no more.
    fn refill(&mut self)
        requires
            old(self).parts_wf(),
        ensures
            final(self).parts_wf(),
            final(self)@ == old(self)@.refill(),
    {
        let ghost start = self@;
        let ghost mut moved: int = 0;
        let mut more = true;
        while more && self.requeued_addrs.len() < REQUEUE_FILL
            invariant
                self.parts_wf(),
                0 <= moved <= start.upstream.len(),
                moved <= start.refill_count(),
                !more ==> moved == start.upstream.len(),
                self@ == (EngineState {
                    requeue: start.requeue + start.upstream.take(moved),
                    upstream: start.upstream.skip(moved),
                    ..start
                }),
            decreases
                    REQUEUE_FILL - self.requeued_addrs.len() + if more {
                        1int
                    } else {
                        0int
                    },
        {
            let ghost before = self@;
            match self.remote_addrs.next() {
                Some(probe) => {
                    self.requeued_addrs.push(probe);
                    proof {
                        assert(start.upstream.take(moved + 1) =~= start.upstream.take(moved).push(
                            start.upstream[moved],
                        ));
                        assert(start.upstream.skip(moved).skip(1) =~= start.upstream.skip(
                            moved + 1,
                        ));
                        moved = moved + 1;
                        assert(self@.requeue =~= start.requeue + start.upstream.take(moved));
                    }
                },
                None => {
                    more = false;
                },
            }
        }
        proof {
            assert(moved == start.refill_count());
        }
    }

    /// Makes each family's next source address the current one.
    fn rotate_sources(&mut self)
        requires
            old(self).parts_wf(),
        ensures
            final(self).parts_wf(),
            final(self)@ == old(self)@.rotate_sources(),
    {
        if self.next_ipv4 < self.source_ipv4_addrs.len() {
            self.source_ipv4_addr = Some(self.source_ipv4_addrs[self.next_ipv4]);
        } else {
            self.source_ipv4_addr = None;
        }
        if self.source_ipv4_addrs.len() > 0 && self.next_ipv4 < self.source_ipv4_addrs.len() - 1 {
            self.next_ipv4 = self.next_ipv4 + 1;
        } else {
            self.next_ipv4 = 0;
        }
        if self.next_ipv6 < self.source_ipv6_addrs.len() {
            self.source_ipv6_addr = Some(self.source_ipv6_addrs[self.next_ipv6]);
        } else {
            self.source_ipv6_addr = None;
        }
        if self.source_ipv6_addrs.len() > 0 && self.next_ipv6 < self.source_ipv6_addrs.len() - 1 {
            self.next_ipv6 = self.next_ipv6 + 1;
        } else {
            self.next_ipv6 = 0;
        }
    }

    /// Begins the scan, and with it the first rate bucket.
    fn start_clock(&mut self)
        requires
            old(self).parts_wf(),
        ensures
            final(self).parts_wf(),
            final(self)@ == old(self)@.start_clock(),
    {
        self.next_packet_bucket_expiry = self.clock as u128 + RATE_LIMIT_RESOLUTION as u128;
        self.current_packets_sent_for_bucket = 0;
        proof {
            self.started_at = Ghost(self.clock);
        }
    }

    /// Begins a new rate bucket.
    fn roll_bucket(&mut self)
        requires
            old(self).parts_wf(),
        ensures
            final(self).parts_wf(),
            final(self)@ == old(self)@.roll_bucket(),
    {
        self.next_packet_bucket_expiry = self.clock as u128 + RATE_LIMIT_RESOLUTION as u128;
        self.current_packets_sent_for_bucket = 0;
        proof {
            self.rollovers = Ghost(self.rollovers@ + 1);
            self.sent_at_rollover = Ghost(self.total_packets_sent);
        }
    }

    /// Ends the send phase: counts what was sent, puts it in flight, and
    /// gives it a deadline.
    fn close_batch(&mut self)
        requires
            old(self).parts_wf(),
            old(self)@.sent.len() <= BATCH_SEND_SIZE,
            old(self)@.batch_fits_bucket(),
        ensures
            final(self).parts_wf(),
            final(self)@ == old(self)@.close_batch(),
    {
        let count = self.sent_addrs.len();
        if count == 0 {
            return ;
        }
        self.total_packets_sent = self.total_packets_sent.saturating_add(count as u128);
        if self.packets_per_second.is_some() {
            self.current_packets_sent_for_bucket = self.current_packets_sent_for_bucket + count;
        }
        self.inflight_addrs.extend(&self.sent_addrs);
        let mut probes: Vec<Probe> = Vec::new();
        std::mem::swap(&mut self.sent_addrs, &mut probes);
        let deadline = self.clock as u128 + self.port_timeout as u128;
        self.expiry_list.push_back(ExpiryBatch { deadline, probes });
        proof {
            self.last_sent_at = Ghost(self.clock);
            self.rollovers_at_last_send = Ghost(self.rollovers@);
            let closed = old(self)@.close_batch();
            assert(self@.expiry =~= closed.expiry);
            assert(self@.sent =~= closed.sent);
            assert(self@ =~= closed);
        }
    }

    /// Begins the receive phase, with the IPv4 socket.
    fn start_receiving(&mut self) -> (action: Action)
        requires
            old(self).parts_wf(),
        ensures
            final(self).parts_wf(),
            (final(self)@, action@) == old(self)@.start_receiving(),
    {
        self.phase = Phase::Receiving(IpFamily::V4);
        self.drained = 0;
        Action::Receive { family: IpFamily::V4 }
    }

    /// Goes on with the send phase: takes probes from the end of the requeue
    /// buffer until one can be sent, builds its segment and asks for it to
    /// be sent. When the phase's slots are used up or the buffer is empty,
    /// the phase ends and the receive phase begins.
    fn send_packets(&mut self) -> (action: Action)
        requires
            old(self).parts_wf(),
            old(self)@.pending is None,
            old(self)@.sent.len() + old(self)@.slots <= BATCH_SEND_SIZE,
            old(self)@.batch_fits_bucket(),
        ensures
            final(self).parts_wf(),
            (final(self)@, action@) == old(self)@.send_packets(),
    {
        while self.slots > 0 && self.requeued_addrs.len() > 0
            invariant
                self.parts_wf(),
                self@.pending is None,
                self@.sent.len() + self@.slots <= BATCH_SEND_SIZE,
                self@.batch_fits_bucket(),
                self@.send_packets() == old(self)@.send_packets(),
            decreases self.slots,
        {
            let ghost before = self@;
            let probe = self.requeued_addrs.pop().unwrap();
            self.slots = self.slots - 1;
            let mut seq = self.tcp_seq;
            let built = match probe.ip {
                IpAddress::V4(remote) => match self.source_ipv4_addr {
                    Some(source) => create_syn_tcp_packet_v4(
                        source,
                        remote,
                        self.listening_port,
                        probe.port,
                        self.syn_tcp_buffer.as_mut_slice(),
                        &mut seq,
                    ),
                    None => false,
                },
                IpAddress::V6(remote) => match self.source_ipv6_addr {
                    Some(source) => create_syn_tcp_packet_v6(
                        source,
                        remote,
                        self.listening_port,
                        probe.port,
                        self.syn_tcp_buffer.as_mut_slice(),
                        &mut seq,
                    ),
                    None => false,
                },
            };
            proof {
                assert(self@.requeue =~= before.requeue.drop_last());
            }
            if built {
                self.tcp_seq = seq;
                self.pending = Some(probe);
                self.phase = Phase::Sending;
                proof {
                    let taken = EngineState {
                        requeue: before.requeue.drop_last(),
                        slots: (before.slots - 1) as usize,
                        ..before
                    };
                    let segment = taken.segment_for(probe, next_sequence(before.tcp_seq));
                    assert(segment is Some);
                    assert(self.syn_tcp_buffer@ =~= self.syn_tcp_buffer@.take(32));
                    assert(self@ =~= before.send_packets().0);
                }
                return Action::Send { destination: probe.ip };
            }
            self.total_skipped_ports = self.total_skipped_ports.saturating_add(1);
            proof {
                self.dropped = Ghost(self.dropped@.insert(probe));
                assert(self@ =~= (EngineState {
                    requeue: before.requeue.drop_last(),
                    slots: (before.slots - 1) as usize,
                    skipped: saturating_inc(before.skipped),
                    dropped: before.dropped.insert(probe),
                    ..before
                }));
            }
        }
        self.close_batch();
        self.start_receiving()
    }

    /// Takes in a segment from `remote`: if it tells that its port is open
    /// and the probe of that port is in flight, the probe is settled as open.
    fn record_open_socket_from_response(&mut self, header: &TcpHeader, remote: IpAddress)
        requires
            old(self).parts_wf(),
        ensures
            final(self).parts_wf(),
            final(self)@ == old(self)@.record_open_socket(*header, remote),
    {
        match crate::tcp_ext::open_socket_from_response(header, remote, self.listening_port) {
            Some(probe) => {
                if self.inflight_addrs.remove(probe) {
                    self.total_processed_ports = self.total_processed_ports.saturating_add(1);
                    self.packet_retry_tracker.remove(probe);
                    self.open_ports.push(probe);
                } else {
                    proof {
                        assert(self@.inflight =~= old(self)@.inflight);
                    }
                }
            },
            None => {},
        }
    }

    /// Lets `probe` time out: if it is still in flight, it goes back to the
    /// requeue buffer, or, after its last retry, is settled as closed.
    fn expire_probe(&mut self, probe: Probe)
        requires
            old(self).parts_wf(),
            old(self)@.retries_bounded(),
        ensures
            final(self).parts_wf(),
            final(self)@ == old(self)@.expire_probe(probe),
    {
        if !self.inflight_addrs.remove(probe) {
            proof {
                assert(self@.inflight =~= old(self)@.inflight);
            }
            return ;
        }
        let retry_counter: u8 = match self.packet_retry_tracker.get(probe) {
            Some(count) => count,
            None => 0,
        };
        if retry_counter == self.port_retries {
            self.total_processed_ports = self.total_processed_ports.saturating_add(1);
            self.packet_retry_tracker.remove(probe);
            proof {
                self.closed = Ghost(self.closed@.insert(probe));
            }
        } else {
            self.packet_retry_tracker.insert(probe, retry_counter + 1);
            self.requeued_addrs.push(probe);
        }
    }

    /// Takes the batches whose deadline has come off the head of the expiry
    /// queue and lets their probes time out, oldest first.
    fn process_expiration(&mut self)
        requires
            old(self).parts_wf(),
            old(self)@.between_phases(),
        ensures
            final(self).parts_wf(),
            final(self)@.between_phases(),
            final(self)@ == old(self)@.process_expiration(),
    {
        let ghost start = self@;
        let ghost mut popped: int = 0;
        let mut all_expired_remotes: Vec<Probe> = Vec::new();
        while self.expiry_list.len() > 0 && self.expiry_list[0].deadline <= self.clock as u128
            invariant
                self.parts_wf(),
                0 <= popped <= start.expiry.len(),
                self@ == (EngineState { expiry: start.expiry.skip(popped), ..start }),
                popped + due_batches(self@.expiry, start.clock) == due_batches(
                    start.expiry,
                    start.clock,
                ),
                all_expired_remotes@ + due_probes(self@.expiry, start.clock) == due_probes(
                    start.expiry,
                    start.clock,
                ),
            decreases self.expiry_list.len(),
        {
            let ghost before = self@;
            let ghost gathered = all_expired_remotes@;
            let mut batch = self.expiry_list.pop_front().unwrap();
            all_expired_remotes.append(&mut batch.probes);
            proof {
                assert(self@.expiry =~= before.expiry.skip(1));
                assert(start.expiry.skip(popped).skip(1) =~= start.expiry.skip(popped + 1));
                assert(all_expired_remotes@ + due_probes(self@.expiry, start.clock) =~= gathered
                    + due_probes(before.expiry, start.clock));
                popped = popped + 1;
            }
        }
        let ghost cut = self@;
        proof {
            assert(due_batches(self@.expiry, start.clock) == 0);
            assert(due_probes(self@.expiry, start.clock) =~= Seq::<Probe>::empty());
            assert(all_expired_remotes@ =~= due_probes(start.expiry, start.clock));
            crate::engine::laws::lemma_due_batches_bound(start.expiry, start.clock);
            crate::engine::laws::lemma_cut_expiry(start);
            assert(all_expired_remotes@.skip(0) =~= all_expired_remotes@);
        }
        let mut i: usize = 0;
        while i < all_expired_remotes.len()
            invariant
                0 <= i <= all_expired_remotes.len(),
                self.parts_wf(),
                self@.between_phases(),
                self@.expire_batch(all_expired_remotes@.skip(i as int)) == cut.expire_batch(
                    all_expired_remotes@,
                ),
            decreases all_expired_remotes.len() - i,
        {
            let ghost before = self@;
            self.expire_probe(all_expired_remotes[i]);
            proof {
                crate::engine::laws::lemma_expire_probe(before, all_expired_remotes@[i as int]);
                assert(all_expired_remotes@.skip(i as int).skip(1) =~= all_expired_remotes@.skip(
                    i + 1,
                ));
            }
            i = i + 1;
        }
    }

    /// Asks for the last statistics to be reported; the scan then ends with
    /// `outcome`.
    fn finish(&mut self, outcome: Result<(), ScanError>) -> (action: Action)
        requires
            old(self).parts_wf(),
        ensures
            final(self).parts_wf(),
            (final(self)@, action@) == old(self)@.finish(outcome),
    {
        let message = self.stats_message();
        self.phase = Phase::FinalStats;
        self.outcome = outcome;
        Action::Report(message)
    }

    /// Ends the scan at once with `error`.
    fn abort(&mut self, error: ScanError) -> (action: Action)
        requires
            old(self).parts_wf(),
        ensures
            final(self).parts_wf(),
            (final(self)@, action@) == old(self)@.abort(error),
    {
        self.phase = Phase::Done;
        self.outcome = Err(error);
        Action::Finished { outcome: Err(error) }
    }

    /// Begins a send phase if the rate bucket has room, and asks for a sleep
    /// until the bucket ends if it has none.
    fn send_or_sleep(&mut self) -> (action: Action)
        requires
            old(self).parts_wf(),
            old(self)@.between_phases(),
        ensures
            final(self).parts_wf(),
            (final(self)@, action@) == old(self)@.send_or_sleep(),
    {
        let room: usize = match self.packets_per_second {
            Some(limit) => {
                let cap = limit / BUCKETS_PER_SECOND;
                if cap <= self.current_packets_sent_for_bucket {
                    0
                } else if cap - self.current_packets_sent_for_bucket < BATCH_SEND_SIZE {
                    cap - self.current_packets_sent_for_bucket
                } else {
                    BATCH_SEND_SIZE
                }
            },
            None => BATCH_SEND_SIZE,
        };
        if room > 0 {
            self.sent_addrs.clear();
            self.slots = room;
            proof {
                assert(self@ =~= (EngineState {
                    sent: Seq::empty(),
                    slots: old(self)@.batch_room(),
                    ..old(self)@
                }));
            }
            self.send_packets()
        } else {
            let millis: u64 = if self.next_packet_bucket_expiry > self.clock as u128 {
                (self.next_packet_bucket_expiry - self.clock as u128) as u64
            } else {
                0
            };
            self.phase = Phase::Sleeping;
            Action::Sleep { millis }
        }
    }

    /// Begins an iteration: refills the requeue buffer, ends the scan if
    /// nothing is left to do, and else goes on to the rate bucket and the
    /// send phase.
    fn begin_iteration(&mut self) -> (action: Action)
        requires
            old(self).parts_wf(),
            old(self)@.between_phases(),
        ensures
            final(self).parts_wf(),
            (final(self)@, action@) == old(self)@.begin_iteration(),
    {
        proof {
            crate::engine::laws::lemma_refill(self@);
        }
        self.refill();
        if self.requeued_addrs.len() == 0 && self.inflight_addrs.is_empty() {
            return self.finish(Ok(()));
        }
        self.rotate_sources();
        if self.next_packet_bucket_expiry <= self.clock as u128 {
            self.roll_bucket();
            let message = self.stats_message();
            self.phase = Phase::TickStats;
            Action::Report(message)
        } else {
            self.send_or_sleep()
        }
    }

    /// Asks for what was found open to be handed to the consumer.
    fn hand_over_results(&mut self, phase: Phase) -> (action: Action)
        requires
            old(self).parts_wf(),
        ensures
            final(self).parts_wf(),
            (final(self)@, action@) == old(self)@.hand_over_results(phase),
    {
        let mut results: Vec<Probe> = Vec::new();
        std::mem::swap(&mut self.open_ports, &mut results);
        proof {
            self.reported = Ghost(self.reported@ + results@);
        }
        self.phase = phase;
        Action::Report(ArmadaWorkMessage::results(results))
    }

    /// Reports what was found open, statistics first; with nothing found,
    /// goes on to the timeouts and the next iteration.
    fn emit_results(&mut self) -> (action: Action)
        requires
            old(self).parts_wf(),
            old(self)@.between_phases(),
        ensures
            final(self).parts_wf(),
            (final(self)@, action@) == old(self)@.emit_results(),
    {
        if self.open_ports.len() > 0 {
            let message = self.stats_message();
            self.phase = Phase::EmitStats;
            Action::Report(message)
        } else {
            self.process_expiration();
            self.begin_iteration()
        }
    }

    /// Goes from the socket of `family` to what follows it: the IPv6 socket
    /// after the IPv4 socket, the report after the IPv6 socket.
    fn next_receiver(&mut self, family: IpFamily) -> (action: Action)
        requires
            old(self).parts_wf(),
            old(self)@.between_phases(),
        ensures
            final(self).parts_wf(),
            (final(self)@, action@) == old(self)@.next_receiver(family),
    {
        match family {
            IpFamily::V4 => {
                self.phase = Phase::Receiving(IpFamily::V6);
                self.drained = 0;
                Action::Receive { family: IpFamily::V6 }
            },
            IpFamily::V6 => self.emit_results(),
        }
    }

    /// Puts the probe that was being sent back at the end of the requeue
    /// buffer.
    fn requeue_pending(&mut self)
        requires
            old(self).parts_wf(),
        ensures
            final(self).parts_wf(),
            final(self)@ == old(self)@.requeue_pending(),
    {
        match self.pending {
            Some(probe) => {
                self.requeued_addrs.push(probe);
            },
            None => {},
        }
        self.pending = None;
    }

    /// Notes that the probe that was being sent has been sent.
    fn pending_sent(&mut self)
        requires
            old(self).parts_wf(),
        ensures
            final(self).parts_wf(),
            final(self)@ == old(self)@.pending_sent(),
    {
        match self.pending {
            Some(probe) => {
                proof {
                    self.transmissions = Ghost(
                        self.transmissions@.insert(probe, self@.sent_count(probe) + 1),
                    );
                    self.segments_taken = Ghost(self.segments_taken@ + 1);
                }
                self.sent_addrs.push(probe);
                self.pending = None;
            },
            None => {},
        }
    }

    /// One step of the scan. The engine is told at time `now`, in
    /// milliseconds of a clock that does not run backwards, what came of
    /// the action it last asked for, and returns the action it asks for
    /// next. The first event is `Start`; after `Finished` the scan is over.
    ///
    /// Within an iteration the order is fixed: refill, rate bucket, send
    /// phase, receive phase, report, timeouts.
    pub fn process_work(&mut self, event: Event, now: u64) -> (action: Action)
        requires
            old(self).wf(),
        ensures
            final(self).wf(),
            (final(self)@, action@) == old(self)@.process_work(event, now),
            final(self)@.not_behind(old(self)@),
            old(self)@.accounted() ==> final(self)@.accounted(),
    {
        proof {
            lemma_process_work(self@, event, now);
            crate::engine::laws::lemma_at(self@, now);
            if self@.accounted() {
                lemma_process_work_accounted(self@, event, now);
            }
        }
        if now > self.clock {
            self.clock = now;
        }
        assert(self@ == old(self)@.at(now));
        match (self.phase, event) {
            (Phase::Idle, Event::Start) => {
                self.start_clock();
                self.begin_iteration()
            },
            (Phase::TickStats, Event::Reported) => self.send_or_sleep(),
            (Phase::Sending, Event::Sent) => {
                self.pending_sent();
                self.send_packets()
            },
            (Phase::Sending, Event::WouldBlock) => {
                self.requeue_pending();
                self.close_batch();
                self.start_receiving()
            },
            (Phase::Sending, Event::SendFailed) => {
                self.requeue_pending();
                self.close_batch();
                self.finish(Err(ScanError::Socket))
            },
            (Phase::Sleeping, Event::Woke) => self.start_receiving(),
            (Phase::Receiving(family), Event::Received { header, remote }) => {
                proof {
                    crate::engine::laws::lemma_record_open_socket(self@, header, remote);
                }
                self.record_open_socket_from_response(&header, remote);
                self.drained = self.drained + 1;
                if self.drained >= BATCH_RECV_SIZE {
                    self.next_receiver(family)
                } else {
                    Action::Receive { family }
                }
            },
            (Phase::Receiving(family), Event::NothingReceived) => self.next_receiver(family),
            (Phase::Receiving(_), Event::ReceiveFailed) => self.finish(Err(ScanError::Socket)),
            (Phase::EmitStats, Event::Reported) => self.hand_over_results(Phase::EmitResults),
            (Phase::EmitResults, Event::Reported) => {
                self.process_expiration();
                self.begin_iteration()
            },
            (Phase::FinalStats, Event::Reported) => self.hand_over_results(Phase::FinalResults),
            (Phase::FinalResults, Event::Reported) => {
                self.phase = Phase::Done;
                Action::Finished { outcome: self.outcome }
            },
            (Phase::TickStats, Event::ReportFailed) => self.abort(ScanError::Reporting),
            (Phase::EmitStats, Event::ReportFailed) => self.abort(ScanError::Reporting),
            (Phase::EmitResults, Event::ReportFailed) => self.abort(ScanError::Reporting),
            (Phase::FinalStats, Event::ReportFailed) => self.abort(ScanError::Reporting),
            (Phase::FinalResults, Event::ReportFailed) => self.abort(ScanError::Reporting),
            (Phase::Done, _) => Action::Finished { outcome: self.outcome },
            _ => self.abort(ScanError::UnexpectedEvent),
        }
    }
}

} // verus!
