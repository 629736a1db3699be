//! The scan as a mathematical state machine: what the engine holds, and how
//! each outcome of the action it last asked for changes that and decides the
//! next action.
use vstd::prelude::*;
use crate::net::{IpAddress, IpFamily, Probe};
use crate::packet::{next_sequence, syn_segment_v4, syn_segment_v6};
use crate::tcp_ext::TcpHeader;
use crate::work::{ScanStats, WorkMessageView};

verus! {

/// How many probes one send phase takes from the requeue buffer at most.
pub const BATCH_SEND_SIZE: usize = 32;

/// How many segments one receive phase takes from each socket at most.
pub const BATCH_RECV_SIZE: usize = 32;

/// The length up to which the requeue buffer is refilled from upstream.
pub const REQUEUE_FILL: usize = 512;

/// The length of a rate bucket, in milliseconds.
pub const RATE_LIMIT_RESOLUTION: u64 = 100;

/// The number of rate buckets in a second.
pub const BUCKETS_PER_SECOND: usize = 10;

/// Why a scan ended before all its probes were settled.
#[derive(Clone, Copy, Debug, PartialEq, Eq, Structural)]
pub enum ScanError {
    /// A raw socket failed otherwise than by being busy or empty.
    Socket,
    /// The consumer of the reports has gone.
    Reporting,
    /// The engine was told of something it had not asked for.
    UnexpectedEvent,
}

/// What came of the action that the engine last asked for.
#[derive(Clone, Copy, Debug, PartialEq, Eq, Structural)]
pub enum Event {
    /// Nothing yet: the scan is to begin.
    Start,
    /// The report was handed to the consumer.
    Reported,
    /// The report could not be handed over.
    ReportFailed,
    /// The socket took the segment.
    Sent,
    /// The socket's buffer is full.
    WouldBlock,
    /// The socket refused the segment for another reason.
    SendFailed,
    /// The sleep is over.
    Woke,
    /// The socket delivered a TCP segment from `remote`.
    Received { header: TcpHeader, remote: IpAddress },
    /// The socket had nothing, or nothing that holds a whole TCP header.
    NothingReceived,
    /// The socket failed.
    ReceiveFailed,
}

/// What the engine asks for next, as a mathematical value.
pub enum ActionView {
    /// Hand this report to the consumer.
    Report(WorkMessageView),
    /// Send the engine's segment to `destination`, on the socket of its
    /// family.
    Send { destination: IpAddress },
    /// Try to receive one segment on the socket of `family`.
    Receive { family: IpFamily },
    /// Sleep for `millis` milliseconds.
    Sleep { millis: u64 },
    /// Nothing: the scan is over.
    Finished { outcome: Result<(), ScanError> },
}

/// Which answer the engine is waiting for.
#[derive(Clone, Copy, Debug, PartialEq, Eq, Structural)]
pub enum Phase {
    /// The scan has not begun.
    Idle,
    /// The statistics of a rate bucket's rollover are being reported.
    TickStats,
    /// A probe is being sent.
    Sending,
    /// The rate bucket is used up and the engine sleeps.
    Sleeping,
    /// A socket is being polled.
    Receiving(IpFamily),
    /// The statistics that precede new results are being reported.
    EmitStats,
    /// New results are being reported.
    EmitResults,
    /// The last statistics are being reported.
    FinalStats,
    /// The last results are being reported.
    FinalResults,
    /// The scan is over.
    Done,
}

/// A batch of probes that were sent together, and when they time out.
pub struct ExpiryView {
    pub deadline: u128,
    pub probes: Seq<Probe>,
}

/// All that the engine holds during a scan.
#[verifier::ext_equal]
pub struct EngineState {
    /// The source port of every probe, and the port that replies come to.
    pub listening_port: u16,
    /// How often a probe is sent again after a timeout.
    pub retries: u8,
    /// How long a probe waits for a reply, in milliseconds.
    pub timeout: u64,
    /// Packets per second, if limited.
    pub rate_limit: Option<usize>,
    /// The source addresses to send IPv4 probes from, taken in turn.
    pub source_ipv4: Seq<u32>,
    /// The source addresses to send IPv6 probes from, taken in turn.
    pub source_ipv6: Seq<u128>,
    /// The probes not yet drawn from the product of hosts and ports.
    pub upstream: Seq<Probe>,
    /// The probes waiting to be sent; the last is sent first.
    pub requeue: Seq<Probe>,
    /// The probes sent and neither answered nor timed out.
    pub inflight: Set<Probe>,
    /// The timeouts that each probe awaiting another send has been through.
    pub retry_tracker: Map<Probe, u8>,
    /// The batches sent, oldest first.
    pub expiry: Seq<ExpiryView>,
    /// The probes found open and not yet reported.
    pub open_ports: Seq<Probe>,
    /// The number of probes settled, as open or as closed.
    pub processed: u128,
    /// The number of segments sent.
    pub total_sent: u128,
    /// The number of probes dropped because their family had no source
    /// address.
    pub skipped: u128,
    /// The latest time the engine was told, in milliseconds.
    pub clock: u64,
    /// When the current rate bucket ends.
    pub bucket_deadline: u128,
    /// The segments sent in the current rate bucket.
    pub bucket_sent: usize,
    /// The sequence number of the last segment built.
    pub tcp_seq: u32,
    /// The last segment built.
    pub segment: Seq<u8>,
    /// The index of the IPv4 source of the next iteration.
    pub next_ipv4: usize,
    /// The index of the IPv6 source of the next iteration.
    pub next_ipv6: usize,
    /// The IPv4 source of this iteration, if there is any.
    pub current_ipv4: Option<u32>,
    /// The IPv6 source of this iteration, if there is any.
    pub current_ipv6: Option<u128>,
    /// Which answer the engine is waiting for.
    pub phase: Phase,
    /// The probes sent in the send phase under way.
    pub sent: Seq<Probe>,
    /// How many more probes the send phase under way may take.
    pub slots: usize,
    /// The probe whose segment is being sent.
    pub pending: Option<Probe>,
    /// How many segments the receive phase under way has taken from the
    /// socket it polls.
    pub drained: usize,
    /// How the scan ended or is about to end.
    pub outcome: Result<(), ScanError>,
    /// Every probe of the scan.
    pub targets: Set<Probe>,
    /// Every probe reported open so far, in the order of the reports.
    pub reported: Seq<Probe>,
    /// Every probe settled as closed so far.
    pub closed: Set<Probe>,
    /// Every probe dropped so far because its family had no source address.
    pub dropped: Set<Probe>,
    /// How many segments were sent so far for each probe that had any.
    pub transmissions: Map<Probe, nat>,
    /// How many segments the sockets took so far.
    pub segments_taken: nat,
    /// The time at which the scan began.
    pub started_at: u64,
    /// How many rate buckets have begun after the first.
    pub rollovers: nat,
    /// The count of segments sent when the current rate bucket began.
    pub sent_at_rollover: u128,
    /// The time of the last send phase that sent anything.
    pub last_sent_at: u64,
    /// How many rate buckets had begun after the first at that time.
    pub rollovers_at_last_send: nat,
}

/// The state of a scan that has not begun.
pub open spec fn initial_state(
    upstream: Seq<Probe>,
    retries: u8,
    timeout: u64,
    rate_limit: Option<usize>,
    source_ipv4: Seq<u32>,
    source_ipv6: Seq<u128>,
    listening_port: u16,
    tcp_seq: u32,
) -> EngineState {
    EngineState {
        listening_port,
        retries,
        timeout,
        rate_limit,
        source_ipv4,
        source_ipv6,
        upstream,
        requeue: Seq::empty(),
        inflight: Set::empty(),
        retry_tracker: Map::empty(),
        expiry: Seq::empty(),
        open_ports: Seq::empty(),
        processed: 0,
        total_sent: 0,
        skipped: 0,
        clock: 0,
        bucket_deadline: RATE_LIMIT_RESOLUTION as u128,
        bucket_sent: 0,
        tcp_seq,
        segment: Seq::new(32, |i: int| 0u8),
        next_ipv4: 0,
        next_ipv6: 0,
        current_ipv4: None,
        current_ipv6: None,
        phase: Phase::Idle,
        sent: Seq::empty(),
        slots: 0,
        pending: None,
        drained: 0,
        outcome: Ok(()),
        targets: upstream.to_set(),
        reported: Seq::empty(),
        closed: Set::empty(),
        dropped: Set::empty(),
        transmissions: Map::empty(),
        segments_taken: 0,
        started_at: 0,
        rollovers: 0,
        sent_at_rollover: 0,
        last_sent_at: 0,
        rollovers_at_last_send: 0,
    }
}

/// `count + 1`, or the largest number if that is `count`.
pub open spec fn saturating_inc(count: u128) -> u128 {
    if count == u128::MAX {
        count
    } else {
        (count + 1) as u128
    }
}

/// `count + more`, or the largest number if the sum is beyond it.
pub open spec fn saturating_sum(count: u128, more: nat) -> u128 {
    if count + more > u128::MAX {
        u128::MAX
    } else {
        (count + more) as u128
    }
}

/// How many batches at the head of `expiry` have a deadline that is not after
/// `clock`.
pub open spec fn due_batches(expiry: Seq<ExpiryView>, clock: u64) -> nat
    decreases expiry.len(),
{
    if expiry.len() > 0 && expiry[0].deadline <= clock {
        1 + due_batches(expiry.skip(1), clock)
    } else {
        0
    }
}

/// The probes of those batches, in the order in which they were sent.
pub open spec fn due_probes(expiry: Seq<ExpiryView>, clock: u64) -> Seq<Probe>
    decreases expiry.len(),
{
    if expiry.len() > 0 && expiry[0].deadline <= clock {
        expiry[0].probes + due_probes(expiry.skip(1), clock)
    } else {
        Seq::empty()
    }
}

impl EngineState {
    /// How many segments were sent for `probe`.
    pub open spec fn sent_count(self, probe: Probe) -> nat {
        if self.transmissions.contains_key(probe) {
            self.transmissions[probe]
        } else {
            0
        }
    }

    /// How many timeouts `probe` has been through since it was last settled.
    pub open spec fn timeouts(self, probe: Probe) -> nat {
        if self.retry_tracker.contains_key(probe) {
            self.retry_tracker[probe] as nat
        } else {
            0
        }
    }

    /// No counter is below what it was in `earlier`.
    pub open spec fn not_behind(self, earlier: EngineState) -> bool {
        &&& self.total_sent >= earlier.total_sent
        &&& self.processed >= earlier.processed
        &&& self.skipped >= earlier.skipped
        &&& self.clock >= earlier.clock
    }

    /// The counters as they are reported.
    pub open spec fn stats(self) -> ScanStats {
        ScanStats {
            total_processed_ports: self.processed,
            current_inflight_packets: self.inflight.len() as u128,
            total_packets_sent: self.total_sent,
        }
    }

    /// The state when the engine is told that the time is `now`. The clock
    /// never runs backwards.
    pub open spec fn at(self, now: u64) -> EngineState {
        EngineState {
            clock: if now > self.clock {
                now
            } else {
                self.clock
            },
            ..self
        }
    }

    /// How many probes the requeue buffer takes from upstream: what it lacks
    /// to hold 512, as far as upstream has them.
    pub open spec fn refill_count(self) -> int {
        let room = if self.requeue.len() < REQUEUE_FILL {
            REQUEUE_FILL - self.requeue.len()
        } else {
            0
        };
        if room < self.upstream.len() {
            room
        } else {
            self.upstream.len() as int
        }
    }

    /// Upstream probes move to the end of the requeue buffer, in order.
    pub open spec fn refill(self) -> EngineState {
        let n = self.refill_count();
        EngineState {
            requeue: self.requeue + self.upstream.take(n),
            upstream: self.upstream.skip(n),
            ..self
        }
    }

    /// Nothing is left to send or to wait for.
    pub open spec fn settled(self) -> bool {
        self.requeue.len() == 0 && self.inflight.len() == 0
    }

    /// Each family's next source address becomes the current one.
    pub open spec fn rotate_sources(self) -> EngineState {
        EngineState {
            current_ipv4: if self.next_ipv4 < self.source_ipv4.len() {
                Some(self.source_ipv4[self.next_ipv4 as int])
            } else {
                None
            },
            next_ipv4: if self.next_ipv4 + 1 < self.source_ipv4.len() {
                (self.next_ipv4 + 1) as usize
            } else {
                0
            },
            current_ipv6: if self.next_ipv6 < self.source_ipv6.len() {
                Some(self.source_ipv6[self.next_ipv6 as int])
            } else {
                None
            },
            next_ipv6: if self.next_ipv6 + 1 < self.source_ipv6.len() {
                (self.next_ipv6 + 1) as usize
            } else {
                0
            },
            ..self
        }
    }

    /// The current rate bucket has ended.
    pub open spec fn bucket_is_due(self) -> bool {
        self.bucket_deadline <= self.clock
    }

    /// The scan begins now, and with it the first rate bucket.
    pub open spec fn start_clock(self) -> EngineState {
        EngineState {
            started_at: self.clock,
            bucket_deadline: (self.clock + RATE_LIMIT_RESOLUTION) as u128,
            bucket_sent: 0,
            ..self
        }
    }

    /// A new rate bucket begins now.
    pub open spec fn roll_bucket(self) -> EngineState {
        EngineState {
            bucket_deadline: (self.clock + RATE_LIMIT_RESOLUTION) as u128,
            bucket_sent: 0,
            rollovers: self.rollovers + 1,
            sent_at_rollover: self.total_sent,
            ..self
        }
    }

    /// The current rate bucket has room: there is no limit, or fewer
    /// segments were sent in the bucket than a tenth of the limit.
    pub open spec fn rate_limit_unviolated(self) -> bool {
        match self.rate_limit {
            Some(limit) => limit / BUCKETS_PER_SECOND > self.bucket_sent,
            None => true,
        }
    }

    /// How many probes a send phase may take: a whole batch, or what room
    /// the rate bucket has left, if that is less.
    pub open spec fn batch_room(self) -> usize {
        match self.rate_limit {
            Some(limit) => if limit / BUCKETS_PER_SECOND - self.bucket_sent < BATCH_SEND_SIZE {
                (limit / BUCKETS_PER_SECOND - self.bucket_sent) as usize
            } else {
                BATCH_SEND_SIZE
            },
            None => BATCH_SEND_SIZE,
        }
    }

    /// The send phase under way cannot send more than the rate bucket has
    /// room for.
    pub open spec fn batch_fits_bucket(self) -> bool {
        self.rate_limit matches Some(limit) ==> self.bucket_sent + self.sent.len() + self.slots + (
        if self.pending is Some {
            1int
        } else {
            0int
        }) <= limit / BUCKETS_PER_SECOND
    }

    /// How long to sleep until the current rate bucket ends.
    pub open spec fn until_bucket_ends(self) -> u64 {
        if self.bucket_deadline > self.clock {
            (self.bucket_deadline - self.clock) as u64
        } else {
            0
        }
    }

    /// The segment that probes `probe` in this iteration, with sequence
    /// number `sequence`, if the probe's family has a source address.
    pub open spec fn segment_for(self, probe: Probe, sequence: u32) -> Option<Seq<u8>> {
        match probe.ip {
            IpAddress::V4(remote) => match self.current_ipv4 {
                Some(source) => Some(
                    syn_segment_v4(source, remote, self.listening_port, probe.port, sequence),
                ),
                None => None,
            },
            IpAddress::V6(remote) => match self.current_ipv6 {
                Some(source) => Some(
                    syn_segment_v6(source, remote, self.listening_port, probe.port, sequence),
                ),
                None => None,
            },
        }
    }

    /// The send phase goes on: probes are taken from the end of the requeue
    /// buffer until one has a source address to be sent from, the phase's
    /// slots are used up, or the buffer is empty. A probe whose family has no
    /// source address is dropped and uses up a slot.
    pub open spec fn send_packets(self) -> (EngineState, ActionView)
        decreases self.slots,
    {
        if self.slots == 0 || self.requeue.len() == 0 {
            self.close_batch().start_receiving()
        } else {
            let probe = self.requeue.last();
            let taken = EngineState {
                requeue: self.requeue.drop_last(),
                slots: (self.slots - 1) as usize,
                ..self
            };
            match taken.segment_for(probe, next_sequence(self.tcp_seq)) {
                Some(segment) => (
                    EngineState {
                        tcp_seq: next_sequence(self.tcp_seq),
                        segment,
                        pending: Some(probe),
                        phase: Phase::Sending,
                        ..taken
                    },
                    ActionView::Send { destination: probe.ip },
                ),
                None => EngineState {
                    skipped: saturating_inc(taken.skipped),
                    dropped: taken.dropped.insert(probe),
                    ..taken
                }.send_packets(),
            }
        }
    }

    /// The send phase ends: what was sent is counted, is in flight, and has
    /// a deadline. The rate bucket counts only under a rate limit. A send
    /// phase that sent nothing changes nothing.
    pub open spec fn close_batch(self) -> EngineState {
        if self.sent.len() == 0 {
            self
        } else {
            EngineState {
                total_sent: saturating_sum(self.total_sent, self.sent.len()),
                bucket_sent: if self.rate_limit is Some {
                    (self.bucket_sent + self.sent.len()) as usize
                } else {
                    self.bucket_sent
                },
                inflight: self.inflight.union(self.sent.to_set()),
                expiry: self.expiry.push(
                    ExpiryView {
                        deadline: (self.clock + self.timeout) as u128,
                        probes: self.sent,
                    },
                ),
                sent: Seq::empty(),
                last_sent_at: self.clock,
                rollovers_at_last_send: self.rollovers,
                ..self
            }
        }
    }

    /// The receive phase begins, with the IPv4 socket.
    pub open spec fn start_receiving(self) -> (EngineState, ActionView) {
        (
            EngineState { phase: Phase::Receiving(IpFamily::V4), drained: 0, ..self },
            ActionView::Receive { family: IpFamily::V4 },
        )
    }

    /// A segment from `remote` is taken in: if it tells that its port is open
    /// and the probe of that port is in flight, the probe is settled as open.
    pub open spec fn record_open_socket(self, header: TcpHeader, remote: IpAddress) -> EngineState {
        let probe = Probe { ip: remote, port: header.source };
        if header.spec_signals_open(self.listening_port) && self.inflight.contains(probe) {
            EngineState {
                inflight: self.inflight.remove(probe),
                retry_tracker: self.retry_tracker.remove(probe),
                open_ports: self.open_ports.push(probe),
                processed: saturating_inc(self.processed),
                ..self
            }
        } else {
            self
        }
    }

    /// The socket of `family` has been polled enough: the IPv6 socket
    /// follows the IPv4 socket, and the report of what was found follows
    /// the IPv6 socket.
    pub open spec fn next_receiver(self, family: IpFamily) -> (EngineState, ActionView) {
        match family {
            IpFamily::V4 => (
                EngineState { phase: Phase::Receiving(IpFamily::V6), drained: 0, ..self },
                ActionView::Receive { family: IpFamily::V6 },
            ),
            IpFamily::V6 => self.emit_results(),
        }
    }

    /// What was found open is reported, statistics first; with nothing
    /// found, the iteration goes on to the timeouts.
    pub open spec fn emit_results(self) -> (EngineState, ActionView) {
        if self.open_ports.len() > 0 {
            (
                EngineState { phase: Phase::EmitStats, ..self },
                ActionView::Report(WorkMessageView::Stats(self.stats())),
            )
        } else {
            self.process_expiration().begin_iteration()
        }
    }

    /// The probes found open leave the engine in a report.
    pub open spec fn hand_over_results(self, phase: Phase) -> (EngineState, ActionView) {
        (
            EngineState {
                open_ports: Seq::empty(),
                reported: self.reported + self.open_ports,
                phase,
                ..self
            },
            ActionView::Report(WorkMessageView::Results(self.open_ports)),
        )
    }

    /// A probe whose batch has timed out: if it is still in flight, it is
    /// sent again later, or, after its last retry, settled as closed.
    pub open spec fn expire_probe(self, probe: Probe) -> EngineState {
        if !self.inflight.contains(probe) {
            self
        } else {
            let timeouts = if self.retry_tracker.contains_key(probe) {
                self.retry_tracker[probe]
            } else {
                0
            };
            if timeouts == self.retries {
                EngineState {
                    inflight: self.inflight.remove(probe),
                    retry_tracker: self.retry_tracker.remove(probe),
                    processed: saturating_inc(self.processed),
                    closed: self.closed.insert(probe),
                    ..self
                }
            } else {
                EngineState {
                    inflight: self.inflight.remove(probe),
                    retry_tracker: self.retry_tracker.insert(probe, (timeouts + 1) as u8),
                    requeue: self.requeue.push(probe),
                    ..self
                }
            }
        }
    }

    /// The probes of a batch time out, in the order in which they were sent.
    pub open spec fn expire_batch(self, probes: Seq<Probe>) -> EngineState
        decreases probes.len(),
    {
        if probes.len() == 0 {
            self
        } else {
            self.expire_probe(probes[0]).expire_batch(probes.skip(1))
        }
    }

    /// The batches at the head of the expiry queue whose deadline has come
    /// leave the queue, and their probes time out, oldest first.
    pub open spec fn process_expiration(self) -> EngineState {
        EngineState {
            expiry: self.expiry.skip(due_batches(self.expiry, self.clock) as int),
            ..self
        }.expire_batch(due_probes(self.expiry, self.clock))
    }

    /// An iteration begins: the requeue buffer is refilled; if nothing is
    /// left to send or to wait for, the scan ends; else the source addresses
    /// rotate, the rate bucket rolls over if it is due, which is reported,
    /// and the send phase follows.
    pub open spec fn begin_iteration(self) -> (EngineState, ActionView) {
        let filled = self.refill();
        if filled.settled() {
            filled.finish(Ok(()))
        } else {
            let turned = filled.rotate_sources();
            if turned.bucket_is_due() {
                let rolled = turned.roll_bucket();
                (
                    EngineState { phase: Phase::TickStats, ..rolled },
                    ActionView::Report(WorkMessageView::Stats(rolled.stats())),
                )
            } else {
                turned.send_or_sleep()
            }
        }
    }

    /// With room in the rate bucket a send phase begins, for as many probes
    /// as the bucket has room for and a batch may hold; without, the engine
    /// sleeps until the bucket ends.
    pub open spec fn send_or_sleep(self) -> (EngineState, ActionView) {
        if self.rate_limit_unviolated() {
            EngineState { sent: Seq::empty(), slots: self.batch_room(), ..self }.send_packets()
        } else {
            (
                EngineState { phase: Phase::Sleeping, ..self },
                ActionView::Sleep { millis: self.until_bucket_ends() },
            )
        }
    }

    /// The scan ends with `outcome`, after a last report of the statistics
    /// and of what was found open.
    pub open spec fn finish(self, outcome: Result<(), ScanError>) -> (EngineState, ActionView) {
        (
            EngineState { phase: Phase::FinalStats, outcome, ..self },
            ActionView::Report(WorkMessageView::Stats(self.stats())),
        )
    }

    /// The scan ends at once with the error `error`.
    pub open spec fn abort(self, error: ScanError) -> (EngineState, ActionView) {
        (
            EngineState { phase: Phase::Done, outcome: Err(error), ..self },
            ActionView::Finished { outcome: Err(error) },
        )
    }

    /// The probe being sent goes back to the end of the requeue buffer.
    pub open spec fn requeue_pending(self) -> EngineState {
        EngineState {
            requeue: match self.pending {
                Some(probe) => self.requeue.push(probe),
                None => self.requeue,
            },
            pending: None,
            ..self
        }
    }

    /// The probe being sent has been sent.
    pub open spec fn pending_sent(self) -> EngineState {
        match self.pending {
            Some(probe) => EngineState {
                sent: self.sent.push(probe),
                transmissions: self.transmissions.insert(probe, self.sent_count(probe) + 1),
                segments_taken: self.segments_taken + 1,
                pending: None,
                ..self
            },
            None => self,
        }
    }

    /// One step of the scan: the engine learns at time `now` what came of
    /// the action it last asked for, and asks for the next.
    pub open spec fn process_work(self, event: Event, now: u64) -> (EngineState, ActionView) {
        let s = self.at(now);
        match (s.phase, event) {
            (Phase::Idle, Event::Start) => s.start_clock().begin_iteration(),
            (Phase::TickStats, Event::Reported) => s.send_or_sleep(),
            (Phase::Sending, Event::Sent) => s.pending_sent().send_packets(),
            (Phase::Sending, Event::WouldBlock) => s.requeue_pending().close_batch().start_receiving(),
            (Phase::Sending, Event::SendFailed) => s.requeue_pending().close_batch().finish(
                Err(ScanError::Socket),
            ),
            (Phase::Sleeping, Event::Woke) => s.start_receiving(),
            (Phase::Receiving(family), Event::Received { header, remote }) => {
                let taken = EngineState {
                    drained: (s.drained + 1) as usize,
                    ..s.record_open_socket(header, remote)
                };
                if taken.drained >= BATCH_RECV_SIZE {
                    taken.next_receiver(family)
                } else {
                    (taken, ActionView::Receive { family })
                }
            },
            (Phase::Receiving(family), Event::NothingReceived) => s.next_receiver(family),
            (Phase::Receiving(_), Event::ReceiveFailed) => s.finish(Err(ScanError::Socket)),
            (Phase::EmitStats, Event::Reported) => s.hand_over_results(Phase::EmitResults),
            (Phase::EmitResults, Event::Reported) => s.process_expiration().begin_iteration(),
            (Phase::FinalStats, Event::Reported) => s.hand_over_results(Phase::FinalResults),
            (Phase::FinalResults, Event::Reported) => (
                EngineState { phase: Phase::Done, ..s },
                ActionView::Finished { outcome: s.outcome },
            ),
            (Phase::TickStats, Event::ReportFailed) => s.abort(ScanError::Reporting),
            (Phase::EmitStats, Event::ReportFailed) => s.abort(ScanError::Reporting),
            (Phase::EmitResults, Event::ReportFailed) => s.abort(ScanError::Reporting),
            (Phase::FinalStats, Event::ReportFailed) => s.abort(ScanError::Reporting),
            (Phase::FinalResults, Event::ReportFailed) => s.abort(ScanError::Reporting),
            (Phase::Done, _) => (s, ActionView::Finished { outcome: s.outcome }),
            _ => s.abort(ScanError::UnexpectedEvent),
        }
    }
}

/// One thing that the engine is told, and when.
pub struct Step {
    pub event: Event,
    pub now: u64,
}

/// The state of a scan that began in state `start` and was then told
/// `steps`, one after the other.
pub open spec fn scan_after(start: EngineState, steps: Seq<Step>) -> EngineState
    decreases steps.len(),
{
    if steps.len() == 0 {
        start
    } else {
        scan_after(start, steps.drop_last()).process_work(steps.last().event, steps.last().now).0
    }
}

/// The probes reported open in the course of `steps`, in the order of the
/// reports.
pub open spec fn results_during(start: EngineState, steps: Seq<Step>) -> Seq<Probe>
    decreases steps.len(),
{
    if steps.len() == 0 {
        Seq::empty()
    } else {
        results_during(start, steps.drop_last()) + match scan_after(
            start,
            steps.drop_last(),
        ).process_work(steps.last().event, steps.last().now).1 {
            ActionView::Report(WorkMessageView::Results(results)) => results,
            _ => Seq::empty(),
        }
    }
}

/// The counts of segments sent that were reported at the rollovers of the
/// rate bucket in the course of `steps`, in the order of the reports.
pub open spec fn rollover_totals(start: EngineState, steps: Seq<Step>) -> Seq<u128>
    decreases steps.len(),
{
    if steps.len() == 0 {
        Seq::empty()
    } else {
        rollover_totals(start, steps.drop_last()) + if scan_after(start, steps).phase
            == Phase::TickStats {
            seq![scan_after(start, steps).total_sent]
        } else {
            Seq::empty()
        }
    }
}

} // verus!
