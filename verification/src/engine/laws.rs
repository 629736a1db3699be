//! What holds of the engine's state throughout a scan, and the proof that
//! every step keeps it.
use vstd::prelude::*;
use vstd::seq_lib::seq_to_set_is_finite;
use vstd::set_lib::lemma_len_union;
use crate::engine::model::{
    due_batches, due_probes, initial_state, saturating_inc, ActionView, EngineState, Event,
    results_during, rollover_totals, scan_after, ExpiryView, Phase, ScanError, Step,
    BATCH_RECV_SIZE,
    BATCH_SEND_SIZE, BUCKETS_PER_SECOND, RATE_LIMIT_RESOLUTION,
};
use crate::net::{IpAddress, IpFamily, Probe};
use crate::tcp_ext::TcpHeader;
use crate::work::{lemma_product_contains, product, WorkMessageView};

verus! {

/// Every probe of `probes` is one of `targets`.
pub open spec fn all_in(probes: Seq<Probe>, targets: Set<Probe>) -> bool {
    forall|i: int| 0 <= i < probes.len() ==> targets.contains(#[trigger] probes[i])
}

impl EngineState {
    /// The engine holds no probe that the scan was not asked for.
    pub open spec fn probes_known(self) -> bool {
        &&& all_in(self.upstream, self.targets)
        &&& all_in(self.requeue, self.targets)
        &&& all_in(self.sent, self.targets)
        &&& all_in(self.open_ports, self.targets)
        &&& all_in(self.reported, self.targets)
        &&& self.inflight.subset_of(self.targets)
        &&& self.pending matches Some(probe) ==> self.targets.contains(probe)
    }

    /// The deadlines in the expiry queue do not decrease, and none is
    /// further away than the timeout.
    pub open spec fn deadlines_ordered(self) -> bool {
        &&& forall|i: int, j: int|
            0 <= i <= j < self.expiry.len() ==> (#[trigger] self.expiry[i]).deadline <= (
            #[trigger] self.expiry[j]).deadline
        &&& forall|i: int|
            0 <= i < self.expiry.len() ==> (#[trigger] self.expiry[i]).deadline <= self.clock
                + self.timeout
    }

    /// Every probe that is settled or in flight was sent: unless the count
    /// of segments sent has reached its largest value, it covers both.
    pub open spec fn sent_covers_settled(self) -> bool {
        self.total_sent == u128::MAX || self.processed + self.inflight.len() <= self.total_sent
    }

    /// No more segments were sent in the current rate bucket than a tenth of
    /// the limit.
    pub open spec fn bucket_not_overfilled(self) -> bool {
        self.rate_limit matches Some(limit) ==> self.bucket_sent <= limit / BUCKETS_PER_SECOND
    }

    /// The count of segments sent, with those of the send phase under way,
    /// is the number of segments that the sockets took, unless it has
    /// reached its largest value.
    pub open spec fn sent_is_counted(self) -> bool {
        self.total_sent == u128::MAX || self.total_sent + self.sent.len() == self.segments_taken
    }

    /// Under a rate limit, the count of segments sent is what it was when
    /// the current rate bucket began and what was sent in the bucket, and
    /// what it was then is no more than a tenth of the limit for each bucket
    /// before; unless the count has reached its largest value.
    pub open spec fn bucket_is_counted(self) -> bool {
        self.rate_limit matches Some(limit) ==> self.total_sent == u128::MAX || {
            &&& self.total_sent == self.sent_at_rollover + self.bucket_sent
            &&& self.sent_at_rollover <= (limit / BUCKETS_PER_SECOND) * self.rollovers
        }
    }

    /// Each rate bucket lasts its full length: the current one ends no
    /// earlier than a bucket's length after the scan began for itself and
    /// for each bucket before it.
    pub open spec fn paced(self) -> bool {
        self.bucket_deadline >= self.started_at + RATE_LIMIT_RESOLUTION * (self.rollovers + 1)
    }

    /// The last send phase that sent anything was no earlier than a
    /// bucket's length after the scan began for each rate bucket before its
    /// own; and under a rate limit no more was sent by then, and since, than
    /// a tenth of the limit for its own bucket and for each bucket before;
    /// unless the count has reached its largest value.
    pub open spec fn last_send_is_paced(self) -> bool {
        &&& self.total_sent > 0 ==> self.last_sent_at >= self.started_at + RATE_LIMIT_RESOLUTION
            * self.rollovers_at_last_send
        &&& self.rate_limit matches Some(limit) ==> self.total_sent == u128::MAX || self.total_sent
            <= (limit / BUCKETS_PER_SECOND) * (self.rollovers_at_last_send + 1)
    }

    /// The batch that was sent last is in the expiry queue until its
    /// deadline has come.
    pub open spec fn last_batch_waits(self) -> bool {
        self.total_sent > 0 ==> self.last_sent_at + self.timeout <= self.clock || (
        self.expiry.len() > 0 && self.expiry.last().deadline == self.last_sent_at + self.timeout)
    }

    /// Nothing was sent and no rate bucket has begun.
    pub open spec fn untouched(self) -> bool {
        &&& self.total_sent == 0
        &&& self.bucket_sent == 0
        &&& self.rollovers == 0
        &&& self.sent_at_rollover == 0
    }

    /// No probe has been through more timeouts than there are retries.
    pub open spec fn retries_bounded(self) -> bool {
        forall|probe: Probe|
            self.retry_tracker.contains_key(probe) ==> #[trigger] self.retry_tracker[probe]
                <= self.retries
    }

    /// What holds at every moment of a scan, between steps and within them.
    pub open spec fn sound(self) -> bool {
        &&& self.inflight.finite()
        &&& self.probes_known()
        &&& self.deadlines_ordered()
        &&& self.sent_covers_settled()
        &&& self.retries_bounded()
        &&& self.bucket_deadline <= self.clock + RATE_LIMIT_RESOLUTION
        &&& self.bucket_not_overfilled()
        &&& self.sent_is_counted()
        &&& self.bucket_is_counted()
        &&& self.paced()
        &&& self.last_send_is_paced()
        &&& self.last_batch_waits()
        &&& self.source_ipv4.len() == 0 || self.next_ipv4 < self.source_ipv4.len()
        &&& self.source_ipv6.len() == 0 || self.next_ipv6 < self.source_ipv6.len()
    }

    /// Each family has a current source address exactly when it has any.
    pub open spec fn sources_turned(self) -> bool {
        &&& self.current_ipv4 is Some <==> self.source_ipv4.len() > 0
        &&& self.current_ipv6 is Some <==> self.source_ipv6.len() > 0
    }

    /// No send phase is under way.
    pub open spec fn between_phases(self) -> bool {
        &&& self.sound()
        &&& self.pending is None
        &&& self.sent.len() == 0
    }

    /// A send phase is under way and no probe is being sent.
    pub open spec fn in_send_phase(self) -> bool {
        &&& self.sound()
        &&& self.sources_turned()
        &&& self.pending is None
        &&& self.sent.len() + self.slots <= BATCH_SEND_SIZE
        &&& self.batch_fits_bucket()
    }

    /// What the phase says of the rest of the state.
    pub open spec fn phase_ok(self) -> bool {
        &&& self.phase_goes_on() ==> self.sources_turned()
        &&& self.phase_fits()
        &&& self.ending() && self.outcome is Ok ==> self.nothing_left()
        &&& self.phase == Phase::Idle ==> self.untouched()
    }

    /// The scan is making its last reports or is over.
    pub open spec fn ending(self) -> bool {
        self.phase == Phase::FinalStats || self.phase == Phase::FinalResults || self.phase
            == Phase::Done
    }

    /// No probe is upstream, waiting to be sent, being sent or in flight.
    pub open spec fn nothing_left(self) -> bool {
        &&& self.upstream.len() == 0
        &&& self.requeue.len() == 0
        &&& self.pending is None
        &&& self.sent.len() == 0
        &&& self.inflight == Set::<Probe>::empty()
    }

    /// The phase is one of an iteration, after which more may be sent.
    pub open spec fn phase_goes_on(self) -> bool {
        match self.phase {
            Phase::Idle | Phase::FinalStats | Phase::FinalResults | Phase::Done => false,
            _ => true,
        }
    }

    /// What the phase says of the send and receive phases.
    pub open spec fn phase_fits(self) -> bool {
        match self.phase {
            Phase::Sending => {
                &&& self.pending is Some
                &&& self.sent.len() + self.slots < BATCH_SEND_SIZE
                &&& self.batch_fits_bucket()
            },
            Phase::Receiving(_) => {
                &&& self.pending is None
                &&& self.sent.len() == 0
                &&& self.drained < BATCH_RECV_SIZE
            },
            Phase::Done => true,
            _ => self.pending is None && self.sent.len() == 0,
        }
    }

    /// The invariant of a scan: what holds whenever the engine waits for an
    /// event.
    pub open spec fn inv(self) -> bool {
        self.sound() && self.phase_ok()
    }
}

/// What a step's action says of the state that the step leaves: statistics
/// are the state's counters, results are added to what has been reported,
/// and nothing else changes what has been reported or what the scan is for.
pub open spec fn faithful(before: EngineState, after: EngineState, action: ActionView) -> bool {
    &&& after.targets == before.targets
    &&& match action {
        ActionView::Report(WorkMessageView::Stats(stats)) => stats == after.stats()
            && after.reported == before.reported,
        ActionView::Report(WorkMessageView::Results(results)) => after.reported == before.reported
            + results,
        _ => after.reported == before.reported,
    }
}

/// A scan that has not begun meets the invariant.
pub proof fn lemma_initial_state(
    upstream: Seq<Probe>,
    retries: u8,
    timeout: u64,
    rate_limit: Option<usize>,
    source_ipv4: Seq<u32>,
    source_ipv6: Seq<u128>,
    listening_port: u16,
    tcp_seq: u32,
)
    ensures
        initial_state(
            upstream,
            retries,
            timeout,
            rate_limit,
            source_ipv4,
            source_ipv6,
            listening_port,
            tcp_seq,
        ).inv(),
{
    assert forall|i: int| 0 <= i < upstream.len() implies upstream.to_set().contains(
        #[trigger] upstream[i],
    ) by {
        assert(upstream.contains(upstream[i]));
    }
}

/// Telling the time keeps the invariant.
pub proof fn lemma_at(s: EngineState, now: u64)
    requires
        s.sound(),
    ensures
        s.at(now).sound(),
        s.phase_ok() ==> s.at(now).phase_ok(),
        s.at(now).not_behind(s),
{
}

/// Refilling keeps the invariant.
pub proof fn lemma_refill(s: EngineState)
    requires
        s.between_phases(),
    ensures
        s.refill().between_phases(),
        s.refill().targets == s.targets,
        s.refill().reported == s.reported,
        s.refill().not_behind(s),
{
    let n = s.refill_count();
    let r = s.refill();
    assert forall|i: int| 0 <= i < r.requeue.len() implies s.targets.contains(
        #[trigger] r.requeue[i],
    ) by {
        if i < s.requeue.len() {
            assert(r.requeue[i] == s.requeue[i]);
        } else {
            assert(r.requeue[i] == s.upstream[i - s.requeue.len()]);
        }
    }
    assert forall|i: int| 0 <= i < r.upstream.len() implies s.targets.contains(
        #[trigger] r.upstream[i],
    ) by {
        assert(r.upstream[i] == s.upstream[i + n]);
    }
}

/// The end of a send phase keeps the invariant.
pub proof fn lemma_close_batch(s: EngineState)
    requires
        s.sound(),
        s.pending is None,
        s.batch_fits_bucket(),
    ensures
        s.close_batch().between_phases(),
        s.close_batch().targets == s.targets,
        s.close_batch().reported == s.reported,
        s.close_batch().phase == s.phase,
        s.close_batch().not_behind(s),
{
    let c = s.close_batch();
    if s.sent.len() > 0 {
        match s.rate_limit {
            Some(limit) => {
                let cap = (limit / BUCKETS_PER_SECOND) as int;
                let before = s.rollovers as int;
                assert(cap * (before + 1) == cap * before + cap) by (nonlinear_arith);
            },
            None => {},
        }
        seq_to_set_is_finite(s.sent);
        s.sent.lemma_cardinality_of_set();
        lemma_len_union(s.inflight, s.sent.to_set());
        assert forall|i: int, j: int| 0 <= i <= j < c.expiry.len() implies (#[trigger] c.expiry[i]).deadline
            <= (#[trigger] c.expiry[j]).deadline by {
            if j < s.expiry.len() {
                assert(c.expiry[i] == s.expiry[i] && c.expiry[j] == s.expiry[j]);
            } else if i < s.expiry.len() {
                assert(c.expiry[i] == s.expiry[i]);
            }
        }
        assert forall|i: int| 0 <= i < c.expiry.len() implies (#[trigger] c.expiry[i]).deadline
            <= c.clock + c.timeout by {
            if i < s.expiry.len() {
                assert(c.expiry[i] == s.expiry[i]);
            }
        }
        assert forall|p: Probe| c.inflight.contains(p) implies s.targets.contains(p) by {
            if !s.inflight.contains(p) {
                let i = choose|i: int| 0 <= i < s.sent.len() && s.sent[i] == p;
                assert(s.targets.contains(s.sent[i]));
            }
        }
    }
}

/// Taking in a segment keeps the invariant.
pub proof fn lemma_record_open_socket(s: EngineState, header: TcpHeader, remote: IpAddress)
    requires
        s.between_phases(),
    ensures
        s.record_open_socket(header, remote).between_phases(),
        s.record_open_socket(header, remote).targets == s.targets,
        s.record_open_socket(header, remote).reported == s.reported,
        s.record_open_socket(header, remote).phase == s.phase,
        s.record_open_socket(header, remote).drained == s.drained,
        s.record_open_socket(header, remote).not_behind(s),
{
    let r = s.record_open_socket(header, remote);
    let probe = Probe { ip: remote, port: header.source };
    if header.spec_signals_open(s.listening_port) && s.inflight.contains(probe) {
        assert forall|i: int| 0 <= i < r.open_ports.len() implies s.targets.contains(
            #[trigger] r.open_ports[i],
        ) by {
            if i < s.open_ports.len() {
                assert(r.open_ports[i] == s.open_ports[i]);
            }
        }
    }
}

/// A probe's timeout keeps the invariant.
pub proof fn lemma_expire_probe(s: EngineState, probe: Probe)
    requires
        s.between_phases(),
    ensures
        s.expire_probe(probe).between_phases(),
        s.expire_probe(probe).targets == s.targets,
        s.expire_probe(probe).reported == s.reported,
        s.expire_probe(probe).phase == s.phase,
        s.expire_probe(probe).not_behind(s),
{
    let r = s.expire_probe(probe);
    if s.inflight.contains(probe) {
        assert forall|i: int| 0 <= i < r.requeue.len() implies s.targets.contains(
            #[trigger] r.requeue[i],
        ) by {
            if i < s.requeue.len() {
                assert(r.requeue[i] == s.requeue[i]);
            }
        }
    }
}

/// A batch's timeout keeps the invariant.
pub proof fn lemma_expire_batch(s: EngineState, probes: Seq<Probe>)
    requires
        s.between_phases(),
    ensures
        s.expire_batch(probes).between_phases(),
        s.expire_batch(probes).targets == s.targets,
        s.expire_batch(probes).reported == s.reported,
        s.expire_batch(probes).phase == s.phase,
        s.expire_batch(probes).not_behind(s),
    decreases probes.len(),
{
    if probes.len() > 0 {
        lemma_expire_probe(s, probes[0]);
        lemma_expire_batch(s.expire_probe(probes[0]), probes.skip(1));
    }
}

/// No more batches are due than the queue holds.
pub proof fn lemma_due_batches_bound(expiry: Seq<ExpiryView>, clock: u64)
    ensures
        due_batches(expiry, clock) <= expiry.len(),
    decreases expiry.len(),
{
    if expiry.len() > 0 && expiry[0].deadline <= clock {
        lemma_due_batches_bound(expiry.skip(1), clock);
    }
}

/// The batches at the head of the expiry queue that are counted as due have
/// deadlines that have come.
pub proof fn lemma_due_batches_are_due(expiry: Seq<ExpiryView>, clock: u64, i: int)
    requires
        0 <= i < due_batches(expiry, clock),
    ensures
        i < expiry.len(),
        expiry[i].deadline <= clock,
    decreases expiry.len(),
{
    if i > 0 {
        lemma_due_batches_are_due(expiry.skip(1), clock, i - 1);
        assert(expiry.skip(1)[i - 1] == expiry[i]);
    }
}

/// Taking the due batches off the expiry queue keeps the invariant.
pub proof fn lemma_cut_expiry(s: EngineState)
    requires
        s.between_phases(),
    ensures
        (EngineState {
            expiry: s.expiry.skip(due_batches(s.expiry, s.clock) as int),
            ..s
        }).between_phases(),
{
    let k = due_batches(s.expiry, s.clock) as int;
    lemma_due_batches_bound(s.expiry, s.clock);
    let popped = EngineState { expiry: s.expiry.skip(k), ..s };
    assert forall|i: int, j: int| 0 <= i <= j < popped.expiry.len() implies (
    #[trigger] popped.expiry[i]).deadline <= (#[trigger] popped.expiry[j]).deadline by {
        assert(popped.expiry[i] == s.expiry[i + k] && popped.expiry[j] == s.expiry[j + k]);
    }
    assert forall|i: int| 0 <= i < popped.expiry.len() implies (#[trigger] popped.expiry[i]).deadline
        <= popped.clock + popped.timeout by {
        assert(popped.expiry[i] == s.expiry[i + k]);
    }
    if s.expiry.len() > 0 {
        if k == s.expiry.len() {
            lemma_due_batches_are_due(s.expiry, s.clock, k - 1);
        } else {
            assert(popped.expiry.last() == s.expiry.last());
        }
    }
}

/// Working off the timeouts keeps the invariant.
pub proof fn lemma_process_expiration(s: EngineState)
    requires
        s.between_phases(),
    ensures
        s.process_expiration().between_phases(),
        s.process_expiration().targets == s.targets,
        s.process_expiration().reported == s.reported,
        s.process_expiration().phase == s.phase,
        s.process_expiration().not_behind(s),
{
    let k = due_batches(s.expiry, s.clock) as int;
    let popped = EngineState { expiry: s.expiry.skip(k), ..s };
    lemma_cut_expiry(s);
    lemma_expire_batch(popped, due_probes(s.expiry, s.clock));
}

/// The last reports keep the invariant.
pub proof fn lemma_finish(s: EngineState, outcome: Result<(), ScanError>)
    requires
        s.between_phases(),
        outcome is Ok ==> s.nothing_left(),
    ensures
        s.finish(outcome).0.inv(),
        faithful(s, s.finish(outcome).0, s.finish(outcome).1),
        s.finish(outcome).0.not_behind(s),
{
}

/// The send phase keeps the invariant.
pub proof fn lemma_send_packets(s: EngineState)
    requires
        s.in_send_phase(),
    ensures
        s.send_packets().0.inv(),
        faithful(s, s.send_packets().0, s.send_packets().1),
        s.send_packets().0.not_behind(s),
    decreases s.slots,
{
    if s.slots == 0 || s.requeue.len() == 0 {
        lemma_close_batch(s);
    } else {
        let probe = s.requeue.last();
        let taken = EngineState {
            requeue: s.requeue.drop_last(),
            slots: (s.slots - 1) as usize,
            ..s
        };
        assert(all_in(taken.requeue, s.targets)) by {
            assert forall|i: int| 0 <= i < taken.requeue.len() implies s.targets.contains(
                #[trigger] taken.requeue[i],
            ) by {
                assert(taken.requeue[i] == s.requeue[i]);
            }
        }
        assert(s.targets.contains(s.requeue[s.requeue.len() - 1]));
        if taken.segment_for(probe, crate::packet::next_sequence(s.tcp_seq)) is None {
            lemma_send_packets(
                EngineState {
                    skipped: saturating_inc(taken.skipped),
                    dropped: taken.dropped.insert(probe),
                    ..taken
                },
            );
        }
    }
}

/// The choice between sending and sleeping keeps the invariant.
pub proof fn lemma_send_or_sleep(s: EngineState)
    requires
        s.between_phases(),
        s.sources_turned(),
    ensures
        s.send_or_sleep().0.inv(),
        faithful(s, s.send_or_sleep().0, s.send_or_sleep().1),
        s.send_or_sleep().0.not_behind(s),
{
    if s.rate_limit_unviolated() {
        lemma_send_packets(EngineState { sent: Seq::empty(), slots: s.batch_room(), ..s });
    }
}

/// The beginning of an iteration keeps the invariant.
pub proof fn lemma_begin_iteration(s: EngineState)
    requires
        s.between_phases(),
    ensures
        s.begin_iteration().0.inv(),
        faithful(s, s.begin_iteration().0, s.begin_iteration().1),
        s.begin_iteration().0.not_behind(s),
{
    lemma_refill(s);
    let filled = s.refill();
    if filled.settled() {
        assert(filled.inflight =~= Set::<Probe>::empty());
        lemma_finish(filled, Ok(()));
    } else {
        let turned = filled.rotate_sources();
        if turned.bucket_is_due() {
            match turned.rate_limit {
                Some(limit) => {
                    let cap = (limit / BUCKETS_PER_SECOND) as int;
                    let before = turned.rollovers as int;
                    assert(cap * (before + 1) == cap * before + cap) by (nonlinear_arith);
                },
                None => {},
            }
        } else {
            lemma_send_or_sleep(turned);
        }
    }
}

/// The report of what was found keeps the invariant.
pub proof fn lemma_emit_results(s: EngineState)
    requires
        s.between_phases(),
        s.sources_turned(),
    ensures
        s.emit_results().0.inv(),
        faithful(s, s.emit_results().0, s.emit_results().1),
        s.emit_results().0.not_behind(s),
{
    if s.open_ports.len() == 0 {
        lemma_process_expiration(s);
        lemma_begin_iteration(s.process_expiration());
    }
}

/// Handing over the results keeps the invariant.
pub proof fn lemma_hand_over_results(s: EngineState, phase: Phase)
    requires
        s.between_phases(),
        phase == Phase::EmitResults ==> s.sources_turned(),
        phase == Phase::FinalResults && s.outcome is Ok ==> s.nothing_left(),
        phase == Phase::EmitResults || phase == Phase::FinalResults,
    ensures
        s.hand_over_results(phase).0.inv(),
        faithful(s, s.hand_over_results(phase).0, s.hand_over_results(phase).1),
        s.hand_over_results(phase).0.not_behind(s),
{
    let r = s.hand_over_results(phase).0;
    assert forall|i: int| 0 <= i < r.reported.len() implies s.targets.contains(
        #[trigger] r.reported[i],
    ) by {
        if i < s.reported.len() {
            assert(r.reported[i] == s.reported[i]);
        } else {
            assert(r.reported[i] == s.open_ports[i - s.reported.len()]);
        }
    }
}

/// Going from one socket to the next keeps the invariant.
pub proof fn lemma_next_receiver(s: EngineState, family: IpFamily)
    requires
        s.between_phases(),
        s.sources_turned(),
    ensures
        s.next_receiver(family).0.inv(),
        faithful(s, s.next_receiver(family).0, s.next_receiver(family).1),
        s.next_receiver(family).0.not_behind(s),
{
    if family == IpFamily::V6 {
        lemma_emit_results(s);
    }
}

/// Every step keeps the invariant, and its action is faithful to the state
/// it leaves.
pub proof fn lemma_process_work(s: EngineState, event: Event, now: u64)
    requires
        s.inv(),
    ensures
        s.process_work(event, now).0.inv(),
        faithful(s, s.process_work(event, now).0, s.process_work(event, now).1),
        s.process_work(event, now).0.not_behind(s),
{
    lemma_at(s, now);
    let t = s.at(now);
    match (t.phase, event) {
        (Phase::Idle, Event::Start) => {
            lemma_begin_iteration(t.start_clock());
        },
        (Phase::TickStats, Event::Reported) => {
            lemma_send_or_sleep(t);
        },
        (Phase::Sending, Event::Sent) => {
            let u = t.pending_sent();
            assert(all_in(u.sent, t.targets)) by {
                assert forall|i: int| 0 <= i < u.sent.len() implies t.targets.contains(
                    #[trigger] u.sent[i],
                ) by {
                    if i < t.sent.len() {
                        assert(u.sent[i] == t.sent[i]);
                    }
                }
            }
            lemma_send_packets(u);
        },
        (Phase::Sending, Event::WouldBlock) => {
            let u = t.requeue_pending();
            assert(all_in(u.requeue, t.targets)) by {
                assert forall|i: int| 0 <= i < u.requeue.len() implies t.targets.contains(
                    #[trigger] u.requeue[i],
                ) by {
                    if i < t.requeue.len() {
                        assert(u.requeue[i] == t.requeue[i]);
                    }
                }
            }
            lemma_close_batch(u);
        },
        (Phase::Sending, Event::SendFailed) => {
            let u = t.requeue_pending();
            assert(all_in(u.requeue, t.targets)) by {
                assert forall|i: int| 0 <= i < u.requeue.len() implies t.targets.contains(
                    #[trigger] u.requeue[i],
                ) by {
                    if i < t.requeue.len() {
                        assert(u.requeue[i] == t.requeue[i]);
                    }
                }
            }
            lemma_close_batch(u);
            lemma_finish(u.close_batch(), Err(ScanError::Socket));
        },
        (Phase::Sleeping, Event::Woke) => {},
        (Phase::Receiving(family), Event::Received { header, remote }) => {
            lemma_record_open_socket(t, header, remote);
            let taken = EngineState {
                drained: (t.drained + 1) as usize,
                ..t.record_open_socket(header, remote)
            };
            if taken.drained >= BATCH_RECV_SIZE {
                lemma_next_receiver(taken, family);
            }
        },
        (Phase::Receiving(family), Event::NothingReceived) => {
            lemma_next_receiver(t, family);
        },
        (Phase::Receiving(_), Event::ReceiveFailed) => {
            lemma_finish(t, Err(ScanError::Socket));
        },
        (Phase::EmitStats, Event::Reported) => {
            lemma_hand_over_results(t, Phase::EmitResults);
        },
        (Phase::EmitResults, Event::Reported) => {
            lemma_process_expiration(t);
            lemma_begin_iteration(t.process_expiration());
        },
        (Phase::FinalStats, Event::Reported) => {
            lemma_hand_over_results(t, Phase::FinalResults);
        },
        _ => {},
    }
}

/// Whenever statistics are reported, the count of segments sent is at least
/// the count of settled probes.
pub proof fn lemma_stats_sent_at_least_processed(s: EngineState, event: Event, now: u64)
    requires
        s.inv(),
    ensures
        s.process_work(event, now).1 matches ActionView::Report(WorkMessageView::Stats(stats))
            ==> stats.total_packets_sent >= stats.total_processed_ports,
{
    lemma_process_work(s, event, now);
}

/// Whatever is reported open is a probe of the scan, and the reports add up
/// to what the engine records as reported.
pub proof fn lemma_results_are_targets(s: EngineState, event: Event, now: u64)
    requires
        s.inv(),
    ensures
        s.process_work(event, now).1 matches ActionView::Report(WorkMessageView::Results(results))
            ==> all_in(results, s.targets) && s.process_work(event, now).0.reported == s.reported
            + results,
        all_in(s.reported, s.targets),
        s.process_work(event, now).0.targets == s.targets,
{
    lemma_process_work(s, event, now);
    let after = s.process_work(event, now).0;
    match s.process_work(event, now).1 {
        ActionView::Report(WorkMessageView::Results(results)) => {
            assert forall|i: int| 0 <= i < results.len() implies s.targets.contains(
                #[trigger] results[i],
            ) by {
                assert(after.reported[s.reported.len() + i] == results[i]);
            }
        },
        _ => {},
    }
}

/// Whatever a scan of the product of `hosts` and `ports` reports open is one
/// of the hosts with one of the ports.
pub proof fn lemma_results_are_hosts_with_ports(
    s: EngineState,
    event: Event,
    now: u64,
    hosts: Seq<IpAddress>,
    ports: Seq<u16>,
)
    requires
        s.inv(),
        s.targets == product(hosts, ports).to_set(),
    ensures
        s.process_work(event, now).1 matches ActionView::Report(WorkMessageView::Results(results))
            ==> forall|i: int|
            0 <= i < results.len() ==> hosts.contains((#[trigger] results[i]).ip) && ports.contains(
                results[i].port,
            ),
{
    lemma_results_are_targets(s, event, now);
    match s.process_work(event, now).1 {
        ActionView::Report(WorkMessageView::Results(results)) => {
            assert forall|i: int| 0 <= i < results.len() implies hosts.contains(
                (#[trigger] results[i]).ip,
            ) && ports.contains(results[i].port) by {
                assert(s.targets.contains(results[i]));
                lemma_product_contains(hosts, ports, results[i]);
            }
        },
        _ => {},
    }
}

/// No probe has been through more timeouts than there are retries.
pub proof fn lemma_retry_counts_bounded(s: EngineState, probe: Probe)
    requires
        s.inv(),
        s.retry_tracker.contains_key(probe),
    ensures
        s.retry_tracker[probe] <= s.retries,
{
}

/// The deadlines in the expiry queue never decrease from one batch to the
/// next.
pub proof fn lemma_deadlines_never_decrease(s: EngineState, i: int, j: int)
    requires
        s.inv(),
        0 <= i <= j < s.expiry.len(),
    ensures
        s.expiry[i].deadline <= s.expiry[j].deadline,
{
}

/// Results are reported right after statistics: the report before a report
/// of results is one of statistics, taken when the results were already
/// found and counted.
pub proof fn lemma_results_follow_their_statistics(s: EngineState, event: Event, now: u64)
    requires
        s.inv(),
    ensures
        s.process_work(event, now).1 matches ActionView::Report(WorkMessageView::Results(results))
            ==> (s.phase == Phase::EmitStats || s.phase == Phase::FinalStats) && event
            == Event::Reported && results == s.open_ports && s.process_work(event, now).0.stats()
            == s.stats(),
        s.process_work(event, now).0.phase == Phase::EmitStats || s.process_work(
            event,
            now,
        ).0.phase == Phase::FinalStats ==> s.phase == s.process_work(event, now).0.phase
            || s.process_work(event, now).1 == ActionView::Report(
            WorkMessageView::Stats(s.process_work(event, now).0.stats()),
        ),
{
    lemma_process_work(s, event, now);
    lemma_at(s, now);
    let t = s.at(now);
    match (t.phase, event) {
        (Phase::Idle, Event::Start) => {
            lemma_begin_iteration_actions(t.start_clock());
        },
        (Phase::TickStats, Event::Reported) => {
            lemma_send_or_sleep_actions(t);
        },
        (Phase::Sending, Event::Sent) => {
            lemma_send_packets_actions(t.pending_sent());
        },
        (Phase::Receiving(family), Event::Received { header, remote }) => {
            lemma_record_open_socket(t, header, remote);
            let taken = EngineState {
                drained: (t.drained + 1) as usize,
                ..t.record_open_socket(header, remote)
            };
            if taken.drained >= BATCH_RECV_SIZE {
                lemma_next_receiver_actions(taken, family);
            }
        },
        (Phase::Receiving(family), Event::NothingReceived) => {
            lemma_next_receiver_actions(t, family);
        },
        (Phase::EmitResults, Event::Reported) => {
            lemma_begin_iteration_actions(t.process_expiration());
        },
        _ => {},
    }
}

/// A send phase reports no results, and where it leads to a report of
/// statistics, that report is its action.
pub proof fn lemma_send_packets_actions(s: EngineState)
    ensures
        !(s.send_packets().1 is Report),
        s.send_packets().0.phase == Phase::Sending || s.send_packets().0.phase
            == Phase::Receiving(IpFamily::V4),
    decreases s.slots,
{
    if !(s.slots == 0 || s.requeue.len() == 0) {
        let probe = s.requeue.last();
        let taken = EngineState {
            requeue: s.requeue.drop_last(),
            slots: (s.slots - 1) as usize,
            ..s
        };
        if taken.segment_for(probe, crate::packet::next_sequence(s.tcp_seq)) is None {
            lemma_send_packets_actions(
                EngineState {
                    skipped: saturating_inc(taken.skipped),
                    dropped: taken.dropped.insert(probe),
                    ..taken
                },
            );
        }
    }
}

/// The choice between sending and sleeping reports nothing.
pub proof fn lemma_send_or_sleep_actions(s: EngineState)
    ensures
        !(s.send_or_sleep().1 is Report),
        s.send_or_sleep().0.phase == Phase::Sending || s.send_or_sleep().0.phase
            == Phase::Receiving(IpFamily::V4) || s.send_or_sleep().0.phase == Phase::Sleeping,
{
    if s.rate_limit_unviolated() {
        lemma_send_packets_actions(
            EngineState { sent: Seq::empty(), slots: s.batch_room(), ..s },
        );
    }
}

/// The beginning of an iteration reports no results, and where it leads to
/// a report of statistics, that report is its action.
pub proof fn lemma_begin_iteration_actions(s: EngineState)
    ensures
        !(s.begin_iteration().1 matches ActionView::Report(WorkMessageView::Results(_))),
        s.begin_iteration().0.phase != Phase::EmitStats,
        s.begin_iteration().0.phase == Phase::FinalStats ==> s.begin_iteration().1
            == ActionView::Report(WorkMessageView::Stats(s.begin_iteration().0.stats())),
{
    let filled = s.refill();
    if !filled.settled() {
        let turned = filled.rotate_sources();
        if !turned.bucket_is_due() {
            lemma_send_or_sleep_actions(turned);
        }
    }
}

/// Going from one socket to the next reports no results, and where it leads
/// to a report of statistics, that report is its action.
pub proof fn lemma_next_receiver_actions(s: EngineState, family: IpFamily)
    ensures
        !(s.next_receiver(family).1 matches ActionView::Report(WorkMessageView::Results(_))),
        s.next_receiver(family).0.phase == Phase::EmitStats || s.next_receiver(family).0.phase
            == Phase::FinalStats ==> s.next_receiver(family).1 == ActionView::Report(
            WorkMessageView::Stats(s.next_receiver(family).0.stats()),
        ),
{
    if family == IpFamily::V6 && s.open_ports.len() == 0 {
        lemma_begin_iteration_actions(s.process_expiration());
    }
}

/// In no rate bucket are more segments sent than a tenth of the limit.
pub proof fn lemma_bucket_never_overfilled(s: EngineState)
    requires
        s.inv(),
    ensures
        s.rate_limit matches Some(limit) ==> s.bucket_sent <= limit / BUCKETS_PER_SECOND,
{
}

/// The count of segments sent is the number of segments that the sockets
/// took before the send phase under way, unless it has reached its largest
/// value.
pub proof fn lemma_sent_segments_are_counted(s: EngineState)
    requires
        s.inv(),
    ensures
        s.total_sent == u128::MAX || s.total_sent + s.sent.len() == s.segments_taken,
{
}

/// A scan that ends without an error has no probe left upstream, waiting to
/// be sent or in flight.
pub proof fn lemma_clean_end_leaves_nothing(s: EngineState)
    requires
        s.inv(),
        s.ending(),
        s.outcome is Ok,
    ensures
        s.nothing_left(),
        s.stats().current_inflight_packets == 0,
{
}

/// Whatever a scan is told, it keeps the invariant and its counters never
/// fall; what it reports open adds up to what it records as reported, and
/// is all probes of the scan.
pub proof fn lemma_scan_keeps_invariant(start: EngineState, steps: Seq<Step>)
    requires
        start.inv(),
    ensures
        scan_after(start, steps).inv(),
        scan_after(start, steps).not_behind(start),
        scan_after(start, steps).targets == start.targets,
        scan_after(start, steps).reported == start.reported + results_during(start, steps),
        all_in(results_during(start, steps), start.targets),
    decreases steps.len(),
{
    if steps.len() == 0 {
        assert(start.reported + Seq::<Probe>::empty() =~= start.reported);
    } else {
        let before = scan_after(start, steps.drop_last());
        let after = scan_after(start, steps);
        lemma_scan_keeps_invariant(start, steps.drop_last());
        lemma_process_work(before, steps.last().event, steps.last().now);
        let earlier = results_during(start, steps.drop_last());
        let all = results_during(start, steps);
        assert(after.reported =~= start.reported + all) by {
            match before.process_work(steps.last().event, steps.last().now).1 {
                ActionView::Report(WorkMessageView::Results(results)) => {
                    assert(start.reported + earlier + results =~= start.reported + (earlier
                        + results));
                },
                _ => {
                    assert(earlier + Seq::<Probe>::empty() =~= earlier);
                },
            }
        }
        assert forall|i: int| 0 <= i < all.len() implies start.targets.contains(#[trigger] all[i]) by {
            assert(after.reported[start.reported.len() + i] == all[i]);
        }
    }
}

/// In every scan, whenever statistics are reported, the count of segments
/// sent is at least the count of settled probes.
pub proof fn lemma_every_statistics_counts_sent_at_least_processed(
    start: EngineState,
    steps: Seq<Step>,
)
    requires
        start.inv(),
        steps.len() > 0,
    ensures
        scan_after(start, steps.drop_last()).process_work(
            steps.last().event,
            steps.last().now,
        ).1 matches ActionView::Report(WorkMessageView::Stats(stats)) ==> stats.total_packets_sent
            >= stats.total_processed_ports,
{
    lemma_scan_keeps_invariant(start, steps.drop_last());
    lemma_stats_sent_at_least_processed(
        scan_after(start, steps.drop_last()),
        steps.last().event,
        steps.last().now,
    );
}

/// In every scan of the product of `hosts` and `ports`, whatever is
/// reported open is one of the hosts with one of the ports.
pub proof fn lemma_every_result_is_a_host_with_a_port(
    start: EngineState,
    steps: Seq<Step>,
    hosts: Seq<IpAddress>,
    ports: Seq<u16>,
)
    requires
        start.inv(),
        start.targets == product(hosts, ports).to_set(),
    ensures
        forall|i: int|
            0 <= i < results_during(start, steps).len() ==> hosts.contains(
                (#[trigger] results_during(start, steps)[i]).ip,
            ) && ports.contains(results_during(start, steps)[i].port),
{
    lemma_scan_keeps_invariant(start, steps);
    let all = results_during(start, steps);
    assert forall|i: int| 0 <= i < all.len() implies hosts.contains((#[trigger] all[i]).ip)
        && ports.contains(all[i].port) by {
        assert(start.targets.contains(all[i]));
        lemma_product_contains(hosts, ports, all[i]);
    }
}

/// In every scan, no probe is ever recorded with more timeouts than there
/// are retries.
pub proof fn lemma_no_probe_ever_exceeds_the_retries(
    start: EngineState,
    steps: Seq<Step>,
    probe: Probe,
)
    requires
        start.inv(),
        scan_after(start, steps).retry_tracker.contains_key(probe),
    ensures
        scan_after(start, steps).retry_tracker[probe] <= start.retries,
{
    lemma_scan_keeps_invariant(start, steps);
    lemma_scan_keeps_parameters(start, steps);
}

/// A scan never changes what it was asked for.
pub proof fn lemma_scan_keeps_parameters(start: EngineState, steps: Seq<Step>)
    ensures
        scan_after(start, steps).retries == start.retries,
        scan_after(start, steps).timeout == start.timeout,
        scan_after(start, steps).rate_limit == start.rate_limit,
        scan_after(start, steps).listening_port == start.listening_port,
        scan_after(start, steps).source_ipv4 == start.source_ipv4,
        scan_after(start, steps).source_ipv6 == start.source_ipv6,
    decreases steps.len(),
{
    if steps.len() > 0 {
        lemma_scan_keeps_parameters(start, steps.drop_last());
        lemma_step_keeps_parameters(
            scan_after(start, steps.drop_last()),
            steps.last().event,
            steps.last().now,
        );
    }
}

/// What a scan was asked for is the same in `s` and in `t`.
pub open spec fn same_parameters(s: EngineState, t: EngineState) -> bool {
    &&& t.retries == s.retries
    &&& t.timeout == s.timeout
    &&& t.rate_limit == s.rate_limit
    &&& t.listening_port == s.listening_port
    &&& t.source_ipv4 == s.source_ipv4
    &&& t.source_ipv6 == s.source_ipv6
}

/// A send phase never changes what the scan was asked for.
pub proof fn lemma_send_packets_keeps_parameters(s: EngineState)
    ensures
        same_parameters(s, s.send_packets().0),
    decreases s.slots,
{
    if !(s.slots == 0 || s.requeue.len() == 0) {
        let probe = s.requeue.last();
        let taken = EngineState {
            requeue: s.requeue.drop_last(),
            slots: (s.slots - 1) as usize,
            ..s
        };
        if taken.segment_for(probe, crate::packet::next_sequence(s.tcp_seq)) is None {
            lemma_send_packets_keeps_parameters(
                EngineState {
                    skipped: saturating_inc(taken.skipped),
                    dropped: taken.dropped.insert(probe),
                    ..taken
                },
            );
        }
    }
}

/// Timeouts never change what the scan was asked for.
pub proof fn lemma_expire_batch_keeps_parameters(s: EngineState, probes: Seq<Probe>)
    ensures
        same_parameters(s, s.expire_batch(probes)),
    decreases probes.len(),
{
    if probes.len() > 0 {
        lemma_expire_batch_keeps_parameters(s.expire_probe(probes[0]), probes.skip(1));
    }
}

/// The beginning of an iteration never changes what the scan was asked for.
pub proof fn lemma_begin_iteration_keeps_parameters(s: EngineState)
    ensures
        same_parameters(s, s.begin_iteration().0),
{
    let filled = s.refill();
    if !filled.settled() {
        let turned = filled.rotate_sources();
        if !turned.bucket_is_due() {
            if turned.rate_limit_unviolated() {
                lemma_send_packets_keeps_parameters(
                    EngineState { sent: Seq::empty(), slots: turned.batch_room(), ..turned },
                );
            }
        }
    }
}

/// A step never changes what the scan was asked for.
pub proof fn lemma_step_keeps_parameters(s: EngineState, event: Event, now: u64)
    ensures
        same_parameters(s, s.process_work(event, now).0),
{
    let t = s.at(now);
    match (t.phase, event) {
        (Phase::Idle, Event::Start) => {
            lemma_begin_iteration_keeps_parameters(t.start_clock());
        },
        (Phase::TickStats, Event::Reported) => {
            if t.rate_limit_unviolated() {
                lemma_send_packets_keeps_parameters(
                    EngineState { sent: Seq::empty(), slots: t.batch_room(), ..t },
                );
            }
        },
        (Phase::Sending, Event::Sent) => {
            lemma_send_packets_keeps_parameters(t.pending_sent());
        },
        (Phase::Receiving(family), Event::Received { header, remote }) => {
            let taken = EngineState {
                drained: (t.drained + 1) as usize,
                ..t.record_open_socket(header, remote)
            };
            if taken.drained >= BATCH_RECV_SIZE && family == IpFamily::V6
                && taken.open_ports.len() == 0 {
                let popped = EngineState {
                    expiry: taken.expiry.skip(due_batches(taken.expiry, taken.clock) as int),
                    ..taken
                };
                lemma_expire_batch_keeps_parameters(popped, due_probes(taken.expiry, taken.clock));
                lemma_begin_iteration_keeps_parameters(taken.process_expiration());
            }
        },
        (Phase::Receiving(family), Event::NothingReceived) => {
            if family == IpFamily::V6 && t.open_ports.len() == 0 {
                let popped = EngineState {
                    expiry: t.expiry.skip(due_batches(t.expiry, t.clock) as int),
                    ..t
                };
                lemma_expire_batch_keeps_parameters(popped, due_probes(t.expiry, t.clock));
                lemma_begin_iteration_keeps_parameters(t.process_expiration());
            }
        },
        (Phase::EmitResults, Event::Reported) => {
            let popped = EngineState {
                expiry: t.expiry.skip(due_batches(t.expiry, t.clock) as int),
                ..t
            };
            lemma_expire_batch_keeps_parameters(popped, due_probes(t.expiry, t.clock));
            lemma_begin_iteration_keeps_parameters(t.process_expiration());
        },
        _ => {},
    }
}

/// The rate bucket of `t` is the one of `s`: it began at the same count of
/// segments sent, after as many buckets.
pub open spec fn same_bucket(s: EngineState, t: EngineState) -> bool {
    &&& t.sent_at_rollover == s.sent_at_rollover
    &&& t.rollovers == s.rollovers
}

/// The rate bucket of `t` is the one after that of `s`, and began at the
/// count of segments sent that `s` and `t` have.
pub open spec fn next_bucket(s: EngineState, t: EngineState) -> bool {
    &&& t.sent_at_rollover == s.total_sent
    &&& t.total_sent == s.total_sent
    &&& t.rollovers == s.rollovers + 1
}

/// A send phase stays in its rate bucket and reports no rollover.
pub proof fn lemma_send_packets_stays_in_bucket(s: EngineState)
    ensures
        same_bucket(s, s.send_packets().0),
        s.send_packets().0.phase != Phase::TickStats,
    decreases s.slots,
{
    if !(s.slots == 0 || s.requeue.len() == 0) {
        let probe = s.requeue.last();
        let taken = EngineState {
            requeue: s.requeue.drop_last(),
            slots: (s.slots - 1) as usize,
            ..s
        };
        if taken.segment_for(probe, crate::packet::next_sequence(s.tcp_seq)) is None {
            lemma_send_packets_stays_in_bucket(
                EngineState {
                    skipped: saturating_inc(taken.skipped),
                    dropped: taken.dropped.insert(probe),
                    ..taken
                },
            );
        }
    }
}

/// Timeouts stay in the rate bucket and send nothing.
pub proof fn lemma_expire_batch_stays_in_bucket(s: EngineState, probes: Seq<Probe>)
    ensures
        same_bucket(s, s.expire_batch(probes)),
        s.expire_batch(probes).total_sent == s.total_sent,
    decreases probes.len(),
{
    if probes.len() > 0 {
        lemma_expire_batch_stays_in_bucket(s.expire_probe(probes[0]), probes.skip(1));
    }
}

/// The beginning of an iteration either reports a rollover, with the count
/// of segments sent as the next rate bucket finds it, or stays in its rate
/// bucket.
pub proof fn lemma_begin_iteration_bucket(s: EngineState)
    ensures
        s.begin_iteration().0.phase == Phase::TickStats ==> next_bucket(s, s.begin_iteration().0)
            && s.begin_iteration().1 == ActionView::Report(
            WorkMessageView::Stats(s.begin_iteration().0.stats()),
        ),
        s.begin_iteration().0.phase != Phase::TickStats ==> same_bucket(s, s.begin_iteration().0),
{
    let filled = s.refill();
    if !filled.settled() {
        let turned = filled.rotate_sources();
        if !turned.bucket_is_due() {
            if turned.rate_limit_unviolated() {
                lemma_send_packets_stays_in_bucket(
                    EngineState { sent: Seq::empty(), slots: turned.batch_room(), ..turned },
                );
            }
        }
    }
}

/// A step either reports a rollover of the rate bucket, with the count of
/// segments sent unchanged and as the next bucket finds it, or stays in its
/// rate bucket.
pub proof fn lemma_step_bucket(s: EngineState, event: Event, now: u64)
    ensures
        s.process_work(event, now).0.phase == Phase::TickStats ==> next_bucket(
            s,
            s.process_work(event, now).0,
        ) && s.process_work(event, now).1 == ActionView::Report(
            WorkMessageView::Stats(s.process_work(event, now).0.stats()),
        ),
        s.process_work(event, now).0.phase != Phase::TickStats ==> same_bucket(
            s,
            s.process_work(event, now).0,
        ),
{
    let t = s.at(now);
    match (t.phase, event) {
        (Phase::Idle, Event::Start) => {
            lemma_begin_iteration_bucket(t.start_clock());
        },
        (Phase::TickStats, Event::Reported) => {
            if t.rate_limit_unviolated() {
                lemma_send_packets_stays_in_bucket(
                    EngineState { sent: Seq::empty(), slots: t.batch_room(), ..t },
                );
            }
        },
        (Phase::Sending, Event::Sent) => {
            lemma_send_packets_stays_in_bucket(t.pending_sent());
        },
        (Phase::Receiving(family), Event::Received { header, remote }) => {
            let taken = EngineState {
                drained: (t.drained + 1) as usize,
                ..t.record_open_socket(header, remote)
            };
            if taken.drained >= BATCH_RECV_SIZE && family == IpFamily::V6
                && taken.open_ports.len() == 0 {
                let popped = EngineState {
                    expiry: taken.expiry.skip(due_batches(taken.expiry, taken.clock) as int),
                    ..taken
                };
                lemma_expire_batch_stays_in_bucket(popped, due_probes(taken.expiry, taken.clock));
                lemma_begin_iteration_bucket(taken.process_expiration());
            }
        },
        (Phase::Receiving(family), Event::NothingReceived) => {
            if family == IpFamily::V6 && t.open_ports.len() == 0 {
                let popped = EngineState {
                    expiry: t.expiry.skip(due_batches(t.expiry, t.clock) as int),
                    ..t
                };
                lemma_expire_batch_stays_in_bucket(popped, due_probes(t.expiry, t.clock));
                lemma_begin_iteration_bucket(t.process_expiration());
            }
        },
        (Phase::EmitResults, Event::Reported) => {
            let popped = EngineState {
                expiry: t.expiry.skip(due_batches(t.expiry, t.clock) as int),
                ..t
            };
            lemma_expire_batch_stays_in_bucket(popped, due_probes(t.expiry, t.clock));
            lemma_begin_iteration_bucket(t.process_expiration());
        },
        _ => {},
    }
}

/// Under a rate limit, the count of segments sent has grown since the
/// current rate bucket began by no more than a tenth of the limit.
pub proof fn lemma_sent_grows_by_at_most_a_bucket(s: EngineState)
    requires
        s.inv(),
    ensures
        s.rate_limit matches Some(limit) ==> s.total_sent == u128::MAX || s.sent_at_rollover
            <= s.total_sent <= s.sent_at_rollover + limit / BUCKETS_PER_SECOND,
{
}

/// In every scan under a rate limit, the count of segments sent grows from
/// one report of a rollover of the rate bucket to the next by no more than a
/// tenth of the limit, and never falls.
pub proof fn lemma_sent_grows_by_at_most_a_bucket_between_rollovers(
    start: EngineState,
    steps: Seq<Step>,
    limit: usize,
)
    requires
        start.inv(),
        start.rate_limit == Some(limit),
    ensures
        forall|i: int|
            #![trigger rollover_totals(start, steps)[i]]
            0 <= i < rollover_totals(start, steps).len() - 1 ==> {
                &&& rollover_totals(start, steps)[i] <= rollover_totals(start, steps)[i + 1]
                &&& rollover_totals(start, steps)[i + 1] == u128::MAX || rollover_totals(
                    start,
                    steps,
                )[i + 1] <= rollover_totals(start, steps)[i] + limit / BUCKETS_PER_SECOND
            },
        rollover_totals(start, steps).len() > 0 ==> scan_after(start, steps).sent_at_rollover
            == rollover_totals(start, steps).last(),
        rollover_totals(start, steps).len() == 0 ==> scan_after(start, steps).sent_at_rollover
            == start.sent_at_rollover,
    decreases steps.len(),
{
    if steps.len() > 0 {
        let earlier = steps.drop_last();
        let before = scan_after(start, earlier);
        let after = scan_after(start, steps);
        let old_totals = rollover_totals(start, earlier);
        let totals = rollover_totals(start, steps);
        lemma_sent_grows_by_at_most_a_bucket_between_rollovers(start, earlier, limit);
        lemma_scan_keeps_invariant(start, earlier);
        lemma_scan_keeps_parameters(start, earlier);
        lemma_step_bucket(before, steps.last().event, steps.last().now);
        lemma_sent_grows_by_at_most_a_bucket(before);
        if after.phase == Phase::TickStats {
            assert(totals =~= old_totals.push(after.total_sent));
            assert forall|i: int| #![trigger totals[i]] 0 <= i < totals.len() - 1 implies {
                &&& totals[i] <= totals[i + 1]
                &&& totals[i + 1] == u128::MAX || totals[i + 1] <= totals[i] + limit
                    / BUCKETS_PER_SECOND
            } by {
                if i + 1 < old_totals.len() {
                    assert(totals[i] == old_totals[i]);
                    assert(totals[i + 1] == old_totals[i + 1]);
                } else {
                    assert(totals[i] == old_totals.last());
                    assert(totals[i + 1] == after.total_sent);
                }
            }
        } else {
            assert(totals =~= old_totals);
        }
    }
}

/// The first rollover of the rate bucket that a scan under a rate limit
/// reports counts no more segments sent than a tenth of the limit above
/// what was sent when the scan's current bucket began.
pub proof fn lemma_first_rollover_counts_at_most_a_bucket(
    start: EngineState,
    steps: Seq<Step>,
    limit: usize,
)
    requires
        start.inv(),
        start.rate_limit == Some(limit),
        rollover_totals(start, steps).len() > 0,
    ensures
        rollover_totals(start, steps)[0] == u128::MAX || rollover_totals(start, steps)[0]
            <= start.sent_at_rollover + limit / BUCKETS_PER_SECOND,
    decreases steps.len(),
{
    let earlier = steps.drop_last();
    let before = scan_after(start, earlier);
    let old_totals = rollover_totals(start, earlier);
    if old_totals.len() > 0 {
        lemma_first_rollover_counts_at_most_a_bucket(start, earlier, limit);
        assert(rollover_totals(start, steps)[0] == old_totals[0]);
    } else {
        lemma_sent_grows_by_at_most_a_bucket_between_rollovers(start, earlier, limit);
        lemma_scan_keeps_invariant(start, earlier);
        lemma_scan_keeps_parameters(start, earlier);
        lemma_step_bucket(before, steps.last().event, steps.last().now);
        lemma_sent_grows_by_at_most_a_bucket(before);
    }
}

/// Every rate bucket lasts its full length: the time since the scan began
/// is at least a bucket's length for each rollover. So under a rate limit
/// the count of segments sent is no more than a tenth of the limit for the
/// first bucket and for each further tenth of a second that the scan has
/// lasted: a scan cannot send faster than its limit.
pub proof fn lemma_scan_takes_its_time(s: EngineState)
    requires
        s.inv(),
    ensures
        s.clock >= s.started_at + RATE_LIMIT_RESOLUTION * s.rollovers,
        s.rate_limit matches Some(limit) ==> s.total_sent == u128::MAX || s.total_sent <= (limit
            / BUCKETS_PER_SECOND) * (s.rollovers + 1),
        s.rate_limit matches Some(limit) ==> s.total_sent == u128::MAX || s.total_sent <= (limit
            / BUCKETS_PER_SECOND) * ((s.clock - s.started_at) / (RATE_LIMIT_RESOLUTION as int)
            + 1),
{
    match s.rate_limit {
        Some(limit) => {
            if s.total_sent != u128::MAX {
                let cap = (limit / BUCKETS_PER_SECOND) as int;
                let buckets = s.rollovers as int;
                let tenths = (s.clock - s.started_at) / (RATE_LIMIT_RESOLUTION as int);
                assert(cap * (buckets + 1) == cap * buckets + cap) by (nonlinear_arith);
                assert(buckets <= tenths);
                assert(cap * (buckets + 1) <= cap * (tenths + 1)) by (nonlinear_arith)
                    requires
                        cap >= 0,
                        buckets <= tenths,
                ;
            }
        },
        None => {},
    }
}

/// Under a rate limit, whatever statistics a step reports count no more
/// segments sent than a tenth of the limit above what the last report of a
/// rollover of the rate bucket counted, and no fewer than that report. A
/// report of a rollover is then the one that the next reports are held
/// against; every other step leaves that as it is.
pub proof fn lemma_statistics_grow_by_at_most_a_bucket(
    s: EngineState,
    event: Event,
    now: u64,
    limit: usize,
)
    requires
        s.inv(),
        s.rate_limit == Some(limit),
    ensures
        s.process_work(event, now).1 matches ActionView::Report(WorkMessageView::Stats(stats)) ==> {
            &&& s.sent_at_rollover <= stats.total_packets_sent
            &&& stats.total_packets_sent == u128::MAX || stats.total_packets_sent
                <= s.sent_at_rollover + limit / BUCKETS_PER_SECOND
        },
        s.process_work(event, now).0.phase == Phase::TickStats ==> s.process_work(event, now).1
            == ActionView::Report(WorkMessageView::Stats(s.process_work(event, now).0.stats()))
            && s.process_work(event, now).0.sent_at_rollover == s.process_work(
            event,
            now,
        ).0.total_sent,
        s.process_work(event, now).0.phase != Phase::TickStats ==> s.process_work(
            event,
            now,
        ).0.sent_at_rollover == s.sent_at_rollover,
{
    lemma_process_work(s, event, now);
    lemma_step_bucket(s, event, now);
    lemma_step_keeps_parameters(s, event, now);
    lemma_sent_grows_by_at_most_a_bucket(s);
    lemma_sent_grows_by_at_most_a_bucket(s.process_work(event, now).0);
}

} // verus!
