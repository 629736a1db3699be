//! Where each probe of a scan is, and how often it was sent: the books that
//! show that no probe is lost, reported twice, or sent more often than the
//! retries allow. They hold of a scan whose probes are all different.
use vstd::prelude::*;
use vstd::seq_lib::seq_to_set_is_finite;
use vstd::set_lib::lemma_set_disjoint_lens;
use crate::engine::laws::{
    all_in, lemma_at, lemma_cut_expiry, lemma_due_batches_bound, lemma_expire_probe, lemma_process_expiration,
    lemma_record_open_socket, lemma_refill, lemma_scan_keeps_invariant,
    lemma_scan_keeps_parameters,
};
use crate::engine::model::{
    due_batches, due_probes, initial_state, results_during, saturating_inc, scan_after,
    EngineState, Event, ExpiryView, Phase, Step, BATCH_RECV_SIZE, BUCKETS_PER_SECOND,
    RATE_LIMIT_RESOLUTION,
};
use crate::net::{IpAddress, IpFamily, Probe};
use crate::packet::next_sequence;
use crate::tcp_ext::TcpHeader;

verus! {

/// How often `probe` occurs in `probes`.
pub open spec fn count(probes: Seq<Probe>, probe: Probe) -> nat
    decreases probes.len(),
{
    if probes.len() == 0 {
        0
    } else {
        count(probes.drop_last(), probe) + one_if(probes.last() == probe)
    }
}

/// 1 if `present`, else 0.
pub open spec fn one_if(present: bool) -> nat {
    if present {
        1
    } else {
        0
    }
}

/// Appending a probe adds one occurrence of it.
pub proof fn lemma_count_push(probes: Seq<Probe>, added: Probe, probe: Probe)
    ensures
        count(probes.push(added), probe) == count(probes, probe) + one_if(added == probe),
{
    assert(probes.push(added).drop_last() =~= probes);
}

/// The occurrences in two sequences add up in their concatenation.
pub proof fn lemma_count_add(first: Seq<Probe>, second: Seq<Probe>, probe: Probe)
    ensures
        count(first + second, probe) == count(first, probe) + count(second, probe),
    decreases second.len(),
{
    if second.len() == 0 {
        assert(first + second =~= first);
    } else {
        assert((first + second).drop_last() =~= first + second.drop_last());
        lemma_count_add(first, second.drop_last(), probe);
    }
}

/// The occurrences before and after a cut add up.
pub proof fn lemma_count_split(probes: Seq<Probe>, at: int, probe: Probe)
    requires
        0 <= at <= probes.len(),
    ensures
        count(probes.take(at), probe) + count(probes.skip(at), probe) == count(probes, probe),
{
    assert(probes.take(at) + probes.skip(at) =~= probes);
    lemma_count_add(probes.take(at), probes.skip(at), probe);
}

/// A probe occurs in a sequence exactly when the sequence contains it.
pub proof fn lemma_count_contains(probes: Seq<Probe>, probe: Probe)
    ensures
        count(probes, probe) > 0 <==> probes.contains(probe),
    decreases probes.len(),
{
    if probes.len() > 0 {
        lemma_count_contains(probes.drop_last(), probe);
        if probes.drop_last().contains(probe) {
            let i = choose|i: int| 0 <= i < probes.drop_last().len() && probes.drop_last()[i] == probe;
            assert(probes[i] == probe);
        }
        if probes.contains(probe) {
            let i = choose|i: int| 0 <= i < probes.len() && probes[i] == probe;
            if i < probes.len() - 1 {
                assert(probes.drop_last()[i] == probe);
            }
        } else {
            assert(probes[probes.len() - 1] != probe);
        }
    }
}

/// A sequence in which no probe occurs twice has no duplicates.
pub proof fn lemma_count_no_duplicates(probes: Seq<Probe>)
    requires
        forall|probe: Probe| count(probes, probe) <= 1,
    ensures
        probes.no_duplicates(),
    decreases probes.len(),
{
    if probes.len() > 0 {
        assert forall|probe: Probe| count(probes.drop_last(), probe) <= 1 by {
            assert(count(probes, probe) <= 1);
        }
        lemma_count_no_duplicates(probes.drop_last());
        assert forall|i: int, j: int| 0 <= i < probes.len() && 0 <= j < probes.len() && i
            != j implies probes[i] != probes[j] by {
            if i < probes.len() - 1 && j < probes.len() - 1 {
                assert(probes.drop_last()[i] != probes.drop_last()[j]);
            } else {
                let k = if i < j {
                    i
                } else {
                    j
                };
                assert(count(probes, probes.last()) <= 1);
                lemma_count_contains(probes.drop_last(), probes.last());
                if probes[k] == probes.last() {
                    assert(probes.drop_last()[k] == probes.last());
                }
            }
        }
    }
}

/// In a sequence without duplicates no probe occurs twice.
pub proof fn lemma_no_duplicates_count(probes: Seq<Probe>, probe: Probe)
    requires
        probes.no_duplicates(),
    ensures
        count(probes, probe) <= 1,
    decreases probes.len(),
{
    if probes.len() > 0 {
        lemma_no_duplicates_count(probes.drop_last(), probe);
        lemma_count_contains(probes.drop_last(), probe);
        if probes.last() == probe && probes.drop_last().contains(probe) {
            let i = choose|i: int| 0 <= i < probes.drop_last().len() && probes.drop_last()[i] == probe;
            assert(probes[i] == probes[probes.len() - 1]);
        }
    }
}

impl EngineState {
    /// The family of `ip` has a source address to send from.
    pub open spec fn family_has_source(self, ip: IpAddress) -> bool {
        match ip {
            IpAddress::V4(_) => self.source_ipv4.len() > 0,
            IpAddress::V6(_) => self.source_ipv6.len() > 0,
        }
    }

    /// In how many places `probe` is: upstream, waiting to be sent, being
    /// sent, sent in the send phase under way, in flight, found open,
    /// reported open, settled as closed, or dropped.
    pub open spec fn place_count(self, probe: Probe) -> nat {
        count(self.upstream, probe) + count(self.requeue, probe) + one_if(
            self.pending == Some(probe),
        ) + count(self.sent, probe) + one_if(self.inflight.contains(probe)) + count(
            self.open_ports,
            probe,
        ) + count(self.reported, probe) + one_if(self.closed.contains(probe)) + one_if(
            self.dropped.contains(probe),
        )
    }

    /// Every probe of the scan is in exactly one place, and no other probe
    /// is anywhere.
    pub open spec fn each_probe_once(self) -> bool {
        forall|probe: Probe| #[trigger]
            self.place_count(probe) == one_if(self.targets.contains(probe))
    }

    /// The place of `probe` agrees with the number of segments sent for it
    /// and of timeouts it has been through.
    pub open spec fn send_account(self, probe: Probe) -> bool {
        &&& count(self.upstream, probe) > 0 ==> self.sent_count(probe) == 0 && self.timeouts(probe)
            == 0
        &&& count(self.requeue, probe) > 0 || self.pending == Some(probe) ==> self.sent_count(probe)
            == self.timeouts(probe)
        &&& count(self.sent, probe) > 0 || self.inflight.contains(probe) ==> self.sent_count(probe)
            == self.timeouts(probe) + 1
        &&& count(self.open_ports, probe) > 0 || count(self.reported, probe) > 0 ==> 1
            <= self.sent_count(probe) <= self.retries + 1
        &&& self.closed.contains(probe) ==> self.sent_count(probe) == self.retries + 1
        &&& self.dropped.contains(probe) ==> !self.family_has_source(probe.ip)
        &&& self.pending == Some(probe) ==> self.family_has_source(probe.ip)
        &&& self.sent_count(probe) > 0 ==> self.family_has_source(probe.ip)
            && self.targets.contains(probe)
    }

    /// The place of every probe agrees with its count of segments sent.
    pub open spec fn sends_accounted(self) -> bool {
        forall|probe: Probe| #[trigger] self.send_account(probe)
    }

    /// The count of settled probes is the number of probes found open and
    /// of probes settled as closed, and the count of skipped probes is the
    /// number of probes dropped, unless a count has reached its largest
    /// value.
    pub open spec fn settled_counted(self) -> bool {
        &&& self.closed.finite()
        &&& self.processed == u128::MAX || self.processed == self.open_ports.len()
            + self.reported.len() + self.closed.len()
        &&& self.dropped.finite()
        &&& self.skipped == u128::MAX || self.skipped == self.dropped.len()
    }

    /// The books of a scan whose probes are all different.
    pub open spec fn accounted(self) -> bool {
        &&& self.each_probe_once()
        &&& self.sends_accounted()
        &&& self.settled_counted()
        &&& self.queue_accounted()
    }

    /// No probe has been found open so far.
    pub open spec fn no_opens(self) -> bool {
        self.open_ports.len() == 0 && self.reported.len() == 0
    }

    /// `probe` is in none of the batches of the expiry queue.
    pub open spec fn not_queued(self, probe: Probe) -> bool {
        forall|i: int, a: int|
            0 <= i < self.expiry.len() && 0 <= a < self.expiry[i].probes.len()
                ==> #[trigger] self.expiry[i].probes[a] != probe
    }

    /// No batch of the expiry queue is empty; and as long as no probe has
    /// been found open, every probe of every batch is in flight, and no two
    /// batches hold the same probe.
    pub open spec fn queue_accounted(self) -> bool {
        &&& forall|i: int| 0 <= i < self.expiry.len() ==> (#[trigger] self.expiry[i]).probes.len() > 0
        &&& self.no_opens() ==> {
            &&& forall|i: int, a: int|
                0 <= i < self.expiry.len() && 0 <= a < self.expiry[i].probes.len()
                    ==> self.inflight.contains(#[trigger] self.expiry[i].probes[a])
            &&& forall|i: int, j: int, a: int, b: int|
                0 <= i < j < self.expiry.len() && 0 <= a < self.expiry[i].probes.len() && 0 <= b
                    < self.expiry[j].probes.len() ==> #[trigger] self.expiry[i].probes[a]
                    != #[trigger] self.expiry[j].probes[b]
        }
    }
}

/// A scan that has not begun and whose probes are all different has its
/// books in order.
pub proof fn lemma_initial_accounted(
    upstream: Seq<Probe>,
    retries: u8,
    timeout: u64,
    rate_limit: Option<usize>,
    source_ipv4: Seq<u32>,
    source_ipv6: Seq<u128>,
    listening_port: u16,
    tcp_seq: u32,
)
    requires
        upstream.no_duplicates(),
    ensures
        initial_state(
            upstream,
            retries,
            timeout,
            rate_limit,
            source_ipv4,
            source_ipv6,
            listening_port,
            tcp_seq,
        ).accounted(),
{
    let s = initial_state(
        upstream,
        retries,
        timeout,
        rate_limit,
        source_ipv4,
        source_ipv6,
        listening_port,
        tcp_seq,
    );
    assert forall|probe: Probe| #[trigger] s.place_count(probe) == one_if(s.targets.contains(probe)) by {
        lemma_no_duplicates_count(upstream, probe);
        lemma_count_contains(upstream, probe);
    }
    assert forall|probe: Probe| #[trigger] s.send_account(probe) by {}
}

/// Telling the time leaves the books as they are.
pub proof fn lemma_at_accounted(s: EngineState, now: u64)
    requires
        s.accounted(),
    ensures
        s.at(now).accounted(),
{
    let t = s.at(now);
    assert forall|probe: Probe| #[trigger] t.place_count(probe) == one_if(t.targets.contains(probe)) by {
        assert(s.place_count(probe) == one_if(s.targets.contains(probe)));
    }
    assert forall|probe: Probe| #[trigger] t.send_account(probe) by {
        assert(s.send_account(probe));
    }
}

/// Refilling keeps the books.
pub proof fn lemma_refill_accounted(s: EngineState)
    requires
        s.accounted(),
    ensures
        s.refill().accounted(),
{
    let t = s.refill();
    let n = s.refill_count();
    assert forall|probe: Probe| #[trigger] t.place_count(probe) == one_if(t.targets.contains(probe)) by {
        assert(s.place_count(probe) == one_if(s.targets.contains(probe)));
        lemma_count_split(s.upstream, n, probe);
        lemma_count_add(s.requeue, s.upstream.take(n), probe);
    }
    assert forall|probe: Probe| #[trigger] t.send_account(probe) by {
        assert(s.send_account(probe));
        lemma_count_split(s.upstream, n, probe);
        lemma_count_add(s.requeue, s.upstream.take(n), probe);
    }
}

/// Changes that touch no probe leave the books as they are.
pub proof fn lemma_same_books(s: EngineState, t: EngineState)
    requires
        s.accounted(),
        t.upstream == s.upstream,
        t.requeue == s.requeue,
        t.pending == s.pending,
        t.sent == s.sent,
        t.inflight == s.inflight,
        t.open_ports == s.open_ports,
        t.reported == s.reported,
        t.closed == s.closed,
        t.dropped == s.dropped,
        t.targets == s.targets,
        t.transmissions == s.transmissions,
        t.retry_tracker == s.retry_tracker,
        t.retries == s.retries,
        t.source_ipv4 == s.source_ipv4,
        t.source_ipv6 == s.source_ipv6,
        t.processed == s.processed,
        t.skipped == s.skipped,
        t.expiry == s.expiry,
    ensures
        t.accounted(),
{
    assert forall|probe: Probe| #[trigger] t.place_count(probe) == one_if(t.targets.contains(probe)) by {
        assert(s.place_count(probe) == one_if(s.targets.contains(probe)));
    }
    assert forall|probe: Probe| #[trigger] t.send_account(probe) by {
        assert(s.send_account(probe));
    }
}

/// The end of a send phase keeps the books.
pub proof fn lemma_close_batch_accounted(s: EngineState)
    requires
        s.accounted(),
    ensures
        s.close_batch().accounted(),
{
    let t = s.close_batch();
    if s.sent.len() > 0 {
        assert forall|probe: Probe| #[trigger] t.place_count(probe) == one_if(
            t.targets.contains(probe),
        ) by {
            assert(s.place_count(probe) == one_if(s.targets.contains(probe)));
            lemma_count_contains(s.sent, probe);
        }
        assert forall|probe: Probe| #[trigger] t.send_account(probe) by {
            assert(s.send_account(probe));
            lemma_count_contains(s.sent, probe);
        }
        let last = s.expiry.len() as int;
        assert forall|i: int| 0 <= i < t.expiry.len() implies (#[trigger] t.expiry[i]).probes.len()
            > 0 by {
            if i < last {
                assert(t.expiry[i] == s.expiry[i]);
            }
        }
        if t.no_opens() {
            assert forall|i: int, a: int|
                0 <= i < t.expiry.len() && 0 <= a < t.expiry[i].probes.len()
                    implies t.inflight.contains(#[trigger] t.expiry[i].probes[a]) by {
                if i < last {
                    assert(t.expiry[i] == s.expiry[i]);
                    assert(s.inflight.contains(s.expiry[i].probes[a]));
                } else {
                    assert(s.sent.contains(s.sent[a]));
                }
            }
            assert forall|i: int, j: int, a: int, b: int|
                0 <= i < j < t.expiry.len() && 0 <= a < t.expiry[i].probes.len() && 0 <= b
                    < t.expiry[j].probes.len() implies #[trigger] t.expiry[i].probes[a]
                != #[trigger] t.expiry[j].probes[b] by {
                assert(t.expiry[i] == s.expiry[i]);
                if j < last {
                    assert(t.expiry[j] == s.expiry[j]);
                    assert(s.expiry[i].probes[a] != s.expiry[j].probes[b]);
                } else {
                    let queued = s.expiry[i].probes[a];
                    let fresh = s.sent[b];
                    assert(s.inflight.contains(queued));
                    assert(s.place_count(fresh) == one_if(s.targets.contains(fresh)));
                    lemma_count_contains(s.sent, fresh);
                    assert(s.sent.contains(fresh));
                }
            }
        }
    }
}

/// Taking in a segment keeps the books.
pub proof fn lemma_record_open_socket_accounted(
    s: EngineState,
    header: TcpHeader,
    remote: IpAddress,
)
    requires
        s.retries_bounded(),
        s.accounted(),
    ensures
        s.record_open_socket(header, remote).accounted(),
{
    let t = s.record_open_socket(header, remote);
    let found = Probe { ip: remote, port: header.source };
    if header.spec_signals_open(s.listening_port) && s.inflight.contains(found) {
        assert(s.place_count(found) == one_if(s.targets.contains(found)));
        assert(s.send_account(found));
        assert forall|probe: Probe| #[trigger] t.place_count(probe) == one_if(
            t.targets.contains(probe),
        ) by {
            assert(s.place_count(probe) == one_if(s.targets.contains(probe)));
            lemma_count_push(s.open_ports, found, probe);
        }
        assert forall|probe: Probe| #[trigger] t.send_account(probe) by {
            assert(s.send_account(probe));
            lemma_count_push(s.open_ports, found, probe);
        }
    }
}

/// A probe's timeout keeps the books.
pub proof fn lemma_expire_probe_accounted(s: EngineState, expired: Probe)
    requires
        s.retries_bounded(),
        s.accounted(),
        s.no_opens() ==> s.not_queued(expired),
    ensures
        s.expire_probe(expired).accounted(),
        s.expire_probe(expired).expiry == s.expiry,
        s.expire_probe(expired).no_opens() == s.no_opens(),
{
    let t = s.expire_probe(expired);
    if s.inflight.contains(expired) {
        assert(s.place_count(expired) == one_if(s.targets.contains(expired)));
        assert(s.send_account(expired));
        assert forall|probe: Probe| #[trigger] t.place_count(probe) == one_if(
            t.targets.contains(probe),
        ) by {
            assert(s.place_count(probe) == one_if(s.targets.contains(probe)));
            lemma_count_push(s.requeue, expired, probe);
        }
        assert forall|probe: Probe| #[trigger] t.send_account(probe) by {
            assert(s.send_account(probe));
            lemma_count_push(s.requeue, expired, probe);
        }
        if t.no_opens() {
            assert forall|i: int, a: int|
                0 <= i < t.expiry.len() && 0 <= a < t.expiry[i].probes.len()
                    implies t.inflight.contains(#[trigger] t.expiry[i].probes[a]) by {
                assert(s.inflight.contains(s.expiry[i].probes[a]));
                assert(s.expiry[i].probes[a] != expired);
            }
        }
    }
}

/// A batch's timeout keeps the books.
pub proof fn lemma_expire_batch_accounted(s: EngineState, probes: Seq<Probe>)
    requires
        s.between_phases(),
        s.accounted(),
        s.no_opens() ==> forall|j: int| 0 <= j < probes.len() ==> s.not_queued(#[trigger] probes[j]),
    ensures
        s.expire_batch(probes).accounted(),
    decreases probes.len(),
{
    if probes.len() > 0 {
        lemma_expire_probe(s, probes[0]);
        lemma_expire_probe_accounted(s, probes[0]);
        let t = s.expire_probe(probes[0]);
        if t.no_opens() {
            assert forall|j: int| 0 <= j < probes.skip(1).len() implies t.not_queued(
                #[trigger] probes.skip(1)[j],
            ) by {
                assert(s.not_queued(probes[j + 1]));
            }
        }
        lemma_expire_batch_accounted(t, probes.skip(1));
    }
}

/// Every probe that is due is in one of the batches that are due.
pub proof fn lemma_due_probe_is_in_a_due_batch(expiry: Seq<ExpiryView>, clock: u64, j: int) -> (at:
    (int, int))
    requires
        0 <= j < due_probes(expiry, clock).len(),
    ensures
        0 <= at.0 < due_batches(expiry, clock),
        at.0 < expiry.len(),
        0 <= at.1 < expiry[at.0].probes.len(),
        expiry[at.0].probes[at.1] == due_probes(expiry, clock)[j],
    decreases expiry.len(),
{
    if j < expiry[0].probes.len() {
        (0, j)
    } else {
        let rest = lemma_due_probe_is_in_a_due_batch(
            expiry.skip(1),
            clock,
            j - expiry[0].probes.len(),
        );
        assert(expiry.skip(1)[rest.0] == expiry[rest.0 + 1]);
        (rest.0 + 1, rest.1)
    }
}

/// Working off the timeouts keeps the books.
pub proof fn lemma_process_expiration_accounted(s: EngineState)
    requires
        s.between_phases(),
        s.accounted(),
    ensures
        s.process_expiration().accounted(),
{
    let cut = due_batches(s.expiry, s.clock) as int;
    let due = due_probes(s.expiry, s.clock);
    let popped = EngineState { expiry: s.expiry.skip(cut), ..s };
    lemma_cut_expiry(s);
    lemma_due_batches_bound(s.expiry, s.clock);
    assert forall|probe: Probe| #[trigger] popped.place_count(probe) == one_if(
        popped.targets.contains(probe),
    ) by {
        assert(s.place_count(probe) == one_if(s.targets.contains(probe)));
    }
    assert forall|probe: Probe| #[trigger] popped.send_account(probe) by {
        assert(s.send_account(probe));
    }
    assert forall|i: int| 0 <= i < popped.expiry.len() implies (#[trigger] popped.expiry[i]).probes.len()
        > 0 by {
        assert(popped.expiry[i] == s.expiry[i + cut]);
    }
    if s.no_opens() {
        assert forall|i: int, a: int|
            0 <= i < popped.expiry.len() && 0 <= a < popped.expiry[i].probes.len()
                implies popped.inflight.contains(#[trigger] popped.expiry[i].probes[a]) by {
            assert(popped.expiry[i] == s.expiry[i + cut]);
            assert(s.inflight.contains(s.expiry[i + cut].probes[a]));
        }
        assert forall|i: int, j: int, a: int, b: int|
            0 <= i < j < popped.expiry.len() && 0 <= a < popped.expiry[i].probes.len() && 0 <= b
                < popped.expiry[j].probes.len() implies #[trigger] popped.expiry[i].probes[a]
            != #[trigger] popped.expiry[j].probes[b] by {
            assert(popped.expiry[i] == s.expiry[i + cut]);
            assert(popped.expiry[j] == s.expiry[j + cut]);
            assert(s.expiry[i + cut].probes[a] != s.expiry[j + cut].probes[b]);
        }
        assert forall|j: int| 0 <= j < due.len() implies popped.not_queued(#[trigger] due[j]) by {
            let at = lemma_due_probe_is_in_a_due_batch(s.expiry, s.clock, j);
            assert forall|i: int, a: int|
                0 <= i < popped.expiry.len() && 0 <= a < popped.expiry[i].probes.len()
                    implies #[trigger] popped.expiry[i].probes[a] != due[j] by {
                assert(popped.expiry[i] == s.expiry[i + cut]);
                assert(s.expiry[at.0].probes[at.1] != s.expiry[i + cut].probes[a]);
            }
        }
    }
    lemma_expire_batch_accounted(popped, due);
}

/// The send phase keeps the books.
pub proof fn lemma_send_packets_accounted(s: EngineState)
    requires
        s.in_send_phase(),
        s.accounted(),
    ensures
        s.send_packets().0.accounted(),
    decreases s.slots,
{
    if s.slots == 0 || s.requeue.len() == 0 {
        lemma_close_batch_accounted(s);
        lemma_same_books(s.close_batch(), s.close_batch().start_receiving().0);
    } else {
        let probe = s.requeue.last();
        let taken = EngineState {
            requeue: s.requeue.drop_last(),
            slots: (s.slots - 1) as usize,
            ..s
        };
        assert(s.place_count(probe) == one_if(s.targets.contains(probe)));
        assert(s.send_account(probe));
        assert(s.targets.contains(s.requeue[s.requeue.len() - 1]));
        match taken.segment_for(probe, next_sequence(s.tcp_seq)) {
            Some(segment) => {
                let t = s.send_packets().0;
                assert forall|other: Probe| #[trigger] t.place_count(other) == one_if(
                    t.targets.contains(other),
                ) by {
                    assert(s.place_count(other) == one_if(s.targets.contains(other)));
                }
                assert forall|other: Probe| #[trigger] t.send_account(other) by {
                    assert(s.send_account(other));
                }
            },
            None => {
                let t = EngineState {
                    skipped: saturating_inc(taken.skipped),
                    dropped: taken.dropped.insert(probe),
                    ..taken
                };
                assert forall|other: Probe| #[trigger] t.place_count(other) == one_if(
                    t.targets.contains(other),
                ) by {
                    assert(s.place_count(other) == one_if(s.targets.contains(other)));
                }
                assert forall|other: Probe| #[trigger] t.send_account(other) by {
                    assert(s.send_account(other));
                }
                assert(all_in(t.requeue, s.targets)) by {
                    assert forall|i: int| 0 <= i < t.requeue.len() implies s.targets.contains(
                        #[trigger] t.requeue[i],
                    ) by {
                        assert(t.requeue[i] == s.requeue[i]);
                    }
                }
                lemma_send_packets_accounted(t);
            },
        }
    }
}

/// The choice between sending and sleeping keeps the books.
pub proof fn lemma_send_or_sleep_accounted(s: EngineState)
    requires
        s.between_phases(),
        s.sources_turned(),
        s.accounted(),
    ensures
        s.send_or_sleep().0.accounted(),
{
    if s.rate_limit_unviolated() {
        let t = EngineState { sent: Seq::empty(), slots: s.batch_room(), ..s };
        assert(t.sent =~= s.sent);
        lemma_same_books(s, t);
        lemma_send_packets_accounted(t);
    } else {
        lemma_same_books(s, s.send_or_sleep().0);
    }
}

/// The beginning of an iteration keeps the books.
pub proof fn lemma_begin_iteration_accounted(s: EngineState)
    requires
        s.between_phases(),
        s.accounted(),
    ensures
        s.begin_iteration().0.accounted(),
{
    lemma_refill(s);
    lemma_refill_accounted(s);
    let filled = s.refill();
    if filled.settled() {
        lemma_same_books(filled, filled.finish(Ok(())).0);
    } else {
        let turned = filled.rotate_sources();
        lemma_same_books(filled, turned);
        if turned.bucket_is_due() {
            lemma_same_books(turned, s.begin_iteration().0);
        } else {
            lemma_send_or_sleep_accounted(turned);
        }
    }
}

/// Handing over the results keeps the books.
pub proof fn lemma_hand_over_results_accounted(s: EngineState, phase: Phase)
    requires
        s.accounted(),
    ensures
        s.hand_over_results(phase).0.accounted(),
{
    let t = s.hand_over_results(phase).0;
    assert forall|probe: Probe| #[trigger] t.place_count(probe) == one_if(t.targets.contains(probe)) by {
        assert(s.place_count(probe) == one_if(s.targets.contains(probe)));
        lemma_count_add(s.reported, s.open_ports, probe);
    }
    assert forall|probe: Probe| #[trigger] t.send_account(probe) by {
        assert(s.send_account(probe));
        lemma_count_add(s.reported, s.open_ports, probe);
    }
}

/// The report of what was found keeps the books.
pub proof fn lemma_emit_results_accounted(s: EngineState)
    requires
        s.between_phases(),
        s.sources_turned(),
        s.accounted(),
    ensures
        s.emit_results().0.accounted(),
{
    if s.open_ports.len() > 0 {
        lemma_same_books(s, s.emit_results().0);
    } else {
        lemma_process_expiration(s);
        lemma_process_expiration_accounted(s);
        lemma_begin_iteration_accounted(s.process_expiration());
    }
}

/// Going from one socket to the next keeps the books.
pub proof fn lemma_next_receiver_accounted(s: EngineState, family: IpFamily)
    requires
        s.between_phases(),
        s.sources_turned(),
        s.accounted(),
    ensures
        s.next_receiver(family).0.accounted(),
{
    match family {
        IpFamily::V4 => {
            lemma_same_books(s, s.next_receiver(family).0);
        },
        IpFamily::V6 => {
            lemma_emit_results_accounted(s);
        },
    }
}

/// Putting the probe that was being sent back keeps the books.
pub proof fn lemma_requeue_pending_accounted(s: EngineState)
    requires
        s.accounted(),
    ensures
        s.requeue_pending().accounted(),
{
    let t = s.requeue_pending();
    match s.pending {
        Some(pending) => {
            assert forall|probe: Probe| #[trigger] t.place_count(probe) == one_if(
                t.targets.contains(probe),
            ) by {
                assert(s.place_count(probe) == one_if(s.targets.contains(probe)));
                lemma_count_push(s.requeue, pending, probe);
            }
            assert forall|probe: Probe| #[trigger] t.send_account(probe) by {
                assert(s.send_account(probe));
                lemma_count_push(s.requeue, pending, probe);
            }
        },
        None => {
            lemma_same_books(s, t);
        },
    }
}

/// Noting that the probe that was being sent has been sent keeps the books.
pub proof fn lemma_pending_sent_accounted(s: EngineState)
    requires
        s.probes_known(),
        s.accounted(),
    ensures
        s.pending_sent().accounted(),
{
    let t = s.pending_sent();
    match s.pending {
        Some(pending) => {
            assert(s.place_count(pending) == one_if(s.targets.contains(pending)));
            assert(s.send_account(pending));
            assert forall|probe: Probe| #[trigger] t.place_count(probe) == one_if(
                t.targets.contains(probe),
            ) by {
                assert(s.place_count(probe) == one_if(s.targets.contains(probe)));
                lemma_count_push(s.sent, pending, probe);
            }
            assert forall|probe: Probe| #[trigger] t.send_account(probe) by {
                assert(s.send_account(probe));
                lemma_count_push(s.sent, pending, probe);
            }
        },
        None => {},
    }
}

/// Every step keeps the books of a scan whose probes are all different.
pub proof fn lemma_process_work_accounted(s: EngineState, event: Event, now: u64)
    requires
        s.inv(),
        s.accounted(),
    ensures
        s.process_work(event, now).0.accounted(),
{
    lemma_at(s, now);
    lemma_at_accounted(s, now);
    let t = s.at(now);
    let after = s.process_work(event, now).0;
    match (t.phase, event) {
        (Phase::Idle, Event::Start) => {
            lemma_same_books(t, t.start_clock());
            lemma_begin_iteration_accounted(t.start_clock());
        },
        (Phase::TickStats, Event::Reported) => {
            lemma_send_or_sleep_accounted(t);
        },
        (Phase::Sending, Event::Sent) => {
            let u = t.pending_sent();
            lemma_pending_sent_accounted(t);
            assert(all_in(u.sent, t.targets)) by {
                assert forall|i: int| 0 <= i < u.sent.len() implies t.targets.contains(
                    #[trigger] u.sent[i],
                ) by {
                    if i < t.sent.len() {
                        assert(u.sent[i] == t.sent[i]);
                    }
                }
            }
            lemma_send_packets_accounted(u);
        },
        (Phase::Sending, Event::WouldBlock) => {
            lemma_requeue_pending_accounted(t);
            lemma_close_batch_accounted(t.requeue_pending());
            lemma_same_books(t.requeue_pending().close_batch(), after);
        },
        (Phase::Sending, Event::SendFailed) => {
            lemma_requeue_pending_accounted(t);
            lemma_close_batch_accounted(t.requeue_pending());
            lemma_same_books(t.requeue_pending().close_batch(), after);
        },
        (Phase::Sleeping, Event::Woke) => {
            lemma_same_books(t, after);
        },
        (Phase::Receiving(family), Event::Received { header, remote }) => {
            lemma_record_open_socket(t, header, remote);
            lemma_record_open_socket_accounted(t, header, remote);
            let taken = EngineState {
                drained: (t.drained + 1) as usize,
                ..t.record_open_socket(header, remote)
            };
            lemma_same_books(t.record_open_socket(header, remote), taken);
            if taken.drained >= BATCH_RECV_SIZE {
                lemma_next_receiver_accounted(taken, family);
            }
        },
        (Phase::Receiving(family), Event::NothingReceived) => {
            lemma_next_receiver_accounted(t, family);
        },
        (Phase::Receiving(_), Event::ReceiveFailed) => {
            lemma_same_books(t, after);
        },
        (Phase::EmitStats, Event::Reported) => {
            lemma_hand_over_results_accounted(t, Phase::EmitResults);
        },
        (Phase::EmitResults, Event::Reported) => {
            lemma_process_expiration(t);
            lemma_process_expiration_accounted(t);
            lemma_begin_iteration_accounted(t.process_expiration());
        },
        (Phase::FinalStats, Event::Reported) => {
            lemma_hand_over_results_accounted(t, Phase::FinalResults);
        },
        _ => {
            lemma_same_books(t, after);
        },
    }
}

/// No probe is reported open twice, in one report or in two.
pub proof fn lemma_no_probe_reported_twice(s: EngineState)
    requires
        s.accounted(),
    ensures
        s.reported.no_duplicates(),
        (s.reported + s.open_ports).no_duplicates(),
{
    assert forall|probe: Probe| count(s.reported, probe) <= 1 by {
        assert(s.place_count(probe) == one_if(s.targets.contains(probe)));
    }
    lemma_count_no_duplicates(s.reported);
    assert forall|probe: Probe| count(s.reported + s.open_ports, probe) <= 1 by {
        assert(s.place_count(probe) == one_if(s.targets.contains(probe)));
        lemma_count_add(s.reported, s.open_ports, probe);
    }
    lemma_count_no_duplicates(s.reported + s.open_ports);
}

/// A probe that was sent is in exactly one of the places that a sent probe
/// can be in: waiting to be sent again, in flight, found open, or settled as
/// closed. So once nothing is left to send or to wait for, every probe that
/// was ever in flight has left the in-flight set for good exactly once: on
/// a reply, as open, or on its last timeout, as closed.
pub proof fn lemma_sent_probe_settles_once(s: EngineState, probe: Probe)
    requires
        s.accounted(),
        s.sent_count(probe) > 0,
    ensures
        count(s.requeue, probe) + one_if(s.pending == Some(probe)) + count(s.sent, probe) + one_if(
            s.inflight.contains(probe),
        ) + count(s.open_ports, probe) + count(s.reported, probe) + one_if(
            s.closed.contains(probe),
        ) == 1,
        s.requeue.len() == 0 && s.pending is None && s.sent.len() == 0 && !s.inflight.contains(probe)
            ==> count(s.open_ports, probe) + count(s.reported, probe) + one_if(
            s.closed.contains(probe),
        ) == 1,
{
    assert(s.place_count(probe) == one_if(s.targets.contains(probe)));
    assert(s.send_account(probe));
}

/// A probe that was settled as closed was sent once and once more for each
/// retry.
pub proof fn lemma_closed_probe_sent_retries_plus_one(s: EngineState, probe: Probe)
    requires
        s.accounted(),
        s.closed.contains(probe),
    ensures
        s.sent_count(probe) == s.retries + 1,
{
    assert(s.send_account(probe));
}

/// The count of settled probes is the number of probes found open and of
/// probes settled as closed, unless it has reached its largest value.
pub proof fn lemma_processed_counts_settled(s: EngineState)
    requires
        s.accounted(),
    ensures
        s.processed == u128::MAX || s.processed == s.open_ports.len() + s.reported.len()
            + s.closed.len(),
{
}

/// When a scan whose probes are all different has ended without an error
/// and made its last report, every probe of the scan has been reported
/// open, settled as closed or dropped for want of a source address, and
/// only one of the three.
pub proof fn lemma_clean_end_settles_every_probe(s: EngineState, probe: Probe)
    requires
        s.inv(),
        s.accounted(),
        s.phase == Phase::Done,
        s.outcome is Ok,
        s.open_ports.len() == 0,
        s.targets.contains(probe),
    ensures
        count(s.reported, probe) + one_if(s.closed.contains(probe)) + one_if(
            s.dropped.contains(probe),
        ) == 1,
        s.dropped.contains(probe) ==> !s.family_has_source(probe.ip),
        s.closed.contains(probe) ==> s.sent_count(probe) == s.retries + 1,
{
    assert(s.place_count(probe) == one_if(s.targets.contains(probe)));
    assert(s.send_account(probe));
}

/// Whatever a scan whose probes are all different is told, it keeps its
/// books; so it never reports a probe open twice, and every probe that it
/// settles as closed was sent once and once more for each retry.
pub proof fn lemma_scan_keeps_books(start: EngineState, steps: Seq<Step>)
    requires
        start.inv(),
        start.accounted(),
    ensures
        scan_after(start, steps).accounted(),
        scan_after(start, steps).reported.no_duplicates(),
        forall|probe: Probe| #[trigger]
            scan_after(start, steps).closed.contains(probe) ==> scan_after(
                start,
                steps,
            ).sent_count(probe) == start.retries + 1,
    decreases steps.len(),
{
    if steps.len() > 0 {
        let before = scan_after(start, steps.drop_last());
        lemma_scan_keeps_books(start, steps.drop_last());
        lemma_scan_keeps_invariant(start, steps.drop_last());
        lemma_process_work_accounted(before, steps.last().event, steps.last().now);
    }
    let after = scan_after(start, steps);
    lemma_no_probe_reported_twice(after);
    lemma_scan_keeps_parameters(start, steps);
    assert forall|probe: Probe| #[trigger] after.closed.contains(probe) implies after.sent_count(
        probe,
    ) == start.retries + 1 by {
        lemma_closed_probe_sent_retries_plus_one(after, probe);
    }
}

/// In every scan whose probes are all different, no probe is reported open
/// twice.
pub proof fn lemma_no_result_comes_twice(start: EngineState, steps: Seq<Step>)
    requires
        start.inv(),
        start.accounted(),
        start.reported.len() == 0,
    ensures
        results_during(start, steps).no_duplicates(),
{
    lemma_scan_keeps_books(start, steps);
    lemma_scan_keeps_invariant(start, steps);
    assert(start.reported + results_during(start, steps) =~= results_during(start, steps));
}

/// When a scan whose probes are all different has ended without an error
/// and made its last report, the probes that it settled and those that it
/// skipped are all the probes of the scan: the count of settled probes falls
/// short of the number of probes by the number of probes dropped.
pub proof fn lemma_clean_end_counts_every_probe(s: EngineState)
    requires
        s.inv(),
        s.accounted(),
        s.phase == Phase::Done,
        s.outcome is Ok,
        s.open_ports.len() == 0,
    ensures
        s.targets.finite(),
        s.processed == u128::MAX || s.skipped == u128::MAX || s.processed + s.skipped
            == s.targets.len(),
{
    let open = s.reported.to_set();
    lemma_no_probe_reported_twice(s);
    s.reported.unique_seq_to_set();
    seq_to_set_is_finite(s.reported);
    assert(open.disjoint(s.closed)) by {
        assert forall|probe: Probe| !(open.contains(probe) && s.closed.contains(probe)) by {
            assert(s.place_count(probe) == one_if(s.targets.contains(probe)));
            lemma_count_contains(s.reported, probe);
        }
    }
    assert((open + s.closed).disjoint(s.dropped)) by {
        assert forall|probe: Probe|
            !((open + s.closed).contains(probe) && s.dropped.contains(probe)) by {
            assert(s.place_count(probe) == one_if(s.targets.contains(probe)));
            lemma_count_contains(s.reported, probe);
        }
    }
    assert(s.targets =~= open + s.closed + s.dropped) by {
        assert forall|probe: Probe| s.targets.contains(probe) <==> (open + s.closed
            + s.dropped).contains(probe) by {
            assert(s.place_count(probe) == one_if(s.targets.contains(probe)));
            lemma_count_contains(s.reported, probe);
            assert(count(s.upstream, probe) == 0) by {
                lemma_count_contains(s.upstream, probe);
            }
            assert(count(s.requeue, probe) == 0) by {
                lemma_count_contains(s.requeue, probe);
            }
            assert(count(s.sent, probe) == 0) by {
                lemma_count_contains(s.sent, probe);
            }
            assert(count(s.open_ports, probe) == 0) by {
                lemma_count_contains(s.open_ports, probe);
            }
        }
    }
    lemma_set_disjoint_lens(open, s.closed);
    lemma_set_disjoint_lens(open + s.closed, s.dropped);
}

/// In a scan whose probes are all different, no probe is ever sent more
/// often than once and once more for each retry, whether it is still
/// waiting, in flight, found open, or settled as closed.
pub proof fn lemma_no_probe_sent_more_than_retries_plus_one(s: EngineState, probe: Probe)
    requires
        s.inv(),
        s.accounted(),
    ensures
        s.timeouts(probe) <= s.retries,
        s.sent_count(probe) <= s.retries + 1,
{
    assert(s.place_count(probe) == one_if(s.targets.contains(probe)));
    assert(s.send_account(probe));
    if s.retry_tracker.contains_key(probe) {
        assert(s.retry_tracker[probe] <= s.retries);
    }
    if s.sent_count(probe) > 0 {
        assert(s.targets.contains(probe));
        assert(!s.dropped.contains(probe));
    }
}

/// Whatever a scan whose probes are all different is told, at every point
/// no probe has been through more timeouts than there are retries, and no
/// probe has been sent more often than once and once more for each retry.
pub proof fn lemma_no_probe_is_ever_sent_too_often(
    start: EngineState,
    steps: Seq<Step>,
    probe: Probe,
)
    requires
        start.inv(),
        start.accounted(),
    ensures
        scan_after(start, steps).timeouts(probe) <= start.retries,
        scan_after(start, steps).sent_count(probe) <= start.retries + 1,
{
    lemma_scan_keeps_books(start, steps);
    lemma_scan_keeps_invariant(start, steps);
    lemma_scan_keeps_parameters(start, steps);
    lemma_no_probe_sent_more_than_retries_plus_one(scan_after(start, steps), probe);
}

/// A scan whose probes are all different and of which none was found open
/// does not end without an error before the timeout of what it sent last has
/// passed. So it lasts at least a bucket's length for each rate bucket
/// before the one of its last send, and the timeout; and under a rate limit
/// it has sent no more than a tenth of the limit for each tenth of a second
/// that it lasted beyond the timeout, and for one more.
pub proof fn lemma_unanswered_scan_waits_for_its_timeouts(s: EngineState)
    requires
        s.inv(),
        s.accounted(),
        s.ending(),
        s.outcome is Ok,
        s.no_opens(),
        s.total_sent > 0,
    ensures
        s.clock >= s.last_sent_at + s.timeout,
        s.clock >= s.started_at + RATE_LIMIT_RESOLUTION * s.rollovers_at_last_send + s.timeout,
        s.rate_limit matches Some(limit) ==> s.total_sent == u128::MAX || s.total_sent <= (limit
            / BUCKETS_PER_SECOND) * ((s.clock - s.started_at - s.timeout) / (
        RATE_LIMIT_RESOLUTION as int) + 1),
{
    if s.expiry.len() > 0 {
        assert(s.expiry[0].probes.len() > 0);
        assert(s.inflight.contains(s.expiry[0].probes[0]));
    }
    match s.rate_limit {
        Some(limit) => {
            if s.total_sent != u128::MAX {
                let cap = (limit / BUCKETS_PER_SECOND) as int;
                let buckets = s.rollovers_at_last_send as int;
                let tenths = (s.clock - s.started_at - s.timeout) / (RATE_LIMIT_RESOLUTION as int);
                assert(buckets <= tenths);
                assert(cap * (buckets + 1) <= cap * (tenths + 1)) by (nonlinear_arith)
                    requires
                        cap >= 0,
                        buckets <= tenths,
                ;
            }
        },
        None => {},
    }
}

/// How many segments were sent for the probes of `probes`, all together.
pub open spec fn sends_to(s: EngineState, probes: Seq<Probe>) -> nat
    decreases probes.len(),
{
    if probes.len() == 0 {
        0
    } else {
        sends_to(s, probes.drop_last()) + s.sent_count(probes.last())
    }
}

/// Nothing was sent between `s` and `t`.
pub open spec fn same_sends(s: EngineState, t: EngineState) -> bool {
    t.transmissions == s.transmissions && t.segments_taken == s.segments_taken
}

/// One segment was sent between `s` and `t`, for `probe`.
pub open spec fn one_more_send(s: EngineState, t: EngineState, probe: Probe) -> bool {
    &&& t.transmissions == s.transmissions.insert(probe, s.sent_count(probe) + 1)
    &&& t.segments_taken == s.segments_taken + 1
}

/// Where nothing was sent, the segments sent for a list of probes are as
/// many as before.
pub proof fn lemma_sends_to_same(s: EngineState, t: EngineState, probes: Seq<Probe>)
    requires
        t.transmissions == s.transmissions,
    ensures
        sends_to(t, probes) == sends_to(s, probes),
    decreases probes.len(),
{
    if probes.len() > 0 {
        lemma_sends_to_same(s, t, probes.drop_last());
    }
}

/// Where one segment was sent for a probe, the segments sent for a list of
/// probes are one more for each time the list names the probe.
pub proof fn lemma_sends_to_one_more(
    s: EngineState,
    t: EngineState,
    probes: Seq<Probe>,
    probe: Probe,
)
    requires
        t.transmissions == s.transmissions.insert(probe, s.sent_count(probe) + 1),
    ensures
        sends_to(t, probes) == sends_to(s, probes) + count(probes, probe),
    decreases probes.len(),
{
    if probes.len() > 0 {
        lemma_sends_to_one_more(s, t, probes.drop_last(), probe);
    }
}

/// Where every probe of a list was sent `times` times, the segments sent for
/// the list are `times` for each probe.
pub proof fn lemma_sends_to_all_alike(s: EngineState, probes: Seq<Probe>, times: nat)
    requires
        forall|i: int| 0 <= i < probes.len() ==> s.sent_count(#[trigger] probes[i]) == times,
    ensures
        sends_to(s, probes) == probes.len() * times,
    decreases probes.len(),
{
    if probes.len() > 0 {
        assert forall|i: int| 0 <= i < probes.drop_last().len() implies s.sent_count(
            #[trigger] probes.drop_last()[i],
        ) == times by {
            assert(probes.drop_last()[i] == probes[i]);
        }
        lemma_sends_to_all_alike(s, probes.drop_last(), times);
        assert(s.sent_count(probes[probes.len() - 1]) == times);
        assert((probes.len() - 1) * times + times == probes.len() * times) by (nonlinear_arith);
    } else {
        assert(0 * times == 0) by (nonlinear_arith);
    }
}

/// A send phase by itself sends nothing: segments are sent between steps.
pub proof fn lemma_send_packets_same_sends(s: EngineState)
    ensures
        same_sends(s, s.send_packets().0),
    decreases s.slots,
{
    if !(s.slots == 0 || s.requeue.len() == 0) {
        let probe = s.requeue.last();
        let taken = EngineState {
            requeue: s.requeue.drop_last(),
            slots: (s.slots - 1) as usize,
            ..s
        };
        if taken.segment_for(probe, next_sequence(s.tcp_seq)) is None {
            lemma_send_packets_same_sends(
                EngineState {
                    skipped: saturating_inc(taken.skipped),
                    dropped: taken.dropped.insert(probe),
                    ..taken
                },
            );
        }
    }
}

/// Timeouts send nothing.
pub proof fn lemma_expire_batch_same_sends(s: EngineState, probes: Seq<Probe>)
    ensures
        same_sends(s, s.expire_batch(probes)),
    decreases probes.len(),
{
    if probes.len() > 0 {
        lemma_expire_batch_same_sends(s.expire_probe(probes[0]), probes.skip(1));
    }
}

/// The beginning of an iteration sends nothing.
pub proof fn lemma_begin_iteration_same_sends(s: EngineState)
    ensures
        same_sends(s, s.begin_iteration().0),
{
    let filled = s.refill();
    if !filled.settled() {
        let turned = filled.rotate_sources();
        if !turned.bucket_is_due() {
            if turned.rate_limit_unviolated() {
                lemma_send_packets_same_sends(
                    EngineState { sent: Seq::empty(), slots: turned.batch_room(), ..turned },
                );
            }
        }
    }
}

/// Working off the timeouts and beginning the next iteration sends nothing.
pub proof fn lemma_next_iteration_same_sends(s: EngineState)
    ensures
        same_sends(s, s.process_expiration().begin_iteration().0),
{
    let popped = EngineState {
        expiry: s.expiry.skip(due_batches(s.expiry, s.clock) as int),
        ..s
    };
    lemma_expire_batch_same_sends(popped, due_probes(s.expiry, s.clock));
    lemma_begin_iteration_same_sends(s.process_expiration());
}

/// A step counts one segment more for the probe that was being sent, where
/// it is told that the socket took the segment; every other step counts
/// none.
pub proof fn lemma_step_sends(s: EngineState, event: Event, now: u64)
    ensures
        s.phase == Phase::Sending && event == Event::Sent && s.pending is Some ==> one_more_send(
            s,
            s.process_work(event, now).0,
            s.pending->0,
        ),
        !(s.phase == Phase::Sending && event == Event::Sent && s.pending is Some) ==> same_sends(
            s,
            s.process_work(event, now).0,
        ),
{
    let t = s.at(now);
    match (t.phase, event) {
        (Phase::Idle, Event::Start) => {
            lemma_begin_iteration_same_sends(t.start_clock());
        },
        (Phase::TickStats, Event::Reported) => {
            if t.rate_limit_unviolated() {
                lemma_send_packets_same_sends(
                    EngineState { sent: Seq::empty(), slots: t.batch_room(), ..t },
                );
            }
        },
        (Phase::Sending, Event::Sent) => {
            lemma_send_packets_same_sends(t.pending_sent());
        },
        (Phase::Receiving(family), Event::Received { header, remote }) => {
            let taken = EngineState {
                drained: (t.drained + 1) as usize,
                ..t.record_open_socket(header, remote)
            };
            if taken.drained >= BATCH_RECV_SIZE && family == IpFamily::V6
                && taken.open_ports.len() == 0 {
                lemma_next_iteration_same_sends(taken);
            }
        },
        (Phase::Receiving(family), Event::NothingReceived) => {
            if family == IpFamily::V6 && t.open_ports.len() == 0 {
                lemma_next_iteration_same_sends(t);
            }
        },
        (Phase::EmitResults, Event::Reported) => {
            lemma_next_iteration_same_sends(t);
        },
        _ => {},
    }
}

/// In every scan, the segments that the sockets took are the segments sent
/// for the probes of the scan, all together.
pub proof fn lemma_segments_are_sent_for_probes(
    start: EngineState,
    steps: Seq<Step>,
    probes: Seq<Probe>,
)
    requires
        start.inv(),
        probes.no_duplicates(),
        probes.to_set() == start.targets,
    ensures
        scan_after(start, steps).segments_taken + sends_to(start, probes) == start.segments_taken
            + sends_to(scan_after(start, steps), probes),
    decreases steps.len(),
{
    if steps.len() > 0 {
        let before = scan_after(start, steps.drop_last());
        let after = scan_after(start, steps);
        lemma_segments_are_sent_for_probes(start, steps.drop_last(), probes);
        lemma_scan_keeps_invariant(start, steps.drop_last());
        lemma_step_sends(before, steps.last().event, steps.last().now);
        if before.phase == Phase::Sending && steps.last().event == Event::Sent
            && before.pending is Some {
            let probe = before.pending->0;
            lemma_sends_to_one_more(before, after, probes, probe);
            assert(probes.to_set().contains(probe));
            lemma_count_contains(probes, probe);
            lemma_no_duplicates_count(probes, probe);
        } else {
            lemma_sends_to_same(before, after, probes);
        }
    }
}

/// A scan of probes that are all different, of which none was found open or
/// dropped, and that has ended without an error, has sent a segment for
/// every probe once and once more for each retry, and has settled every
/// probe; unless a count has reached its largest value.
pub proof fn lemma_unanswered_scan_sends_every_probe_retries_plus_one_times(
    upstream: Seq<Probe>,
    retries: u8,
    timeout: u64,
    rate_limit: Option<usize>,
    source_ipv4: Seq<u32>,
    source_ipv6: Seq<u128>,
    listening_port: u16,
    tcp_seq: u32,
    steps: Seq<Step>,
)
    requires
        upstream.no_duplicates(),
        ({
            let end = scan_after(
                initial_state(
                    upstream,
                    retries,
                    timeout,
                    rate_limit,
                    source_ipv4,
                    source_ipv6,
                    listening_port,
                    tcp_seq,
                ),
                steps,
            );
            end.phase == Phase::Done && end.outcome is Ok && end.no_opens() && end.skipped == 0
        }),
    ensures
        ({
            let end = scan_after(
                initial_state(
                    upstream,
                    retries,
                    timeout,
                    rate_limit,
                    source_ipv4,
                    source_ipv6,
                    listening_port,
                    tcp_seq,
                ),
                steps,
            );
            &&& end.total_sent == u128::MAX || end.total_sent == upstream.len() * (retries + 1)
            &&& end.processed == u128::MAX || end.processed == upstream.len()
        }),
{
    let start = initial_state(
        upstream,
        retries,
        timeout,
        rate_limit,
        source_ipv4,
        source_ipv6,
        listening_port,
        tcp_seq,
    );
    let end = scan_after(start, steps);
    crate::engine::laws::lemma_initial_state(
        upstream,
        retries,
        timeout,
        rate_limit,
        source_ipv4,
        source_ipv6,
        listening_port,
        tcp_seq,
    );
    lemma_initial_accounted(
        upstream,
        retries,
        timeout,
        rate_limit,
        source_ipv4,
        source_ipv6,
        listening_port,
        tcp_seq,
    );
    lemma_scan_keeps_invariant(start, steps);
    lemma_scan_keeps_books(start, steps);
    lemma_scan_keeps_parameters(start, steps);
    lemma_segments_are_sent_for_probes(start, steps, upstream);
    lemma_sends_to_all_alike(start, upstream, 0);
    assert(end.dropped =~= Set::<Probe>::empty());
    assert forall|i: int| 0 <= i < upstream.len() implies end.sent_count(#[trigger] upstream[i])
        == (retries + 1) as nat by {
        let probe = upstream[i];
        assert(upstream.contains(probe));
        assert(end.targets.contains(probe));
        lemma_clean_end_settles_every_probe(end, probe);
        lemma_count_contains(end.reported, probe);
    }
    lemma_sends_to_all_alike(end, upstream, (retries + 1) as nat);
    lemma_clean_end_counts_every_probe(end);
    upstream.unique_seq_to_set();
}

} // verus!
