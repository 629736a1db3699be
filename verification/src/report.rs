//! What becomes of a scan's reports: the endpoints found open, gathered and
//! grouped by host, and the figures of the progress display.
use vstd::prelude::*;
use crate::net::{IpAddress, Probe};
use crate::work::{ArmadaWorkMessage, WorkMessageView};

verus! {

/// The endpoints of every results report of `messages`, in order.
pub open spec fn results_of(messages: Seq<WorkMessageView>) -> Seq<Probe>
    decreases messages.len(),
{
    if messages.len() == 0 {
        Seq::empty()
    } else {
        results_of(messages.drop_last()) + match messages.last() {
            WorkMessageView::Results(results) => results,
            WorkMessageView::Stats(_) => Seq::empty(),
        }
    }
}

/// The views of a list of reports.
pub open spec fn views_of(messages: Seq<ArmadaWorkMessage>) -> Seq<WorkMessageView> {
    messages.map_values(|message: ArmadaWorkMessage| message@)
}

/// Gathers the endpoints found open from the reports of a scan, leaving the
/// statistics aside.
pub fn scan_collect(messages: &Vec<ArmadaWorkMessage>) -> (found: Vec<Probe>)
    ensures
        found@ == results_of(views_of(messages@)),
{
    let mut found: Vec<Probe> = Vec::new();
    let mut i: usize = 0;
    while i < messages.len()
        invariant
            0 <= i <= messages.len(),
            found@ == results_of(views_of(messages@).take(i as int)),
        decreases messages.len() - i,
    {
        let ghost views = views_of(messages@);
        proof {
            assert(views.take(i + 1).drop_last() =~= views.take(i as int));
        }
        match &messages[i] {
            ArmadaWorkMessage::Results(results) => {
                let ghost before = found@;
                let mut j: usize = 0;
                while j < results.len()
                    invariant
                        0 <= j <= results.len(),
                        found@ == before + results@.take(j as int),
                    decreases results.len() - j,
                {
                    found.push(results[j]);
                    proof {
                        assert(results@.take(j + 1) =~= results@.take(j as int).push(
                            results@[j as int],
                        ));
                    }
                    j = j + 1;
                }
                proof {
                    assert(results@.take(j as int) =~= results@);
                }
            },
            ArmadaWorkMessage::Stats { .. } => {
                proof {
                    assert(found@ + Seq::<Probe>::empty() =~= found@);
                }
            },
        }
        i = i + 1;
    }
    proof {
        assert(views_of(messages@).take(i as int) =~= views_of(messages@));
    }
    found
}

/// The IPv4 addresses among `ips`, in order.
pub open spec fn ipv4_of(ips: Seq<IpAddress>) -> Seq<u32>
    decreases ips.len(),
{
    if ips.len() == 0 {
        Seq::empty()
    } else {
        match ips.last() {
            IpAddress::V4(addr) => ipv4_of(ips.drop_last()).push(addr),
            IpAddress::V6(_) => ipv4_of(ips.drop_last()),
        }
    }
}

/// The IPv6 addresses among `ips`, in order.
pub open spec fn ipv6_of(ips: Seq<IpAddress>) -> Seq<u128>
    decreases ips.len(),
{
    if ips.len() == 0 {
        Seq::empty()
    } else {
        match ips.last() {
            IpAddress::V4(_) => ipv6_of(ips.drop_last()),
            IpAddress::V6(addr) => ipv6_of(ips.drop_last()).push(addr),
        }
    }
}

/// Parts source addresses by family, keeping their order.
pub fn split_and_enforce_source_ips(source_ips: &Vec<IpAddress>) -> (split: (Vec<u32>, Vec<u128>))
    ensures
        split.0@ == ipv4_of(source_ips@),
        split.1@ == ipv6_of(source_ips@),
{
    let mut source_ipv4_addrs: Vec<u32> = Vec::new();
    let mut source_ipv6_addrs: Vec<u128> = Vec::new();
    let mut i: usize = 0;
    while i < source_ips.len()
        invariant
            0 <= i <= source_ips.len(),
            source_ipv4_addrs@ == ipv4_of(source_ips@.take(i as int)),
            source_ipv6_addrs@ == ipv6_of(source_ips@.take(i as int)),
        decreases source_ips.len() - i,
    {
        proof {
            assert(source_ips@.take(i + 1).drop_last() =~= source_ips@.take(i as int));
        }
        match source_ips[i] {
            IpAddress::V4(addr) => source_ipv4_addrs.push(addr),
            IpAddress::V6(addr) => source_ipv6_addrs.push(addr),
        }
        i = i + 1;
    }
    proof {
        assert(source_ips@.take(i as int) =~= source_ips@);
    }
    (source_ipv4_addrs, source_ipv6_addrs)
}

/// The number of endpoints of a scan: hosts times ports, or `None` where
/// that cannot be counted in a `u128`.
pub fn total_ports(hosts: u128, ports: u64) -> (total: Option<u128>)
    ensures
        total == if hosts * ports <= u128::MAX {
            Some((hosts * ports) as u128)
        } else {
            None
        },
{
    hosts.checked_mul(ports as u128)
}

/// How far a scan has come, in endpoints: the segments sent, over the
/// number of times each endpoint is sent to when it does not answer. What
/// is beyond a `u64` counts as its largest value.
pub fn scan_position(total_packets_sent: u128, retries: u8) -> (position: u64)
    ensures
        position == if total_packets_sent as int / (1 + retries as int) > u64::MAX {
            u64::MAX
        } else {
            (total_packets_sent as int / (1 + retries as int)) as u64
        },
{
    let position = total_packets_sent / (1 + retries as u128);
    if position > u64::MAX as u128 {
        u64::MAX
    } else {
        position as u64
    }
}

/// The look of the progress bar of a scan that is neither limited in rate
/// nor retried.
pub const PROGRESS_STYLE_UNLIMITED: &'static str =
    "[ETA: {eta_precise:.dim}] {wide_bar:.blue} {pos:.dim}/{len:.dim} ports (Elapsed: {elapsed_precise:.dim})";

/// The look of the progress bar of any other scan.
pub const PROGRESS_STYLE_LIMITED: &'static str =
    "[ETA: {eta_precise:.dim}] {wide_bar:.red} {pos:.dim}/{len:.dim} ports (Elapsed: {elapsed_precise:.dim})";

/// The look of the progress bar: blue for a scan that is neither limited in
/// rate nor retried, red for any other.
pub fn get_progress_stylization(rate_limit: &Option<usize>, retries: u8) -> (style: &'static str)
    ensures
        style@ == if rate_limit is None && retries == 0 {
            PROGRESS_STYLE_UNLIMITED@
        } else {
            PROGRESS_STYLE_LIMITED@
        },
{
    match rate_limit {
        None => if retries == 0 {
            PROGRESS_STYLE_UNLIMITED
        } else {
            PROGRESS_STYLE_LIMITED
        },
        Some(_) => PROGRESS_STYLE_LIMITED,
    }
}

/// The ports of the endpoints of `results` at `ip`, in order.
pub open spec fn ports_at(results: Seq<Probe>, ip: IpAddress) -> Seq<u16>
    decreases results.len(),
{
    if results.len() == 0 {
        Seq::empty()
    } else if results.last().ip == ip {
        ports_at(results.drop_last(), ip).push(results.last().port)
    } else {
        ports_at(results.drop_last(), ip)
    }
}

/// The hosts of the endpoints of `results`, each once, in the order in
/// which they first occur.
pub open spec fn hosts_in(results: Seq<Probe>) -> Seq<IpAddress>
    decreases results.len(),
{
    if results.len() == 0 {
        Seq::empty()
    } else if hosts_in(results.drop_last()).contains(results.last().ip) {
        hosts_in(results.drop_last())
    } else {
        hosts_in(results.drop_last()).push(results.last().ip)
    }
}

/// A row of the report: a host and its open ports.
#[derive(Debug, PartialEq, Eq)]
pub struct ReportRow {
    pub ip: IpAddress,
    pub ports: Vec<u16>,
}

/// A host that does not occur in `results` has no ports there.
pub proof fn lemma_unseen_host_has_no_ports(results: Seq<Probe>, ip: IpAddress)
    requires
        !hosts_in(results).contains(ip),
    ensures
        ports_at(results, ip) == Seq::<u16>::empty(),
    decreases results.len(),
{
    if results.len() > 0 {
        let before = hosts_in(results.drop_last());
        if before.contains(results.last().ip) {
            lemma_unseen_host_has_no_ports(results.drop_last(), ip);
        } else {
            assert(before.push(results.last().ip)[before.len() as int] == results.last().ip);
            if before.contains(ip) {
                let i = choose|i: int| 0 <= i < before.len() && before[i] == ip;
                assert(before.push(results.last().ip)[i] == ip);
            }
            lemma_unseen_host_has_no_ports(results.drop_last(), ip);
        }
    }
}

/// No host is listed twice.
pub proof fn lemma_hosts_in_no_duplicates(results: Seq<Probe>)
    ensures
        hosts_in(results).no_duplicates(),
    decreases results.len(),
{
    if results.len() > 0 {
        lemma_hosts_in_no_duplicates(results.drop_last());
    }
}

/// The rows of the report of a scan: one for each host with an open port,
/// in the order in which the hosts were first found, each with the open
/// ports of its host in the order in which they were found.
pub fn write_report(scan_results: &Vec<Probe>) -> (rows: Vec<ReportRow>)
    ensures
        rows@.len() == hosts_in(scan_results@).len(),
        forall|k: int|
            0 <= k < rows@.len() ==> (#[trigger] rows@[k]).ip == hosts_in(scan_results@)[k]
                && rows@[k].ports@ == ports_at(scan_results@, rows@[k].ip),
{
    let mut rows: Vec<ReportRow> = Vec::new();
    let mut i: usize = 0;
    while i < scan_results.len()
        invariant
            0 <= i <= scan_results.len(),
            rows@.len() == hosts_in(scan_results@.take(i as int)).len(),
            forall|k: int|
                0 <= k < rows@.len() ==> (#[trigger] rows@[k]).ip == hosts_in(
                    scan_results@.take(i as int),
                )[k] && rows@[k].ports@ == ports_at(scan_results@.take(i as int), rows@[k].ip),
        decreases scan_results.len() - i,
    {
        let item = scan_results[i];
        let ghost seen = scan_results@.take(i as int);
        let ghost next = scan_results@.take(i + 1);
        proof {
            assert(next.drop_last() =~= seen);
            assert(next.last() == item);
        }
        let mut k: usize = 0;
        while k < rows.len() && rows[k].ip != item.ip
            invariant
                0 <= k <= rows.len(),
                rows@.len() == hosts_in(seen).len(),
                forall|j: int| 0 <= j < rows@.len() ==> (#[trigger] rows@[j]).ip == hosts_in(seen)[j],
                forall|j: int| 0 <= j < k ==> (#[trigger] rows@[j]).ip != item.ip,
            decreases rows.len() - k,
        {
            k = k + 1;
        }
        let ghost before = rows@;
        if k < rows.len() {
            let mut row = rows.remove(k);
            row.ports.push(item.port);
            let ghost grown = row;
            rows.insert(k, row);
            proof {
                assert(before[k as int].ip == item.ip);
                assert(hosts_in(seen)[k as int] == item.ip);
                assert(hosts_in(seen).contains(item.ip));
                assert(rows@ =~= before.update(k as int, grown));
                lemma_hosts_in_no_duplicates(seen);
                assert forall|j: int| 0 <= j < rows@.len() implies (#[trigger] rows@[j]).ip
                    == hosts_in(next)[j] && rows@[j].ports@ == ports_at(next, rows@[j].ip) by {
                    if j != k {
                        assert(rows@[j] == before[j]);
                        assert(before[j].ip == hosts_in(seen)[j]);
                        assert(hosts_in(seen)[j] != hosts_in(seen)[k as int]);
                    } else {
                        assert(before[k as int].ports@ == ports_at(seen, before[k as int].ip));
                    }
                }
            }
        } else {
            let mut ports: Vec<u16> = Vec::new();
            ports.push(item.port);
            rows.push(ReportRow { ip: item.ip, ports });
            proof {
                assert(!hosts_in(seen).contains(item.ip)) by {
                    if hosts_in(seen).contains(item.ip) {
                        let j = choose|j: int| 0 <= j < hosts_in(seen).len() && hosts_in(seen)[j]
                            == item.ip;
                        assert(before[j].ip == item.ip);
                    }
                }
                lemma_unseen_host_has_no_ports(seen, item.ip);
                assert forall|j: int| 0 <= j < rows@.len() implies (#[trigger] rows@[j]).ip
                    == hosts_in(next)[j] && rows@[j].ports@ == ports_at(next, rows@[j].ip) by {
                    if j < before.len() {
                        assert(rows@[j] == before[j]);
                        assert(before[j].ip == hosts_in(seen)[j]);
                    } else {
                        assert(rows@[j].ports@ =~= seq![item.port]);
                        assert(ports_at(next, item.ip) =~= seq![item.port]);
                    }
                }
            }
        }
        i = i + 1;
    }
    proof {
        assert(scan_results@.take(i as int) =~= scan_results@);
    }
    rows
}

} // verus!
