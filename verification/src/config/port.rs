//! Port sequences: an ordered list of inclusive port ranges with a cursor.
use vstd::prelude::*;

verus! {

/// The ports of the inclusive range `start..=end`, in increasing order.
/// Empty when `start > end`.
pub open spec fn range_ports(start: u16, end: u16) -> Seq<u16> {
    Seq::new(
        if start <= end {
            (end - start + 1) as nat
        } else {
            0
        },
        |i: int| (start + i) as u16,
    )
}

/// The ports of a list of ranges: those of the first range, then those of the
/// second, and so on.
pub open spec fn ports_of(ranges: Seq<(u16, u16)>) -> Seq<u16>
    decreases ranges.len(),
{
    if ranges.len() == 0 {
        Seq::empty()
    } else {
        ports_of(ranges.drop_last()) + range_ports(ranges.last().0, ranges.last().1)
    }
}

/// The sum of `end - start + 1` over a list of ranges.
pub open spec fn total_ports(ranges: Seq<(u16, u16)>) -> nat
    decreases ranges.len(),
{
    if ranges.len() == 0 {
        0
    } else {
        total_ports(ranges.drop_last()) + range_ports(ranges.last().0, ranges.last().1).len()
    }
}

/// One inclusive range of ports and how far it has been walked.
#[derive(Clone, Copy, Debug)]
pub struct PortRegion {
    pub start: u16,
    pub end: u16,
    /// Offset of the port handed out last, if any.
    pub idx: Option<u16>,
}

impl PortRegion {
    /// The range is not reversed and the cursor lies inside it.
    pub open spec fn wf(&self) -> bool {
        &&& self.start <= self.end
        &&& self.idx matches Some(i) ==> i <= self.end - self.start
    }

    /// The ports of the region, walked or not.
    pub open spec fn ports(&self) -> Seq<u16> {
        range_ports(self.start, self.end)
    }

    /// How many ports have been handed out.
    pub open spec fn yielded(&self) -> nat {
        match self.idx {
            Some(i) => (i + 1) as nat,
            None => 0,
        }
    }

    /// No port has been handed out yet.
    pub open spec fn fresh(&self) -> bool {
        self.idx is None
    }

    /// Every port has been handed out.
    pub open spec fn exhausted(&self) -> bool {
        self.yielded() == self.ports().len()
    }

    /// A region over `start..=end` with nothing handed out.
    pub fn new(start: u16, end: u16) -> (region: Self)
        ensures
            region.start == start,
            region.end == end,
            region.idx is None,
    {
        PortRegion { start, end, idx: None }
    }

    /// Forgets what has been handed out.
    pub fn reset(&mut self)
        ensures
            final(self).start == old(self).start,
            final(self).end == old(self).end,
            final(self).idx is None,
    {
        self.idx = None;
    }

    /// The number of ports in the region, `end - start + 1`.
    pub fn size(&self) -> (n: u32)
        requires
            self.start <= self.end,
        ensures
            n == self.end - self.start + 1,
            n == self.ports().len(),
    {
        (self.end - self.start) as u32 + 1
    }

    /// Hands out the next port of the region, in increasing order, or `None`
    /// once `end` has been handed out.
    pub fn next(&mut self) -> (port: Option<u16>)
        requires
            old(self).wf(),
        ensures
            final(self).wf(),
            final(self).start == old(self).start,
            final(self).end == old(self).end,
            !old(self).exhausted() ==> {
                &&& port == Some(old(self).ports()[old(self).yielded() as int])
                &&& final(self).yielded() == old(self).yielded() + 1
            },
            old(self).exhausted() ==> port is None && final(self).idx == old(self).idx,
    {
        match self.idx {
            Some(i) => {
                if i < self.end - self.start {
                    self.idx = Some(i + 1);
                    Some(self.start + (i + 1))
                } else {
                    None
                }
            },
            None => {
                self.idx = Some(0);
                Some(self.start)
            },
        }
    }
}


/// `(start, end)` of every region, in order.
pub open spec fn bounds_of(regions: Seq<PortRegion>) -> Seq<(u16, u16)> {
    regions.map_values(|r: PortRegion| (r.start, r.end))
}

/// The cursor `k` of a list of regions is consistent: the regions before it
/// are used up and those after it are untouched.
pub open spec fn cursor_ok(regions: Seq<PortRegion>, k: int) -> bool {
    &&& 0 <= k <= regions.len()
    &&& forall|i: int| 0 <= i < regions.len() ==> (#[trigger] regions[i]).wf()
    &&& forall|i: int| 0 <= i < k ==> (#[trigger] regions[i]).exhausted()
    &&& forall|i: int| k < i < regions.len() ==> (#[trigger] regions[i]).fresh()
}

/// How many ports have been handed out when the cursor stands at region `k`.
pub open spec fn yielded_at(regions: Seq<PortRegion>, k: int) -> nat {
    total_ports(bounds_of(regions).take(k)) + if k < regions.len() {
        regions[k].yielded()
    } else {
        0
    }
}

/// `ports_of` has as many ports as `total_ports` counts.
pub proof fn lemma_ports_len(ranges: Seq<(u16, u16)>)
    ensures
        ports_of(ranges).len() == total_ports(ranges),
    decreases ranges.len(),
{
    if ranges.len() > 0 {
        lemma_ports_len(ranges.drop_last());
    }
}

/// Counting one more range adds its length.
pub proof fn lemma_total_step(ranges: Seq<(u16, u16)>, k: int)
    requires
        0 <= k < ranges.len(),
    ensures
        total_ports(ranges.take(k + 1)) == total_ports(ranges.take(k)) + range_ports(
            ranges[k].0,
            ranges[k].1,
        ).len(),
{
    assert(ranges.take(k + 1).drop_last() =~= ranges.take(k));
}

/// A prefix of the ranges holds no more ports than all of them.
pub proof fn lemma_total_prefix(ranges: Seq<(u16, u16)>, k: int)
    requires
        0 <= k <= ranges.len(),
    ensures
        total_ports(ranges.take(k)) <= total_ports(ranges),
    decreases ranges.len() - k,
{
    if k < ranges.len() {
        lemma_total_step(ranges, k);
        lemma_total_prefix(ranges, k + 1);
    } else {
        assert(ranges.take(k) =~= ranges);
    }
}

/// The `j`-th port of range `k` stands in `ports_of` behind all the ports of
/// the ranges before `k`.
pub proof fn lemma_ports_index(ranges: Seq<(u16, u16)>, k: int, j: int)
    requires
        0 <= k < ranges.len(),
        0 <= j < range_ports(ranges[k].0, ranges[k].1).len(),
    ensures
        total_ports(ranges.take(k)) + j < ports_of(ranges).len(),
        ports_of(ranges)[total_ports(ranges.take(k)) + j] == range_ports(
            ranges[k].0,
            ranges[k].1,
        )[j],
    decreases ranges.len(),
{
    lemma_ports_len(ranges);
    lemma_ports_len(ranges.drop_last());
    if k == ranges.len() - 1 {
        assert(ranges.take(k) =~= ranges.drop_last());
    } else {
        assert(ranges.drop_last().take(k) =~= ranges.take(k));
        lemma_ports_index(ranges.drop_last(), k, j);
    }
}

/// The ports of two lists of ranges, one after the other, are those of the
/// first list followed by those of the second.
pub proof fn lemma_ports_of_concat(first: Seq<(u16, u16)>, second: Seq<(u16, u16)>)
    ensures
        ports_of(first + second) == ports_of(first) + ports_of(second),
    decreases second.len(),
{
    if second.len() == 0 {
        assert(first + second =~= first);
        assert(ports_of(first) + ports_of(second) =~= ports_of(first));
    } else {
        assert((first + second).drop_last() =~= first + second.drop_last());
        lemma_ports_of_concat(first, second.drop_last());
        assert(ports_of(first + second) =~= ports_of(first) + ports_of(second));
    }
}

/// An ordered list of inclusive port ranges, and a cursor into the ports they
/// hold.
#[derive(Debug)]
pub struct PortIterator {
    inner: Vec<PortRegion>,
    idx: Option<usize>,
}

impl PortIterator {
    /// `(start, end)` of every range, in the order in which they were added.
    pub closed spec fn ranges(&self) -> Seq<(u16, u16)> {
        bounds_of(self.inner@)
    }

    closed spec fn cursor(&self) -> int {
        match self.idx {
            Some(k) => k as int,
            None => 0,
        }
    }

    /// The ranges are not reversed, their ports can be counted in a `u64`, and
    /// the cursor is consistent.
    pub closed spec fn wf(&self) -> bool {
        &&& cursor_ok(self.inner@, self.cursor())
        &&& total_ports(self.ranges()) <= u64::MAX
        &&& self.idx is None && self.inner@.len() > 0 ==> self.inner@[0].fresh()
    }

    /// Every port of the sequence, walked or not: all of the first range, then
    /// all of the second, and so on.
    pub open spec fn all_ports(&self) -> Seq<u16> {
        ports_of(self.ranges())
    }

    /// The number of ports in the sequence.
    pub open spec fn spec_size(&self) -> nat {
        total_ports(self.ranges())
    }

    /// How many ports `next` has handed out since the sequence was made or
    /// last reset.
    pub closed spec fn position(&self) -> nat {
        yielded_at(self.inner@, self.cursor())
    }

    /// The ports that `next` has yet to hand out, in order.
    pub open spec fn remaining(&self) -> Seq<u16> {
        self.all_ports().skip(self.position() as int)
    }

    /// The cursor never runs past the last port.
    pub proof fn lemma_position_bound(&self)
        requires
            self.wf(),
        ensures
            self.position() <= self.spec_size(),
            self.all_ports().len() == self.spec_size(),
    {
        let k = self.cursor();
        lemma_ports_len(self.ranges());
        lemma_total_prefix(self.ranges(), k);
        if k < self.inner@.len() {
            lemma_total_step(self.ranges(), k);
            lemma_total_prefix(self.ranges(), k + 1);
            assert(self.inner@[k].wf());
        }
    }

    /// Walking a sequence from its start hands out every port of its ranges,
    /// range by range in the order in which they were added, and as many
    /// ports as `size` reports: the sum of `end - start + 1`.
    pub proof fn lemma_round_trip(&self)
        requires
            self.wf(),
            self.position() == 0,
        ensures
            self.remaining() == ports_of(self.ranges()),
            self.remaining().len() == total_ports(self.ranges()),
            self.remaining().len() == self.spec_size(),
    {
        lemma_ports_len(self.ranges());
        assert(self.all_ports().skip(0) =~= self.all_ports());
    }

    /// A sequence without ranges.
    pub fn new() -> (ports: Self)
        ensures
            ports.wf(),
            ports.ranges() == Seq::<(u16, u16)>::empty(),
            ports.position() == 0,
    {
        let ports = PortIterator { inner: Vec::new(), idx: None };
        proof {
            assert(ports.ranges() =~= Seq::<(u16, u16)>::empty());
            assert(bounds_of(ports.inner@).take(0) =~= Seq::<(u16, u16)>::empty());
        }
        ports
    }

    /// The number of ports in the sequence: the sum of `end - start + 1` over
    /// its ranges.
    pub fn size(&self) -> (n: u64)
        requires
            self.wf(),
        ensures
            n == self.spec_size(),
            n == self.all_ports().len(),
    {
        let mut n: u64 = 0;
        let mut i: usize = 0;
        while i < self.inner.len()
            invariant
                self.wf(),
                0 <= i <= self.inner.len(),
                n == total_ports(self.ranges().take(i as int)),
            decreases self.inner.len() - i,
        {
            proof {
                lemma_total_step(self.ranges(), i as int);
                lemma_total_prefix(self.ranges(), i + 1);
                assert(self.inner@[i as int].wf());
            }
            n = n + self.inner[i].size() as u64;
            i = i + 1;
        }
        proof {
            assert(self.ranges().take(i as int) =~= self.ranges());
            lemma_ports_len(self.ranges());
        }
        n
    }

    /// Appends the single port `port`.
    pub fn add_port(self, port: u16) -> (ports: Self)
        requires
            self.wf(),
            self.spec_size() + 1 <= u64::MAX,
        ensures
            ports.wf(),
            ports.ranges() == self.ranges().push((port, port)),
            ports.position() == self.position(),
    {
        self.add_range(port, port)
    }

    /// Appends the inclusive range `start..=end`. What has been handed out
    /// stays handed out.
    pub fn add_range(self, start: u16, end: u16) -> (ports: Self)
        requires
            self.wf(),
            start <= end,
            self.spec_size() + (end - start + 1) <= u64::MAX,
        ensures
            ports.wf(),
            ports.ranges() == self.ranges().push((start, end)),
            ports.position() == self.position(),
    {
        let mut ports = self;
        ports.inner.push(PortRegion::new(start, end));
        proof {
            let before = self.inner@;
            let after = ports.inner@;
            let k = self.cursor();
            assert(ports.ranges() =~= self.ranges().push((start, end)));
            assert(ports.ranges().drop_last() =~= self.ranges());
            assert(ports.ranges().take(k) =~= self.ranges().take(k));
            assert forall|i: int| 0 <= i < after.len() implies (#[trigger] after[i]).wf() by {
                if i < before.len() {
                    assert(before[i].wf());
                }
            }
            assert forall|i: int| 0 <= i < k implies (#[trigger] after[i]).exhausted() by {
                assert(before[i].exhausted());
            }
            assert forall|i: int| k < i < after.len() implies (#[trigger] after[i]).fresh() by {
                if i < before.len() {
                    assert(before[i].fresh());
                }
            }
        }
        ports
    }

    /// Appends the inclusive range `start..=end` if it is not reversed and
    /// the ports of the sequence can still be counted with it; else hands
    /// the sequence back as it was.
    pub fn try_add_range(self, start: u16, end: u16) -> (added: Result<PortIterator, PortIterator>)
        requires
            self.wf(),
        ensures
            added is Ok <==> start <= end && self.spec_size() + (end - start + 1) <= u64::MAX,
            added matches Ok(ports) ==> ports.wf() && ports.ranges() == self.ranges().push(
                (start, end),
            ) && ports.position() == self.position(),
            added matches Err(ports) ==> ports == self,
    {
        if start > end {
            return Err(self);
        }
        let counted = self.size();
        if counted > u64::MAX - ((end - start) as u64 + 1) {
            return Err(self);
        }
        Ok(self.add_range(start, end))
    }

    /// Moves the cursor back before the first port.
    pub fn reset(&mut self)
        requires
            old(self).wf(),
        ensures
            final(self).wf(),
            final(self).ranges() == old(self).ranges(),
            final(self).position() == 0,
    {
        let mut i: usize = 0;
        while i < self.inner.len()
            invariant
                0 <= i <= self.inner.len(),
                bounds_of(self.inner@) == bounds_of(old(self).inner@),
                forall|j: int| 0 <= j < self.inner@.len() ==> (#[trigger] self.inner@[j]).start <= self.inner@[j].end,
                forall|j: int| 0 <= j < i ==> (#[trigger] self.inner@[j]).fresh(),
            decreases self.inner.len() - i,
        {
            let mut region = self.inner[i];
            region.reset();
            let ghost before = self.inner@;
            self.inner.set(i, region);
            proof {
                assert(bounds_of(self.inner@) =~= bounds_of(before));
            }
            i = i + 1;
        }
        self.idx = None;
        proof {
            assert(bounds_of(self.inner@).take(0) =~= Seq::<(u16, u16)>::empty());
        }
    }

    /// Hands out the next port: the ranges in the order in which they were
    /// added, each from `start` up to `end`. `None` once every port has been
    /// handed out.
    pub fn next(&mut self) -> (port: Option<u16>)
        requires
            old(self).wf(),
        ensures
            final(self).wf(),
            final(self).ranges() == old(self).ranges(),
            old(self).remaining().len() > 0 ==> {
                &&& port == Some(old(self).remaining()[0])
                &&& final(self).position() == old(self).position() + 1
            },
            old(self).remaining().len() == 0 ==> {
                &&& port is None
                &&& final(self).position() == old(self).position()
            },
    {
        let mut k: usize = match self.idx {
            Some(k) => k,
            None => 0,
        };
        proof {
            old(self).lemma_position_bound();
        }
        while k < self.inner.len()
            invariant
                self.inner@ == old(self).inner@,
                cursor_ok(self.inner@, k as int),
                yielded_at(self.inner@, k as int) == old(self).position(),
                total_ports(bounds_of(self.inner@)) <= u64::MAX,
            decreases self.inner.len() - k,
        {
            let mut region = self.inner[k];
            let ghost probed = region;
            assert(probed.wf());
            let port = region.next();
            match port {
                Some(p) => {
                    self.inner.set(k, region);
                    self.idx = Some(k);
                    proof {
                        let before = old(self).inner@;
                        let after = self.inner@;
                        assert(bounds_of(after) =~= bounds_of(before));
                        lemma_ports_index(bounds_of(before), k as int, probed.yielded() as int);
                        assert forall|i: int| 0 <= i < after.len() implies (#[trigger] after[i]).wf() by {
                            if i != k {
                                assert(before[i].wf());
                            }
                        }
                        assert forall|i: int| 0 <= i < k implies (#[trigger] after[i]).exhausted() by {
                            assert(before[i].exhausted());
                        }
                        assert forall|i: int| k < i < after.len() implies (#[trigger] after[i]).fresh() by {
                            assert(before[i].fresh());
                        }
                    }
                    return Some(p);
                },
                None => {
                    proof {
                        lemma_total_step(bounds_of(self.inner@), k as int);
                        if k + 1 < self.inner@.len() {
                            assert(self.inner@[k + 1].fresh());
                        }
                    }
                    k = k + 1;
                },
            }
        }
        self.idx = Some(k);
        proof {
            assert(bounds_of(self.inner@).take(k as int) =~= bounds_of(self.inner@));
            lemma_ports_len(bounds_of(self.inner@));
        }
        None
    }
}

impl Clone for PortIterator {
    /// A sequence over the same ranges, with the cursor before the first port.
    fn clone(&self) -> (ports: Self)
        ensures
            self.wf() ==> ports.wf(),
            ports.ranges() == self.ranges(),
            ports.position() == 0,
    {
        let mut inner: Vec<PortRegion> = Vec::new();
        let mut i: usize = 0;
        while i < self.inner.len()
            invariant
                0 <= i <= self.inner.len(),
                inner@.len() == i,
                bounds_of(inner@) == bounds_of(self.inner@).take(i as int),
                forall|j: int| 0 <= j < i ==> (#[trigger] inner@[j]).fresh(),
            decreases self.inner.len() - i,
        {
            let region = &self.inner[i];
            let ghost before = inner@;
            inner.push(PortRegion::new(region.start, region.end));
            proof {
                assert(bounds_of(inner@) =~= bounds_of(self.inner@).take(i + 1));
            }
            i = i + 1;
        }
        let ports = PortIterator { inner, idx: None };
        proof {
            assert(bounds_of(self.inner@).take(i as int) =~= bounds_of(self.inner@));
            assert(bounds_of(ports.inner@).take(0) =~= Seq::<(u16, u16)>::empty());
            if self.wf() {
                assert forall|j: int| 0 <= j < ports.inner@.len() implies (#[trigger] ports.inner@[j]).wf() by {
                    assert(self.inner@[j].wf());
                    assert(bounds_of(ports.inner@)[j] == bounds_of(self.inner@)[j]);
                }
            }
        }
        ports
    }
}

} // verus!
