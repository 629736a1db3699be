//! Host sequences: an ordered list of CIDR blocks with a cursor.
use vstd::prelude::*;
use crate::config::cidr::CidrBlock;
use crate::net::IpAddress;

verus! {

/// The addresses of a list of blocks: all of the first block, then all of the
/// second, and so on.
pub open spec fn hosts_of(blocks: Seq<CidrBlock>) -> Seq<IpAddress>
    decreases blocks.len(),
{
    if blocks.len() == 0 {
        Seq::empty()
    } else {
        hosts_of(blocks.drop_last()) + blocks.last().hosts()
    }
}

/// The sum of the sizes of a list of blocks.
pub open spec fn total_hosts(blocks: Seq<CidrBlock>) -> nat
    decreases blocks.len(),
{
    if blocks.len() == 0 {
        0
    } else {
        total_hosts(blocks.drop_last()) + blocks.last().spec_count()
    }
}

/// `hosts_of` has as many addresses as `total_hosts` counts.
pub proof fn lemma_hosts_len(blocks: Seq<CidrBlock>)
    ensures
        hosts_of(blocks).len() == total_hosts(blocks),
    decreases blocks.len(),
{
    if blocks.len() > 0 {
        lemma_hosts_len(blocks.drop_last());
    }
}

/// Counting one more block adds its size.
pub proof fn lemma_total_hosts_step(blocks: Seq<CidrBlock>, k: int)
    requires
        0 <= k < blocks.len(),
    ensures
        total_hosts(blocks.take(k + 1)) == total_hosts(blocks.take(k)) + blocks[k].spec_count(),
{
    assert(blocks.take(k + 1).drop_last() =~= blocks.take(k));
}

/// A prefix of the blocks holds no more addresses than all of them.
pub proof fn lemma_total_hosts_prefix(blocks: Seq<CidrBlock>, k: int)
    requires
        0 <= k <= blocks.len(),
    ensures
        total_hosts(blocks.take(k)) <= total_hosts(blocks),
    decreases blocks.len() - k,
{
    if k < blocks.len() {
        lemma_total_hosts_step(blocks, k);
        lemma_total_hosts_prefix(blocks, k + 1);
    } else {
        assert(blocks.take(k) =~= blocks);
    }
}

/// The `j`-th address of block `k` stands in `hosts_of` behind all the
/// addresses of the blocks before `k`.
pub proof fn lemma_hosts_index(blocks: Seq<CidrBlock>, k: int, j: int)
    requires
        0 <= k < blocks.len(),
        0 <= j < blocks[k].spec_count(),
    ensures
        total_hosts(blocks.take(k)) + j < hosts_of(blocks).len(),
        hosts_of(blocks)[total_hosts(blocks.take(k)) + j] == blocks[k].host(j),
    decreases blocks.len(),
{
    lemma_hosts_len(blocks);
    lemma_hosts_len(blocks.drop_last());
    if k == blocks.len() - 1 {
        assert(blocks.take(k) =~= blocks.drop_last());
    } else {
        assert(blocks.drop_last().take(k) =~= blocks.take(k));
        lemma_hosts_index(blocks.drop_last(), k, j);
    }
}

/// The addresses of two lists of blocks, one after the other, are those of
/// the first list followed by those of the second.
pub proof fn lemma_hosts_of_concat(first: Seq<CidrBlock>, second: Seq<CidrBlock>)
    ensures
        hosts_of(first + second) == hosts_of(first) + hosts_of(second),
    decreases second.len(),
{
    if second.len() == 0 {
        assert(first + second =~= first);
        assert(hosts_of(first) + hosts_of(second) =~= hosts_of(first));
    } else {
        assert((first + second).drop_last() =~= first + second.drop_last());
        lemma_hosts_of_concat(first, second.drop_last());
        assert(hosts_of(first + second) =~= hosts_of(first) + hosts_of(second));
    }
}

/// An ordered list of CIDR blocks, and a cursor into the addresses they hold.
#[derive(Debug)]
pub struct HostIterator {
    inner: Vec<CidrBlock>,
    /// The block the cursor stands in; the number of blocks once all are
    /// walked.
    current_cidr_idx: usize,
    /// How many addresses of that block have been handed out.
    current_offset: u128,
}

impl HostIterator {
    /// The blocks, in the order in which they were added.
    pub closed spec fn blocks(&self) -> Seq<CidrBlock> {
        self.inner@
    }

    /// The blocks are well formed, their addresses can be counted in a
    /// `u128`, and the cursor lies within them.
    pub closed spec fn wf(&self) -> bool {
        &&& forall|i: int| 0 <= i < self.inner@.len() ==> (#[trigger] self.inner@[i]).wf()
        &&& total_hosts(self.inner@) <= u128::MAX
        &&& self.current_cidr_idx <= self.inner@.len()
        &&& self.current_cidr_idx < self.inner@.len() ==> self.current_offset
            <= self.inner@[self.current_cidr_idx as int].spec_count()
        &&& self.current_cidr_idx == self.inner@.len() ==> self.current_offset == 0
    }

    /// Every address of the sequence, walked or not: all of the first block,
    /// then all of the second, and so on.
    pub open spec fn all_hosts(&self) -> Seq<IpAddress> {
        hosts_of(self.blocks())
    }

    /// The number of addresses in the sequence.
    pub open spec fn spec_size(&self) -> nat {
        total_hosts(self.blocks())
    }

    /// How many addresses `next` has handed out since the sequence was made
    /// or last reset.
    pub closed spec fn position(&self) -> nat {
        total_hosts(self.inner@.take(self.current_cidr_idx as int)) + self.current_offset as nat
    }

    /// The addresses that `next` has yet to hand out, in order.
    pub open spec fn remaining(&self) -> Seq<IpAddress> {
        self.all_hosts().skip(self.position() as int)
    }

    /// The cursor never runs past the last address.
    pub proof fn lemma_position_bound(&self)
        requires
            self.wf(),
        ensures
            self.position() <= self.spec_size(),
            self.all_hosts().len() == self.spec_size(),
    {
        let k = self.current_cidr_idx as int;
        lemma_hosts_len(self.inner@);
        lemma_total_hosts_prefix(self.inner@, k);
        if k < self.inner@.len() {
            lemma_total_hosts_step(self.inner@, k);
            lemma_total_hosts_prefix(self.inner@, k + 1);
        }
    }

    /// Walking a sequence from its start hands out every address of its
    /// blocks, block by block in the order in which they were added, and as
    /// many addresses as the sizes of the blocks add up to.
    pub proof fn lemma_round_trip(&self)
        requires
            self.wf(),
            self.position() == 0,
        ensures
            self.remaining() == hosts_of(self.blocks()),
            self.remaining().len() == total_hosts(self.blocks()),
            self.remaining().len() == self.spec_size(),
    {
        lemma_hosts_len(self.blocks());
        assert(self.all_hosts().skip(0) =~= self.all_hosts());
    }

    /// A sequence without blocks.
    pub fn new() -> (hosts: Self)
        ensures
            hosts.wf(),
            hosts.blocks() == Seq::<CidrBlock>::empty(),
            hosts.position() == 0,
    {
        let hosts = HostIterator { inner: Vec::new(), current_cidr_idx: 0, current_offset: 0 };
        proof {
            assert(hosts.inner@.take(0) =~= Seq::<CidrBlock>::empty());
        }
        hosts
    }

    /// The number of addresses in the sequence: the sum of the sizes of its
    /// blocks.
    pub fn size(&self) -> (n: u128)
        requires
            self.wf(),
        ensures
            n == self.spec_size(),
            n == self.all_hosts().len(),
    {
        let mut n: u128 = 0;
        let mut i: usize = 0;
        while i < self.inner.len()
            invariant
                self.wf(),
                0 <= i <= self.inner.len(),
                n == total_hosts(self.inner@.take(i as int)),
            decreases self.inner.len() - i,
        {
            proof {
                lemma_total_hosts_step(self.inner@, i as int);
                lemma_total_hosts_prefix(self.inner@, i + 1);
                assert(self.inner@[i as int].wf());
            }
            n = n + self.inner[i].last_offset() + 1;
            i = i + 1;
        }
        proof {
            assert(self.inner@.take(i as int) =~= self.inner@);
            lemma_hosts_len(self.inner@);
        }
        n
    }

    /// Appends the single address `addr`, as a /32 or a /128.
    pub fn add_ip(self, addr: IpAddress) -> (hosts: Self)
        requires
            self.wf(),
            self.spec_size() + 1 <= u128::MAX,
        ensures
            hosts.wf(),
            hosts.blocks() == self.blocks().push(CidrBlock::spec_single(addr)),
            hosts.all_hosts() == self.all_hosts().push(addr),
            hosts.position() == self.position(),
    {
        let hosts = self.add_cidr(CidrBlock::single(addr));
        proof {
            assert(hosts.blocks().drop_last() =~= self.blocks());
            assert(hosts.all_hosts() =~= self.all_hosts().push(addr));
        }
        hosts
    }

    /// Appends the addresses of `addrs`, each as a block of its own.
    pub fn add_ips(self, addrs: Vec<IpAddress>) -> (hosts: Self)
        requires
            self.wf(),
            self.spec_size() + addrs@.len() <= u128::MAX,
        ensures
            hosts.wf(),
            hosts.blocks() == self.blocks() + addrs@.map_values(
                |addr: IpAddress| CidrBlock::spec_single(addr),
            ),
            hosts.all_hosts() == self.all_hosts() + addrs@,
            hosts.position() == self.position(),
    {
        let mut hosts = self;
        let mut i: usize = 0;
        while i < addrs.len()
            invariant
                0 <= i <= addrs.len(),
                hosts.wf(),
                hosts.spec_size() == self.spec_size() + i,
                self.spec_size() + addrs@.len() <= u128::MAX,
                hosts.all_hosts() == self.all_hosts() + addrs@.take(i as int),
                hosts.blocks() == self.blocks() + addrs@.take(i as int).map_values(
                    |addr: IpAddress| CidrBlock::spec_single(addr),
                ),
                hosts.position() == self.position(),
            decreases addrs.len() - i,
        {
            let ghost before = hosts;
            hosts = hosts.add_ip(addrs[i]);
            proof {
                assert(addrs@.take(i + 1) =~= addrs@.take(i as int).push(addrs@[i as int]));
                assert(hosts.all_hosts() =~= self.all_hosts() + addrs@.take(i + 1));
                assert(hosts.blocks() =~= self.blocks() + addrs@.take(i + 1).map_values(
                    |addr: IpAddress| CidrBlock::spec_single(addr),
                ));
                assert(hosts.blocks().drop_last() =~= before.blocks());
                vstd::arithmetic::power2::lemma2_to64();
            }
            i = i + 1;
        }
        proof {
            assert(addrs@.take(i as int) =~= addrs@);
        }
        hosts
    }

    /// Appends the block `range`. What has been handed out stays handed out.
    pub fn add_cidr(self, range: CidrBlock) -> (hosts: Self)
        requires
            self.wf(),
            range.wf(),
            self.spec_size() + range.spec_count() <= u128::MAX,
        ensures
            hosts.wf(),
            hosts.blocks() == self.blocks().push(range),
            hosts.position() == self.position(),
    {
        let mut hosts = self;
        hosts.inner.push(range);
        proof {
            let k = self.current_cidr_idx as int;
            assert(hosts.inner@.drop_last() =~= self.inner@);
            assert(hosts.inner@.take(k) =~= self.inner@.take(k));
            assert forall|i: int| 0 <= i < hosts.inner@.len() implies (#[trigger] hosts.inner@[i]).wf() by {
                if i < self.inner@.len() {
                    assert(self.inner@[i].wf());
                }
            }
        }
        hosts
    }

    /// Appends the block `range` if it is well formed and the addresses of
    /// the sequence can still be counted with it; else hands the sequence
    /// back as it was.
    pub fn try_add_cidr(self, range: CidrBlock) -> (added: Result<HostIterator, HostIterator>)
        requires
            self.wf(),
        ensures
            added is Ok <==> range.wf() && self.spec_size() + range.spec_count() <= u128::MAX,
            added matches Ok(hosts) ==> hosts.wf() && hosts.blocks() == self.blocks().push(range)
                && hosts.position() == self.position(),
            added matches Err(hosts) ==> hosts == self,
    {
        if !range.is_well_formed() {
            return Err(self);
        }
        let span = range.last_offset();
        let counted = self.size();
        if span == u128::MAX || counted > u128::MAX - (span + 1) {
            return Err(self);
        }
        Ok(self.add_cidr(range))
    }

    /// Moves the cursor back before the first address.
    pub fn reset(&mut self)
        requires
            old(self).wf(),
        ensures
            final(self).wf(),
            final(self).blocks() == old(self).blocks(),
            final(self).position() == 0,
    {
        self.current_cidr_idx = 0;
        self.current_offset = 0;
        proof {
            assert(self.inner@.take(0) =~= Seq::<CidrBlock>::empty());
        }
    }

    /// Hands out the next address: the blocks in the order in which they were
    /// added, each from its first address to its last. `None` once every
    /// address has been handed out.
    pub fn next(&mut self) -> (host: Option<IpAddress>)
        requires
            old(self).wf(),
        ensures
            final(self).wf(),
            final(self).blocks() == old(self).blocks(),
            old(self).remaining().len() > 0 ==> {
                &&& host == Some(old(self).remaining()[0])
                &&& final(self).position() == old(self).position() + 1
            },
            old(self).remaining().len() == 0 ==> {
                &&& host is None
                &&& final(self).position() == old(self).position()
            },
    {
        proof {
            old(self).lemma_position_bound();
        }
        while self.current_cidr_idx < self.inner.len()
            invariant
                self.wf(),
                self.inner@ == old(self).inner@,
                self.position() == old(self).position(),
            decreases self.inner.len() - self.current_cidr_idx,
        {
            let block = self.inner[self.current_cidr_idx];
            assert(block.wf());
            let span = block.last_offset();
            if self.current_offset <= span {
                let host = block.host_at(self.current_offset);
                proof {
                    lemma_hosts_index(
                        self.inner@,
                        self.current_cidr_idx as int,
                        self.current_offset as int,
                    );
                    lemma_total_hosts_step(self.inner@, self.current_cidr_idx as int);
                    lemma_total_hosts_prefix(self.inner@, self.current_cidr_idx + 1);
                }
                self.current_offset = self.current_offset + 1;
                return Some(host);
            }
            proof {
                lemma_total_hosts_step(self.inner@, self.current_cidr_idx as int);
            }
            self.current_cidr_idx = self.current_cidr_idx + 1;
            self.current_offset = 0;
        }
        proof {
            assert(self.inner@.take(self.current_cidr_idx as int) =~= self.inner@);
            lemma_hosts_len(self.inner@);
        }
        None
    }
}

impl Clone for HostIterator {
    /// A sequence over the same blocks, with the cursor before the first
    /// address.
    fn clone(&self) -> (hosts: Self)
        ensures
            self.wf() ==> hosts.wf(),
            hosts.blocks() == self.blocks(),
            hosts.position() == 0,
    {
        let mut inner: Vec<CidrBlock> = Vec::new();
        let mut i: usize = 0;
        while i < self.inner.len()
            invariant
                0 <= i <= self.inner.len(),
                inner@ == self.inner@.take(i as int),
            decreases self.inner.len() - i,
        {
            inner.push(self.inner[i]);
            proof {
                assert(inner@ =~= self.inner@.take(i + 1));
            }
            i = i + 1;
        }
        proof {
            assert(self.inner@.take(i as int) =~= self.inner@);
            assert(inner@.take(0) =~= Seq::<CidrBlock>::empty());
        }
        HostIterator { inner, current_cidr_idx: 0, current_offset: 0 }
    }
}

} // verus!
