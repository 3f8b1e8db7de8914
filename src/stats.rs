use vstd::prelude::*;
use vstd::multiset::Multiset;
use crate::codec::{decimal, push_decimal};

verus! {

/// Length of a throughput probe, in seconds: a rate is a count over this span.
pub const PROBE_SECONDS: u64 = 10;

/// Replies one client echoed during a throughput probe. Its rate in messages per second is
/// `count / PROBE_SECONDS`, so rates order as counts do.
#[derive(Clone, Debug)]
pub struct TestResultStats {
    pub client: String,
    pub count: usize,
}

impl TestResultStats {
    pub fn new(client: String) -> (r: TestResultStats)
        ensures
            r.client@ == client@,
            r.count == 0,
    {
        TestResultStats { client, count: 0 }
    }
}

pub open spec fn sorted_by_count(s: Seq<TestResultStats>) -> bool {
    forall|i: int, j: int| 0 <= i < j < s.len() ==> (#[trigger] s[i]).count <= (#[trigger] s[j]).count
}

pub open spec fn sum_counts(s: Seq<TestResultStats>) -> nat
    decreases s.len(),
{
    if s.len() == 0 {
        0
    } else {
        sum_counts(s.drop_last()) + s.last().count as nat
    }
}

/// Throughput results of several clients, ascending by rate, with the lowest and highest count
/// and the sum of all counts. The average rate is `total / (results.len() * PROBE_SECONDS)`.
pub struct StatsCollection {
    pub results: Vec<TestResultStats>,
    pub min: usize,
    pub max: usize,
    pub total: u128,
}

impl StatsCollection {
    /// Sorts the results ascending by rate and reduces them to their minimum, maximum and sum;
    /// all three are zero for no results.
    pub fn new(results: Vec<TestResultStats>) -> (r: StatsCollection)
        ensures
            r.results@.to_multiset() == results@.to_multiset(),
            sorted_by_count(r.results@),
            r.total == sum_counts(r.results@),
            results.len() == 0 ==> r.results.len() == 0 && r.min == 0 && r.max == 0 && r.total == 0,
            results.len() > 0 ==> r.min == r.results[0].count && r.max == r.results[r.results.len()
                - 1].count,
            forall|i: int|
                0 <= i < r.results.len() ==> r.min <= (#[trigger] r.results[i]).count <= r.max,
    {
        broadcast use vstd::seq_lib::group_to_multiset_ensures;

        let ghost input = results@;
        let mut rest = results;
        let mut sorted: Vec<TestResultStats> = Vec::new();
        while rest.len() > 0
            invariant
                sorted@.to_multiset().add(rest@.to_multiset()) == input.to_multiset(),
                sorted_by_count(sorted@),
                sorted.len() + rest.len() == input.len(),
            decreases rest.len(),
        {
            let ghost before = rest@;
            let x = rest.pop().unwrap();
            proof {
                assert(before =~= rest@.push(x));
                vstd::seq_lib::to_multiset_build(rest@, x);
            }
            let mut p: usize = 0;
            while p < sorted.len() && sorted[p].count <= x.count
                invariant
                    p <= sorted.len(),
                    forall|k: int| 0 <= k < p ==> (#[trigger] sorted[k]).count <= x.count,
                decreases sorted.len() - p,
            {
                p = p + 1;
            }
            let ghost s0 = sorted@;
            sorted.insert(p, x);
            proof {
                vstd::seq_lib::to_multiset_insert(s0, p as int, x);
                assert forall|i: int, j: int| 0 <= i < j < sorted.len() implies (
                #[trigger] sorted[i]).count <= (#[trigger] sorted[j]).count by {
                    if j < p {
                    } else if j == p {
                    } else if i < p {
                        assert(sorted[j] == s0[j - 1]);
                        if p < s0.len() {
                            assert(s0[p as int].count > x.count);
                            assert(s0[p as int].count <= s0[j - 1].count);
                        }
                    } else if i == p {
                        assert(sorted[j] == s0[j - 1]);
                        assert(s0[p as int].count > x.count);
                        if j - 1 > p {
                            assert(s0[p as int].count <= s0[j - 1].count);
                        }
                    } else {
                        assert(sorted[j] == s0[j - 1]);
                        assert(sorted[i] == s0[i - 1]);
                    }
                }
            }
        }
        assert(rest@.to_multiset() =~= Multiset::empty());
        assert(sorted@.to_multiset().add(Multiset::empty()) =~= sorted@.to_multiset());
        let mut total: u128 = 0;
        let mut i: usize = 0;
        while i < sorted.len()
            invariant
                i <= sorted.len(),
                total == sum_counts(sorted@.subrange(0, i as int)),
                sum_counts(sorted@.subrange(0, i as int)) <= i * (usize::MAX as nat),
            decreases sorted.len() - i,
        {
            assert(sorted@.subrange(0, i + 1).drop_last() =~= sorted@.subrange(0, i as int));
            assert((i + 1) * (usize::MAX as nat) == i * (usize::MAX as nat) + usize::MAX as nat)
                by (nonlinear_arith);
            assert(i * (usize::MAX as nat) + usize::MAX as nat <= (usize::MAX as nat) * (
            usize::MAX as nat)) by (nonlinear_arith)
                requires
                    i < usize::MAX,
            ;
            assert((usize::MAX as nat) * (usize::MAX as nat) <= u128::MAX - usize::MAX as nat)
                by (nonlinear_arith)
                requires
                    usize::MAX as int <= 0xffff_ffff_ffff_ffff,
            ;
            total = total + sorted[i].count as u128;
            i = i + 1;
        }
        assert(sorted@.subrange(0, sorted.len() as int) =~= sorted@);
        let n = sorted.len();
        let (min, max) = if n == 0 {
            (0, 0)
        } else {
            (sorted[0].count, sorted[n - 1].count)
        };
        StatsCollection { results: sorted, min, max, total }
    }
}

/// What happened to the last request of a throughput probe.
#[derive(Clone, Copy, Debug, PartialEq, Eq)]
pub enum ProbeEvent {
    Replied,
    PublishFailed,
    Closed,
}

/// What a throughput probe does next.
#[derive(Clone, Copy, Debug, PartialEq, Eq)]
pub enum ProbeAction {
    /// Publish the request with this sequence number and wait for its reply.
    Send(usize),
    Stop,
}

/// The send/await loop of a throughput probe, as state: the replies counted so far and the
/// sequence number of the next request.
pub struct ThroughputProbe {
    pub client: String,
    pub count: usize,
    pub next_id: usize,
}

impl ThroughputProbe {
    /// A probe that has sent nothing; its first request has sequence number 0.
    pub fn new(client: String) -> (r: ThroughputProbe)
        ensures
            r.client@ == client@,
            r.count == 0,
            r.next_id == 0,
    {
        ThroughputProbe { client, count: 0, next_id: 0 }
    }

    pub fn first_action(&self) -> (r: ProbeAction)
        ensures
            r == ProbeAction::Send(self.next_id),
    {
        ProbeAction::Send(self.next_id)
    }

    /// A reply counts and moves on to the next sequence number; a failed publish or a closed
    /// subscription stops the probe, as does a count that cannot grow further.
    pub fn on_event(&mut self, event: ProbeEvent) -> (r: ProbeAction)
        ensures
            final(self).client@ == old(self).client@,
            event == ProbeEvent::Replied && old(self).count < usize::MAX && old(self).next_id
                < usize::MAX ==> final(self).count == old(self).count + 1 && final(self).next_id
                == old(self).next_id + 1 && r == ProbeAction::Send(final(self).next_id),
            !(event == ProbeEvent::Replied && old(self).count < usize::MAX && old(self).next_id
                < usize::MAX) ==> final(self).count == old(self).count && final(self).next_id
                == old(self).next_id && r == ProbeAction::Stop,
    {
        match event {
            ProbeEvent::Replied => {
                if self.count == usize::MAX || self.next_id == usize::MAX {
                    return ProbeAction::Stop;
                }
                self.count = self.count + 1;
                self.next_id = self.next_id + 1;
                ProbeAction::Send(self.next_id)
            },
            _ => ProbeAction::Stop,
        }
    }

    /// The probe's result once its time is up.
    pub fn finish(self) -> (r: TestResultStats)
        ensures
            r.client@ == self.client@,
            r.count == self.count,
    {
        TestResultStats { client: self.client, count: self.count }
    }
}

/// Payload of a throughput request: its sequence number in decimal.
pub fn probe_payload(id: usize) -> (r: Vec<u8>)
    ensures
        r@ == decimal(id as nat),
{
    let mut out: Vec<u8> = Vec::new();
    push_decimal(&mut out, id as u64);
    assert(out@ =~= decimal(id as nat));
    out
}

} // verus!
