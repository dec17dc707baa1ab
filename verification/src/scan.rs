//! Scan orchestration: pairing each port with the outcome its probe
//! observed, the progress count, and assembly of the final result list,
//! which is ordered by ascending port number whatever order the probes
//! completed in.

use vstd::prelude::*;

verus! {

broadcast use vstd::seq_lib::group_to_multiset_ensures;

/// The status recorded for one scanned port.
#[derive(Debug, Clone, Copy, PartialEq, Eq, Structural)]
pub struct ScanResult {
    pub port: u16,
    pub open: bool,
}

/// Non-strictly ascending by port number.
pub open spec fn sorted_by_port(s: Seq<ScanResult>) -> bool {
    forall|i: int, j: int| 0 <= i < j < s.len() ==> s[i].port <= s[j].port
}

/// Stable insertion of one result into a list: `x` lands after every
/// element whose port is not above its own.
pub open spec fn spec_insert_sorted(s: Seq<ScanResult>, x: ScanResult) -> Seq<ScanResult>
    decreases s.len(),
{
    if s.len() == 0 {
        seq![x]
    } else if s.last().port <= x.port {
        s.push(x)
    } else {
        spec_insert_sorted(s.drop_last(), x).push(s.last())
    }
}

/// Stable sort of a result list by ascending port number.
pub open spec fn spec_sort_by_port(s: Seq<ScanResult>) -> Seq<ScanResult>
    decreases s.len(),
{
    if s.len() == 0 {
        Seq::empty()
    } else {
        spec_insert_sorted(spec_sort_by_port(s.drop_last()), s.last())
    }
}

/// Each port of a scan paired with the outcome its probe observed.
pub open spec fn spec_pair(ports: Seq<u16>, outcomes: Seq<bool>) -> Seq<ScanResult> {
    Seq::new(ports.len(), |i: int| ScanResult { port: ports[i], open: outcomes[i] })
}

/// The full scan of one address as a function of its inputs: the port
/// sequence and the per-port probe outcomes.
pub open spec fn spec_scan(ports: Seq<u16>, outcomes: Seq<bool>) -> Seq<ScanResult> {
    spec_sort_by_port(spec_pair(ports, outcomes))
}

pub proof fn lemma_insert_sorted_multiset(s: Seq<ScanResult>, x: ScanResult)
    ensures
        spec_insert_sorted(s, x).to_multiset() == s.to_multiset().insert(x),
    decreases s.len(),
{
    if s.len() == 0 {
        assert(seq![x] =~= Seq::<ScanResult>::empty().push(x));
    } else if s.last().port <= x.port {
    } else {
        let dl = s.drop_last();
        lemma_insert_sorted_multiset(dl, x);
        assert(dl.push(s.last()) =~= s);
        assert(spec_insert_sorted(s, x).to_multiset() =~= dl.to_multiset().insert(x).insert(
            s.last(),
        ));
        assert(dl.to_multiset().insert(x).insert(s.last()) =~= dl.to_multiset().insert(
            s.last(),
        ).insert(x));
    }
}

pub proof fn lemma_sort_by_port_multiset(s: Seq<ScanResult>)
    ensures
        spec_sort_by_port(s).to_multiset() == s.to_multiset(),
    decreases s.len(),
{
    if s.len() > 0 {
        let dl = s.drop_last();
        lemma_sort_by_port_multiset(dl);
        lemma_insert_sorted_multiset(spec_sort_by_port(dl), s.last());
        assert(dl.push(s.last()) =~= s);
    }
}

/// Where the loop below found the insertion point, the stable insertion
/// is a split of the old list around the new element.
proof fn lemma_insert_sorted_split(s: Seq<ScanResult>, x: ScanResult, j: int)
    requires
        0 <= j <= s.len(),
        forall|k: int| j <= k < s.len() ==> s[k].port > x.port,
        j > 0 ==> s[j - 1].port <= x.port,
    ensures
        spec_insert_sorted(s, x) == s.subrange(0, j) + seq![x] + s.subrange(j, s.len() as int),
    decreases s.len(),
{
    if s.len() == 0 {
        assert(spec_insert_sorted(s, x) =~= s.subrange(0, j) + seq![x] + s.subrange(
            j,
            s.len() as int,
        ));
    } else if s.last().port <= x.port {
        assert(j == s.len());
        assert(s.subrange(0, j) =~= s);
        assert(spec_insert_sorted(s, x) =~= s.subrange(0, j) + seq![x] + s.subrange(
            j,
            s.len() as int,
        ));
    } else {
        let dl = s.drop_last();
        assert(j <= dl.len());
        lemma_insert_sorted_split(dl, x, j);
        assert(spec_insert_sorted(s, x) =~= s.subrange(0, j) + seq![x] + s.subrange(
            j,
            s.len() as int,
        )) by {
            assert(dl.subrange(0, j) =~= s.subrange(0, j));
            assert(dl.subrange(j, dl.len() as int).push(s.last()) =~= s.subrange(
                j,
                s.len() as int,
            ));
        }
    }
}

/// Sort a result list by ascending port number. The sort is stable, so
/// the output is a function of the input alone: results for equal ports
/// keep their relative order.
pub fn sort_results(results: Vec<ScanResult>) -> (r: Vec<ScanResult>)
    ensures
        r@ == spec_sort_by_port(results@),
        sorted_by_port(r@),
        r@.to_multiset() == results@.to_multiset(),
{
    let mut out: Vec<ScanResult> = Vec::new();
    let mut i: usize = 0;
    while i < results.len()
        invariant
            0 <= i <= results@.len(),
            out@ == spec_sort_by_port(results@.subrange(0, i as int)),
            sorted_by_port(out@),
        decreases results@.len() - i,
    {
        let x = results[i];
        let ghost pre = out@;
        // Insertion point: first index whose element's port is above x's.
        let mut j: usize = out.len();
        while j > 0 && out[j - 1].port > x.port
            invariant
                0 <= j <= out@.len(),
                out@ == pre,
                forall|k: int| j <= k < out@.len() ==> out@[k].port > x.port,
            decreases j,
        {
            j -= 1;
        }
        out.insert(j, x);
        proof {
            lemma_insert_sorted_split(pre, x, j as int);
            assert(out@ =~= pre.subrange(0, j as int) + seq![x] + pre.subrange(
                j as int,
                pre.len() as int,
            ));
            assert(results@.subrange(0, i + 1).drop_last() =~= results@.subrange(0, i as int));
            assert(results@.subrange(0, i + 1).last() == x);
            assert forall|a: int, b: int| 0 <= a < b < out@.len() implies out@[a].port
                <= out@[b].port by {
                if a < j && b == j {
                    assert(out@[a] == pre[a]);
                    if a < j - 1 {
                        assert(pre[a].port <= pre[j - 1].port);
                    }
                } else if a == j && b > j {
                    assert(out@[b] == pre[b - 1]);
                } else if a < j && b > j {
                    assert(out@[a] == pre[a]);
                    assert(out@[b] == pre[b - 1]);
                } else if a > j {
                    assert(out@[a] == pre[a - 1]);
                    assert(out@[b] == pre[b - 1]);
                } else {
                    assert(out@[a] == pre[a]);
                    assert(out@[b] == pre[b]);
                }
            }
        }
        i += 1;
    }
    proof {
        assert(results@.subrange(0, results@.len() as int) =~= results@);
        lemma_sort_by_port_multiset(results@);
    }
    out
}

/// Drives the scan of one address over an ordered port sequence. The
/// engine hands out ports one at a time, records the outcome the caller
/// observed for each — probes and cancelled skips alike — and assembles
/// the port-ordered result list once every port is accounted for.
pub struct ScanEngine {
    ports: Vec<u16>,
    results: Vec<ScanResult>,
}

impl ScanEngine {
    /// The ordered port sequence this scan owns.
    pub closed spec fn spec_ports(self) -> Seq<u16> {
        self.ports@
    }

    /// The results recorded so far, in the order the ports were handed out.
    pub closed spec fn spec_results(self) -> Seq<ScanResult> {
        self.results@
    }

    /// One result per port handed out, each carrying its port number.
    pub open spec fn wf(self) -> bool {
        &&& self.spec_results().len() <= self.spec_ports().len()
        &&& forall|i: int|
            0 <= i < self.spec_results().len() ==> #[trigger] self.spec_results()[i].port
                == self.spec_ports()[i]
    }

    pub fn new(ports: Vec<u16>) -> (e: ScanEngine)
        ensures
            e.wf(),
            e.spec_ports() == ports@,
            e.spec_results().len() == 0,
    {
        ScanEngine { ports, results: Vec::new() }
    }

    /// The next port to account for, or `None` once the scan is complete.
    pub fn next_port(&self) -> (r: Option<u16>)
        ensures
            r == if self.spec_results().len() < self.spec_ports().len() {
                Some(self.spec_ports()[self.spec_results().len() as int])
            } else {
                None::<u16>
            },
    {
        if self.results.len() < self.ports.len() {
            Some(self.ports[self.results.len()])
        } else {
            None
        }
    }

    /// Record the outcome observed for the port last handed out. Exactly
    /// one call per port, whether it was probed or skipped as cancelled:
    /// the progress count means "ports accounted for".
    pub fn record(&mut self, open: bool)
        requires
            old(self).wf(),
            old(self).spec_results().len() < old(self).spec_ports().len(),
        ensures
            final(self).wf(),
            final(self).spec_ports() == old(self).spec_ports(),
            final(self).spec_results() == old(self).spec_results().push(
                (ScanResult {
                    port: old(self).spec_ports()[old(self).spec_results().len() as int],
                    open,
                }),
            ),
    {
        let port = self.ports[self.results.len()];
        self.results.push(ScanResult { port, open });
    }

    /// Ports accounted for so far: the value of the progress counter.
    pub fn scanned(&self) -> (n: usize)
        ensures
            n == self.spec_results().len(),
    {
        self.results.len()
    }

    /// The total port count, for progress reporting.
    pub fn total(&self) -> (n: usize)
        ensures
            n == self.spec_ports().len(),
    {
        self.ports.len()
    }

    /// The assembled scan: results sorted by ascending port number,
    /// whatever order they were produced in. Callable once every port is
    /// accounted for.
    pub fn finish(self) -> (r: Vec<ScanResult>)
        requires
            self.wf(),
            self.spec_results().len() == self.spec_ports().len(),
        ensures
            r@ == spec_sort_by_port(self.spec_results()),
            sorted_by_port(r@),
            r@.to_multiset() == self.spec_results().to_multiset(),
    {
        sort_results(self.results)
    }
}

/// How many scanned ports were found open.
pub open spec fn spec_open_count(s: Seq<ScanResult>) -> int
    decreases s.len(),
{
    if s.len() == 0 {
        0
    } else {
        spec_open_count(s.drop_last()) + if s.last().open {
            1int
        } else {
            0int
        }
    }
}

/// Count the open ports of a result list.
pub fn open_count(results: &Vec<ScanResult>) -> (n: usize)
    ensures
        n == spec_open_count(results@),
{
    let mut n: usize = 0;
    let mut i: usize = 0;
    while i < results.len()
        invariant
            0 <= i <= results@.len(),
            n == spec_open_count(results@.subrange(0, i as int)),
            n <= i,
        decreases results@.len() - i,
    {
        proof {
            assert(results@.subrange(0, i + 1).drop_last() =~= results@.subrange(0, i as int));
        }
        if results[i].open {
            n += 1;
        }
        i += 1;
    }
    assert(results@.subrange(0, results@.len() as int) =~= results@);
    n
}

/// Idempotence law: the assembled result list is a function of the scan's
/// inputs alone. Two scans of the same port sequence whose probes observe
/// the same outcomes — no cancellation, stable listeners — return the same
/// list, whatever order their probes completed in.
pub proof fn lemma_scan_idempotent(
    ports1: Seq<u16>,
    outcomes1: Seq<bool>,
    ports2: Seq<u16>,
    outcomes2: Seq<bool>,
)
    requires
        ports1 == ports2,
        outcomes1 == outcomes2,
    ensures
        spec_scan(ports1, outcomes1) == spec_scan(ports2, outcomes2),
{
}

/// Reporting law: the assembled list is sorted by port, has one entry per
/// scanned port, and holds exactly the outcome each port's probe observed.
pub proof fn lemma_scan_reports_outcomes(ports: Seq<u16>, outcomes: Seq<bool>)
    requires
        ports.len() == outcomes.len(),
    ensures
        spec_scan(ports, outcomes).len() == ports.len(),
        sorted_by_port(spec_scan(ports, outcomes)),
        forall|i: int|
            0 <= i < ports.len() ==> spec_scan(ports, outcomes).contains(
                (ScanResult { port: ports[i], open: outcomes[i] }),
            ),
{
    let paired = spec_pair(ports, outcomes);
    lemma_sort_by_port_multiset(paired);
    lemma_sort_by_port_sorted(paired);
    assert(spec_scan(ports, outcomes).to_multiset().len() == paired.to_multiset().len());
    assert forall|i: int| 0 <= i < ports.len() implies spec_scan(ports, outcomes).contains(
        (ScanResult { port: ports[i], open: outcomes[i] }),
    ) by {
        let x = ScanResult { port: ports[i], open: outcomes[i] };
        assert(paired[i] == x);
        assert(paired.contains(x));
        assert(paired.to_multiset().count(x) > 0);
        assert(spec_scan(ports, outcomes).to_multiset().count(x) > 0);
    }
}

/// Cancellation law, result side: in a scan whose every probe reported
/// its port not open — as every probe does once the cancellation flag is
/// set before the scan begins — the assembled list reports every port
/// not open.
pub proof fn lemma_all_closed_scan_reports_all_closed(ports: Seq<u16>, outcomes: Seq<bool>)
    requires
        ports.len() == outcomes.len(),
        forall|i: int| 0 <= i < outcomes.len() ==> !outcomes[i],
    ensures
        spec_scan(ports, outcomes).len() == ports.len(),
        forall|i: int| 0 <= i < ports.len() ==> !spec_scan(ports, outcomes)[i].open,
{
    let paired = spec_pair(ports, outcomes);
    let assembled = spec_scan(ports, outcomes);
    lemma_sort_by_port_multiset(paired);
    assert(assembled.to_multiset().len() == paired.to_multiset().len());
    assert forall|i: int| 0 <= i < ports.len() implies !assembled[i].open by {
        let x = assembled[i];
        assert(assembled.contains(x));
        assert(assembled.to_multiset().count(x) > 0);
        assert(paired.to_multiset().count(x) > 0);
        assert(paired.contains(x));
        let j = choose|j: int| 0 <= j < paired.len() && paired[j] == x;
        assert(!outcomes[j]);
    }
}

proof fn lemma_insert_sorted_le(s: Seq<ScanResult>, x: ScanResult, bound: u16)
    requires
        forall|i: int| 0 <= i < s.len() ==> s[i].port <= bound,
        x.port <= bound,
    ensures
        forall|i: int|
            0 <= i < spec_insert_sorted(s, x).len() ==> spec_insert_sorted(s, x)[i].port <= bound,
    decreases s.len(),
{
    if s.len() == 0 {
    } else if s.last().port <= x.port {
    } else {
        assert(forall|i: int| 0 <= i < s.drop_last().len() ==> s.drop_last()[i].port <= bound);
        lemma_insert_sorted_le(s.drop_last(), x, bound);
        let q = spec_insert_sorted(s.drop_last(), x);
        let r = q.push(s.last());
        assert forall|i: int| 0 <= i < r.len() implies r[i].port <= bound by {
            if i < q.len() {
                assert(r[i] == q[i]);
            } else {
                assert(r[i] == s.last());
                assert(s[s.len() - 1].port <= bound);
            }
        }
    }
}

proof fn lemma_insert_sorted_sorted(s: Seq<ScanResult>, x: ScanResult)
    requires
        sorted_by_port(s),
    ensures
        sorted_by_port(spec_insert_sorted(s, x)),
    decreases s.len(),
{
    if s.len() == 0 {
    } else if s.last().port <= x.port {
        let r = s.push(x);
        assert forall|i: int, j: int| 0 <= i < j < r.len() implies r[i].port <= r[j].port by {
            if j < r.len() - 1 {
                assert(r[i] == s[i] && r[j] == s[j]);
            } else {
                assert(r[j] == x);
                if i < s.len() - 1 {
                    assert(s[i].port <= s[s.len() - 1].port);
                }
            }
        }
    } else {
        let dl = s.drop_last();
        assert(sorted_by_port(dl)) by {
            assert(forall|i: int, j: int|
                0 <= i < j < dl.len() ==> dl[i] == s[i] && dl[j] == s[j]);
        }
        lemma_insert_sorted_sorted(dl, x);
        assert forall|i: int| 0 <= i < dl.len() implies dl[i].port <= s.last().port by {
            assert(dl[i] == s[i]);
            if i < s.len() - 1 {
                assert(s[i].port <= s[s.len() - 1].port);
            }
        }
        lemma_insert_sorted_le(dl, x, s.last().port);
        let q = spec_insert_sorted(dl, x);
        let r = q.push(s.last());
        assert forall|i: int, j: int| 0 <= i < j < r.len() implies r[i].port <= r[j].port by {
            if j < r.len() - 1 {
                assert(r[i] == q[i] && r[j] == q[j]);
            } else {
                assert(r[j] == s.last());
                assert(r[i] == q[i]);
            }
        }
    }
}

pub proof fn lemma_sort_by_port_sorted(s: Seq<ScanResult>)
    ensures
        sorted_by_port(spec_sort_by_port(s)),
    decreases s.len(),
{
    if s.len() > 0 {
        lemma_sort_by_port_sorted(s.drop_last());
        lemma_insert_sorted_sorted(spec_sort_by_port(s.drop_last()), s.last());
    }
}

} // verus!
