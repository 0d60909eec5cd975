//! Gathering the open ports that the workers report into one report:
//! ascending, each port once.
use vstd::prelude::*;
use crate::ports::{covered, lemma_partition};

verus! {

/// Whether `s` rises strictly from each element to the next.
pub open spec fn strictly_increasing(s: Seq<u16>) -> bool {
    forall|k: int, j: int| 0 <= k < j < s.len() ==> s[k] < s[j]
}

/// Whether `report` is a faithful report of the ports in `received`: it
/// is ascending, holds no port twice, and holds exactly the ports received.
pub open spec fn is_report(report: Seq<u16>, received: Seq<u16>) -> bool {
    strictly_increasing(report) && forall|p: u16| report.contains(p) <==> received.contains(p)
}

/// The ports that the workers of `n` report when the ports in `open`
/// accept a connection: each worker reports the open ports among its own.
pub open spec fn reported_by_workers(n: int, open: Set<int>) -> Set<int> {
    Set::new(|p: int| open.contains(p) && covered(n, p))
}

/// Accumulates the ports that workers report, in the order they arrive.
pub struct Collector {
    found: Vec<u16>,
}

impl View for Collector {
    type V = Seq<u16>;

    closed spec fn view(&self) -> Seq<u16> {
        self.found@
    }
}

impl Collector {
    /// A collector that has received nothing.
    pub fn new() -> (r: Collector)
        ensures
            r@ == Seq::<u16>::empty(),
    {
        Collector { found: Vec::new() }
    }

    /// Records one port that a worker found open.
    pub fn record(&mut self, port: u16)
        ensures
            final(self)@ == old(self)@.push(port),
    {
        self.found.push(port);
    }

    /// How many reports have been received, duplicates included.
    pub fn len(&self) -> (r: usize)
        ensures
            r == self@.len(),
    {
        self.found.len()
    }

    /// The received ports in ascending order, each once.
    pub fn finish(self) -> (r: Vec<u16>)
        ensures
            is_report(r@, self@),
    {
        sort_unique(&self.found)
    }
}

/// The ports of `received` in ascending order, each once.
pub fn sort_unique(received: &Vec<u16>) -> (r: Vec<u16>)
    ensures
        is_report(r@, received@),
{
    let mut seen: Vec<bool> = Vec::new();
    let mut q: usize = 0;
    while q < 65536
        invariant
            q <= 65536,
            seen@.len() == q,
            forall|k: int| 0 <= k < q ==> !seen@[k],
        decreases 65536 - q,
    {
        seen.push(false);
        q = q + 1;
    }
    let mut i: usize = 0;
    while i < received.len()
        invariant
            i <= received@.len(),
            seen@.len() == 65536,
            forall|k: int|
                0 <= k < 65536 ==> (seen@[k] <==> exists|j: int|
                    0 <= j < i && received@[j] as int == k),
        decreases received@.len() - i,
    {
        let p = received[i];
        seen.set(p as usize, true);
        proof {
            assert forall|k: int|
                0 <= k < 65536 implies (seen@[k] <==> exists|j: int|
                0 <= j < i + 1 && received@[j] as int == k) by {
                if k == p as int {
                    assert(received@[i as int] as int == k);
                } else if seen@[k] {
                    let j = choose|j: int| 0 <= j < i && received@[j] as int == k;
                    assert(0 <= j < i + 1 && received@[j] as int == k);
                }
            }
        }
        i = i + 1;
    }
    proof {
        assert forall|k: int| 0 <= k < 65536 implies (seen@[k] <==> received@.contains(k as u16)) by {
            lemma_seen_means_received(received@, k);
        }
    }
    let mut out: Vec<u16> = Vec::new();
    let mut v: usize = 0;
    while v < 65536
        invariant
            v <= 65536,
            seen@.len() == 65536,
            forall|k: int|
                0 <= k < 65536 ==> (seen@[k] <==> received@.contains(k as u16)),
            strictly_increasing(out@),
            forall|k: int| 0 <= k < out@.len() ==> (out@[k] as int) < v,
            forall|p: u16| out@.contains(p) <==> ((p as int) < v && received@.contains(p)),
        decreases 65536 - v,
    {
        if seen[v] {
            let ghost before = out@;
            out.push(v as u16);
            proof {
                assert forall|p: u16|
                    out@.contains(p) <==> ((p as int) < v + 1 && received@.contains(p)) by {
                    if p as int == v {
                        assert(out@[out@.len() - 1] == p);
                    }
                    if out@.contains(p) && p as int != v {
                        let k = choose|k: int| 0 <= k < out@.len() && out@[k] == p;
                        assert(before[k] == p);
                    }
                    if (p as int) < v && received@.contains(p) {
                        let k = choose|k: int| 0 <= k < before.len() && before[k] == p;
                        assert(out@[k] == p);
                    }
                }
            }
        } else {
            proof {
                assert forall|p: u16|
                    out@.contains(p) <==> ((p as int) < v + 1 && received@.contains(p)) by {
                    if p as int == v && received@.contains(p) {
                        assert(seen@[v as int]);
                    }
                }
            }
        }
        v = v + 1;
    }
    out
}

/// A port stands at some index of `received` exactly when `received` holds it.
proof fn lemma_seen_means_received(received: Seq<u16>, k: int)
    requires
        0 <= k < 65536,
    ensures
        (exists|j: int| 0 <= j < received.len() && received[j] as int == k) <==> received.contains(
            k as u16,
        ),
{
    if received.contains(k as u16) {
        let j = choose|j: int| 0 <= j < received.len() && received[j] == k as u16;
        assert(received[j] as int == k);
    }
}

/// A report is determined by what was received: two reports of the same
/// received ports are the same sequence, whatever order the ports arrived in.
pub proof fn lemma_report_unique(a: Seq<u16>, b: Seq<u16>, received: Seq<u16>)
    requires
        is_report(a, received),
        is_report(b, received),
    ensures
        a == b,
{
    lemma_ascending_same(a, b);
}

proof fn lemma_ascending_same(a: Seq<u16>, b: Seq<u16>)
    requires
        strictly_increasing(a),
        strictly_increasing(b),
        forall|p: u16| a.contains(p) <==> b.contains(p),
    ensures
        a == b,
    decreases a.len(),
{
    if a.len() == 0 {
        if b.len() > 0 {
            assert(b.contains(b[0]));
        }
        assert(a =~= b);
    } else {
        assert(a.contains(a[0]));
        assert(b.len() > 0);
        assert(b.contains(b[0]));
        let i = choose|i: int| 0 <= i < a.len() && a[i] == b[0];
        let j = choose|j: int| 0 <= j < b.len() && b[j] == a[0];
        if i > 0 {
            assert(a[0] < a[i]);
        }
        if j > 0 {
            assert(b[0] < b[j]);
        }
        assert(a[0] == b[0]);
        let a1 = a.drop_first();
        let b1 = b.drop_first();
        assert forall|p: u16| a1.contains(p) <==> b1.contains(p) by {
            if a1.contains(p) {
                let k = choose|k: int| 0 <= k < a1.len() && a1[k] == p;
                assert(a[k + 1] == p);
                assert(a[0] < a[k + 1]);
                assert(b.contains(p));
                let m = choose|m: int| 0 <= m < b.len() && b[m] == p;
                assert(m != 0);
                assert(b1[m - 1] == p);
            }
            if b1.contains(p) {
                let k = choose|k: int| 0 <= k < b1.len() && b1[k] == p;
                assert(b[k + 1] == p);
                assert(b[0] < b[k + 1]);
                assert(a.contains(p));
                let m = choose|m: int| 0 <= m < a.len() && a[m] == p;
                assert(m != 0);
                assert(a1[m - 1] == p);
            }
        }
        lemma_ascending_same(a1, b1);
        assert(a =~= seq![a[0]] + a1);
        assert(b =~= seq![b[0]] + b1);
    }
}

/// When no port is open, the workers report nothing, whatever their
/// number, and the report of nothing received is empty.
pub proof fn lemma_nothing_open(n: int, report: Seq<u16>)
    requires
        n >= 1,
        is_report(report, Seq::<u16>::empty()),
    ensures
        reported_by_workers(n, Set::<int>::empty()) == Set::<int>::empty(),
        report.len() == 0,
{
    assert(reported_by_workers(n, Set::<int>::empty()) =~= Set::<int>::empty());
    if report.len() > 0 {
        assert(report.contains(report[0]));
    }
}

/// When the open ports all lie where the `n` workers probe, the workers
/// report exactly the open ports, and the report of what they sent holds
/// each open port once, in ascending order.
pub proof fn lemma_round_trip(n: int, open: Set<int>, received: Seq<u16>, report: Seq<u16>)
    requires
        n >= 1,
        forall|p: int| #[trigger] open.contains(p) ==> 1 <= p <= 65535 && (p < 65535 || n >= 65535),
        forall|p: u16| received.contains(p) <==> reported_by_workers(n, open).contains(p as int),
        is_report(report, received),
    ensures
        reported_by_workers(n, open) == open,
        forall|p: u16| report.contains(p) <==> open.contains(p as int),
        strictly_increasing(report),
{
    assert forall|p: int| open.contains(p) implies covered(n, p) by {
        lemma_partition(n, p);
    }
    assert(reported_by_workers(n, open) =~= open);
}

} // verus!
