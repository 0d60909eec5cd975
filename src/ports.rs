//! Splitting the port space among `n` workers.
//!
//! Worker `i` of `n` probes the ports `i + 1, i + 1 + n, i + 1 + 2n, ...`.
//! After each probe it stops when the distance from the current port to the
//! highest port is at most `n`, so the top port 65535 is only probed by a
//! worker that starts on it.
use vstd::prelude::*;
use vstd::arithmetic::div_mod::{
    lemma_mod_equivalence, lemma_mod_sub_multiples_vanish, lemma_small_mod,
};

verus! {

/// The highest TCP port.
pub const MAX_PORT: u16 = 65535;

/// The ports probed by a worker that stands on port `p` with stride `n`:
/// `p` itself, then the rest from `p + n` while `p + n` stays below the
/// highest port.
pub open spec fn ports_from(p: int, n: int) -> Seq<int>
    decreases 65535 - p,
{
    if n >= 1 && p + n < 65535 {
        seq![p] + ports_from(p + n, n)
    } else {
        seq![p]
    }
}

/// The ports that worker `i` of `n` probes, in the order it probes them.
/// A worker whose first port would lie past the highest port probes none.
pub open spec fn worker_ports_spec(i: int, n: int) -> Seq<int> {
    if i + 1 <= 65535 {
        ports_from(i + 1, n)
    } else {
        Seq::empty()
    }
}

/// Whether some worker of `n` probes `port`.
pub open spec fn covered(n: int, port: int) -> bool {
    exists|i: int| 0 <= i < n && #[trigger] worker_ports_spec(i, n).contains(port)
}

/// The first port of worker `worker_index`, or `None` where that port would
/// lie past the highest port.
pub fn first_port(worker_index: u32) -> (r: Option<u16>)
    ensures
        r == (if worker_index < 65535 {
            Some((worker_index + 1) as u16)
        } else {
            None::<u16>
        }),
{
    if worker_index < 65535 {
        Some((worker_index + 1) as u16)
    } else {
        None
    }
}

/// The port that follows `port` for a worker with stride `worker_count`, or
/// `None` where the worker stops after `port`: that is, where the distance
/// from `port` to the highest port is at most `worker_count`.
pub fn next_port(port: u16, worker_count: u32) -> (r: Option<u16>)
    ensures
        r == (if (MAX_PORT - port) as int > worker_count as int {
            Some((port + worker_count) as u16)
        } else {
            None::<u16>
        }),
{
    if ((MAX_PORT - port) as u32) > worker_count {
        Some(port + worker_count as u16)
    } else {
        None
    }
}

/// One step of a worker with stride `worker_count` that has just probed
/// `port`, given whether the probe connected: the port to report, if any,
/// and the port to probe next, if any.
pub fn scan_step(port: u16, worker_count: u32, open: bool) -> (r: (Option<u16>, Option<u16>))
    ensures
        r.0 == (if open {
            Some(port)
        } else {
            None::<u16>
        }),
        r.1 == (if (MAX_PORT - port) as int > worker_count as int {
            Some((port + worker_count) as u16)
        } else {
            None::<u16>
        }),
{
    let report = if open {
        Some(port)
    } else {
        None
    };
    (report, next_port(port, worker_count))
}

/// Every port that worker `worker_index` of `worker_count` probes, in
/// the order it probes them.
pub fn worker_ports(worker_index: u32, worker_count: u32) -> (r: Vec<u16>)
    requires
        worker_count >= 1,
        worker_index < worker_count,
    ensures
        r@.len() == worker_ports_spec(worker_index as int, worker_count as int).len(),
        forall|k: int|
            0 <= k < r@.len() ==> r@[k] as int == #[trigger] worker_ports_spec(
                worker_index as int,
                worker_count as int,
            )[k],
{
    let ghost n = worker_count as int;
    let ghost whole = worker_ports_spec(worker_index as int, n);
    let mut out: Vec<u16> = Vec::new();
    let mut cur = first_port(worker_index);
    while cur.is_some()
        invariant
            match cur {
                Some(p) => whole == out@.map_values(|x: u16| x as int) + ports_from(p as int, n),
                None => whole == out@.map_values(|x: u16| x as int),
            },
            n == worker_count as int,
            n >= 1,
        decreases
            match cur {
                Some(p) => 65536 - p as int,
                None => 0,
            },
    {
        let p = cur.unwrap();
        let ghost before = out@;
        out.push(p);
        let nxt = next_port(p, worker_count);
        proof {
            assert(out@.map_values(|x: u16| x as int) =~= before.map_values(|x: u16| x as int)
                + seq![p as int]);
            if nxt.is_some() {
                assert(ports_from(p as int, n) == seq![p as int] + ports_from(p as int + n, n));
            } else {
                assert(ports_from(p as int, n) == seq![p as int]);
            }
        }
        cur = nxt;
    }
    proof {
        assert forall|k: int| 0 <= k < out@.len() implies out@[k] as int == whole[k] by {
            assert(whole[k] == out@.map_values(|x: u16| x as int)[k]);
        }
    }
    out
}

/// The ports from `p` with stride `n` rise by exactly `n` at each step,
/// start at `p`, and stay within `[p, 65535]`.
pub proof fn lemma_ports_from_shape(p: int, n: int)
    requires
        1 <= p <= 65535,
        n >= 1,
    ensures
        ports_from(p, n).len() >= 1,
        ports_from(p, n)[0] == p,
        forall|k: int|
            0 <= k < ports_from(p, n).len() - 1 ==> #[trigger] ports_from(p, n)[k + 1]
                == ports_from(p, n)[k] + n,
        forall|k: int|
            0 <= k < ports_from(p, n).len() ==> p <= #[trigger] ports_from(p, n)[k] <= 65535,
    decreases 65535 - p,
{
    if p + n < 65535 {
        lemma_ports_from_shape(p + n, n);
        let s = ports_from(p, n);
        let t = ports_from(p + n, n);
        assert(s == seq![p] + t);
        assert forall|k: int| 0 <= k < s.len() - 1 implies #[trigger] s[k + 1] == s[k] + n by {
            if k > 0 {
                assert(s[k] == t[k - 1]);
                assert(s[k + 1] == t[(k - 1) + 1]);
            } else {
                assert(s[1] == t[0]);
            }
        }
        assert forall|k: int| 0 <= k < s.len() implies p <= #[trigger] s[k] <= 65535 by {
            if k > 0 {
                assert(s[k] == t[k - 1]);
            }
        }
    }
}

/// The ports of worker `i` of `n` form a strictly increasing run that starts
/// at `i + 1`, rises by `n` at each step and stays within `[1, 65535]`.
pub proof fn lemma_worker_ports_shape(i: int, n: int)
    requires
        n >= 1,
        0 <= i < n,
        i < 65535,
    ensures
        worker_ports_spec(i, n).len() >= 1,
        worker_ports_spec(i, n)[0] == i + 1,
        forall|k: int|
            0 <= k < worker_ports_spec(i, n).len() - 1 ==> #[trigger] worker_ports_spec(i, n)[k
                + 1] == worker_ports_spec(i, n)[k] + n,
        forall|k: int, j: int|
            0 <= k < j < worker_ports_spec(i, n).len() ==> worker_ports_spec(i, n)[k]
                < worker_ports_spec(i, n)[j],
        forall|k: int|
            0 <= k < worker_ports_spec(i, n).len() ==> 1 <= #[trigger] worker_ports_spec(i, n)[k]
                <= 65535,
{
    lemma_ports_from_shape(i + 1, n);
    let s = worker_ports_spec(i, n);
    assert forall|k: int, j: int| 0 <= k < j < s.len() implies s[k] < s[j] by {
        lemma_rises(s, n, k, j);
    }
}

proof fn lemma_rises(s: Seq<int>, n: int, k: int, j: int)
    requires
        n >= 1,
        0 <= k < j < s.len(),
        forall|m: int| 0 <= m < s.len() - 1 ==> #[trigger] s[m + 1] == s[m] + n,
    ensures
        s[k] < s[j],
    decreases j - k,
{
    if j - 1 > k {
        lemma_rises(s, n, k, j - 1);
    }
    assert(s[(j - 1) + 1] == s[j - 1] + n);
}

/// A port `q` is among the ports from `p` with stride `n` exactly when it
/// lies `n`-steps above `p` and is `p` itself or below the highest port.
pub proof fn lemma_ports_from_members(p: int, n: int, q: int)
    requires
        n >= 1,
    ensures
        ports_from(p, n).contains(q) <==> (p <= q && (q - p) % n == 0 && (q == p || q < 65535)),
    decreases 65535 - p,
{
    let s = ports_from(p, n);
    lemma_small_mod(0, n as nat);
    if q > p && (q - p) % n == 0 && q - p < n {
        lemma_small_mod((q - p) as nat, n as nat);
    }
    if p + n < 65535 {
        let t = ports_from(p + n, n);
        lemma_ports_from_members(p + n, n, q);
        assert(s == seq![p] + t);
        lemma_mod_sub_multiples_vanish(q - p, n);
        assert(-n + (q - p) == q - (p + n));
        if q == p {
            assert(s[0] == q);
        } else if t.contains(q) {
            let k = choose|k: int| 0 <= k < t.len() && t[k] == q;
            assert(s[k + 1] == q);
        }
        if s.contains(q) && q != p {
            let k = choose|k: int| 0 <= k < s.len() && s[k] == q;
            assert(t[k - 1] == q);
        }
    } else {
        assert(s == seq![p]);
        if q == p {
            assert(s[0] == q);
        }
    }
}

/// Every port is probed by at most one worker; every port below the
/// highest is probed by some worker; and the highest port is probed only
/// when there are at least 65535 workers.
pub proof fn lemma_partition(n: int, port: int)
    requires
        n >= 1,
        1 <= port <= 65535,
    ensures
        forall|i: int, j: int|
            0 <= i < n && 0 <= j < n && #[trigger] worker_ports_spec(i, n).contains(port)
                && #[trigger] worker_ports_spec(j, n).contains(port) ==> i == j,
        covered(n, port) <==> (port < 65535 || n >= 65535),
        port < 65535 ==> worker_ports_spec((port - 1) % n, n).contains(port),
{
    assert forall|i: int|
        0 <= i < n && #[trigger] worker_ports_spec(i, n).contains(port) implies i == (port - 1)
        % n by {
        lemma_worker_member(n, i, port);
    }
    let w = (port - 1) % n;
    if port < 65535 {
        lemma_worker_member(n, w, port);
        assert(worker_ports_spec(w, n).contains(port));
    }
    if n >= 65535 && port == 65535 {
        lemma_worker_member(n, 65534, port);
        assert(ports_from(65535, n) == seq![65535int]);
        assert(ports_from(65535, n)[0] == 65535);
        assert(worker_ports_spec(65534, n).contains(port));
    }
    if covered(n, port) && port == 65535 {
        let i = choose|i: int| 0 <= i < n && #[trigger] worker_ports_spec(i, n).contains(port);
        lemma_worker_member(n, i, port);
    }
}

/// Worker `i` of `n` probes `port` exactly when `i` is the remainder of
/// `port - 1` by `n` and `port` is the worker's first port or lies below the
/// highest port.
pub proof fn lemma_worker_member(n: int, i: int, port: int)
    requires
        n >= 1,
        0 <= i < n,
        1 <= port <= 65535,
    ensures
        worker_ports_spec(i, n).contains(port) <==> ((port - 1) % n == i && (port == i + 1
            || port < 65535)),
{
    lemma_small_mod(i as nat, n as nat);
    lemma_mod_equivalence(port - 1, i, n);
    assert(port - 1 - i == port - (i + 1));
    if i + 1 > 65535 {
        lemma_small_mod((port - 1) as nat, n as nat);
    } else {
        lemma_ports_from_members(i + 1, n, port);
        if (port - 1) % n == i {
            lemma_mod_range(port - 1, n);
        }
    }
}

proof fn lemma_mod_range(x: int, n: int)
    requires
        n >= 1,
        x >= 0,
    ensures
        0 <= x % n <= x,
{
    vstd::arithmetic::div_mod::lemma_mod_decreases(x as nat, n as nat);
}

/// With more workers than ports, every worker probes at most one port.
pub proof fn lemma_wide_stride(i: int, n: int)
    requires
        n > 65535,
        0 <= i < n,
    ensures
        worker_ports_spec(i, n).len() <= 1,
{
    if i + 1 <= 65535 {
        assert(ports_from(i + 1, n) == seq![i + 1]);
    }
}

} // verus!
