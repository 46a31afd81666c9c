//! Interleaved partition of the TCP port space among a pool of workers.
use vstd::arithmetic::div_mod::{lemma_fundamental_div_mod, lemma_fundamental_div_mod_converse};
use vstd::multiset::Multiset;
use vstd::prelude::*;
use vstd::seq_lib::group_to_multiset_ensures;

verus! {

/// The highest TCP port number.
pub const MAX_PORT: u16 = 65535;

/// Number of ports that the worker with `start_offset` probes when `stride` workers share the scan.
pub open spec fn probe_count(start_offset: nat, stride: nat) -> nat {
    if stride == 0 || start_offset >= MAX_PORT {
        0
    } else {
        ((MAX_PORT - (start_offset + 1)) as nat / stride + 1) as nat
    }
}

/// The ports, in probing order, that the worker with `start_offset` probes:
/// `start_offset + 1 + k * stride` for every `k` that keeps the port within `MAX_PORT`.
pub open spec fn probes(start_offset: nat, stride: nat) -> Seq<int> {
    Seq::new(probe_count(start_offset, stride), |k: int| start_offset + 1 + k * stride)
}

/// Ports as mathematical integers.
pub open spec fn port_values(s: Seq<u16>) -> Seq<int> {
    s.map_values(|p: u16| p as int)
}

/// For `m > 0` and `d >= 0`: `j <= d / m` exactly when `j * m <= d`.
proof fn lemma_quotient_bound(d: int, m: int, j: int)
    requires
        d >= 0,
        m > 0,
        j >= 0,
    ensures
        j <= d / m <==> j * m <= d,
{
    lemma_fundamental_div_mod(d, m);
    let q = d / m;
    let r = d % m;
    assert(0 <= r < m) by {
        vstd::arithmetic::div_mod::lemma_mod_bound(d, m);
    }
    if j <= q {
        assert(j * m <= d) by (nonlinear_arith)
            requires
                j <= q,
                m > 0,
                d == m * q + r,
                r >= 0,
        ;
    } else {
        assert(j * m > d) by (nonlinear_arith)
            requires
                j >= q + 1,
                m > 0,
                d == m * q + r,
                r < m,
        ;
    }
}

/// The port that follows `port` in a worker's sequence, or `None` when `port` is
/// its last one. The bound is checked before the addition, so no sum past
/// `MAX_PORT` is ever formed.
pub fn next_port(port: u16, stride: u32) -> (r: Option<u16>)
    ensures
        r == (if port as int + stride as int <= MAX_PORT as int {
            Some((port + stride) as u16)
        } else {
            None::<u16>
        }),
{
    if ((MAX_PORT - port) as u32) < stride {
        None
    } else {
        Some(port + stride as u16)
    }
}

/// The ports that the worker with `start_offset` probes, in probing order, when
/// `stride` workers share the scan. A worker whose offset is at or past
/// `MAX_PORT` probes nothing.
pub fn worker_ports(start_offset: u32, stride: u32) -> (r: Vec<u16>)
    requires
        stride > 0,
    ensures
        port_values(r@) == probes(start_offset as nat, stride as nat),
{
    let mut ports: Vec<u16> = Vec::new();
    if start_offset >= MAX_PORT as u32 {
        assert(port_values(ports@) =~= probes(start_offset as nat, stride as nat));
        return ports;
    }
    let ghost s1 = start_offset + 1;
    let ghost d = MAX_PORT - s1;
    let ghost count = probe_count(start_offset as nat, stride as nat);
    let mut port: u16 = (start_offset + 1) as u16;
    let ghost mut k: int = 0;
    proof {
        lemma_quotient_bound(d, stride as int, 0);
    }
    loop
        invariant_except_break
            ports@.len() == k,
            port_values(ports@) =~= probes(start_offset as nat, stride as nat).take(k),
        invariant
            stride > 0,
            start_offset < MAX_PORT,
            s1 == start_offset + 1,
            d == MAX_PORT - s1,
            count == d / (stride as int) + 1,
            0 <= k < count,
            port == s1 + k * stride,
        ensures
            port_values(ports@) =~= probes(start_offset as nat, stride as nat),
        decreases count - k,
    {
        ports.push(port);
        assert(port_values(ports@) =~= probes(start_offset as nat, stride as nat).take(k + 1));
        proof {
            lemma_quotient_bound(d, stride as int, k + 1);
            assert((k + 1) * stride == k * stride + stride) by (nonlinear_arith);
        }
        match next_port(port, stride) {
            None => {
                assert(port_values(ports@) =~= probes(start_offset as nat, stride as nat));
                break;
            },
            Some(p) => {
                port = p;
                proof {
                    k = k + 1;
                }
            },
        }
    }
    ports
}

/// The port sequences of all `worker_count` workers: entry `i` is what the
/// worker with offset `i` probes, with `worker_count` as the stride.
pub fn scan_plan(worker_count: u32) -> (r: Vec<Vec<u16>>)
    requires
        worker_count > 0,
    ensures
        r@.len() == worker_count,
        forall|i: int|
            0 <= i < worker_count ==> port_values(#[trigger] r@[i]@) == probes(
                i as nat,
                worker_count as nat,
            ),
{
    let mut plan: Vec<Vec<u16>> = Vec::new();
    let mut i: u32 = 0;
    while i < worker_count
        invariant
            i <= worker_count,
            plan@.len() == i,
            forall|j: int|
                0 <= j < i ==> port_values(#[trigger] plan@[j]@) == probes(
                    j as nat,
                    worker_count as nat,
                ),
        decreases worker_count - i,
    {
        let ports = worker_ports(i, worker_count);
        plan.push(ports);
        i = i + 1;
    }
    plan
}

/// Each worker probes ports within `1..=MAX_PORT`, in strictly increasing
/// order, so no worker probes a port twice.
pub proof fn lemma_probes_increasing(start_offset: nat, stride: nat)
    ensures
        forall|a: int|
            0 <= a < probes(start_offset, stride).len() ==> 1 <= #[trigger] probes(
                start_offset,
                stride,
            )[a] <= MAX_PORT,
        forall|a: int, b: int|
            0 <= a < b < probes(start_offset, stride).len() ==> #[trigger] probes(
                start_offset,
                stride,
            )[a] < #[trigger] probes(start_offset, stride)[b],
{
    let s = probes(start_offset, stride);
    if s.len() > 0 {
        let d = MAX_PORT - (start_offset + 1);
        assert forall|a: int| 0 <= a < s.len() implies 1 <= #[trigger] s[a] <= MAX_PORT by {
            lemma_quotient_bound(d, stride as int, a);
            assert(a * stride >= 0) by (nonlinear_arith)
                requires
                    a >= 0,
            ;
        }
        assert forall|a: int, b: int| 0 <= a < b < s.len() implies #[trigger] s[a] < #[trigger] s[b] by {
            assert(a * stride < b * stride) by (nonlinear_arith)
                requires
                    a < b,
                    stride > 0,
            ;
        }
    }
}

/// With `n` workers, a port is probed by the worker with offset `i < n` exactly
/// when it lies in `1..=MAX_PORT` and `i == (port - 1) % n`. So every port of
/// the range is probed by one worker and by no other, and no port outside the
/// range is probed at all, whatever the number of workers.
pub proof fn lemma_partition(n: nat, port: int)
    requires
        n >= 1,
    ensures
        forall|i: nat|
            i < n ==> (#[trigger] probes(i, n).contains(port) <==> (1 <= port <= MAX_PORT && i
                == (port - 1) % (n as int))),
{
    assert forall|i: nat| i < n implies (#[trigger] probes(i, n).contains(port) <==> (1 <= port
        <= MAX_PORT && i == (port - 1) % (n as int))) by {
        let s = probes(i, n);
        lemma_probes_increasing(i, n);
        if s.contains(port) {
            let k = choose|k: int| 0 <= k < s.len() && s[k] == port;
            assert(s[k] == port);
            assert(k * n >= 0) by (nonlinear_arith)
                requires
                    k >= 0,
            ;
            assert(port - 1 == k * n + i);
            lemma_fundamental_div_mod_converse(port - 1, n as int, k, i as int);
        }
        if 1 <= port <= MAX_PORT && i == (port - 1) % (n as int) {
            let k = (port - 1) / (n as int);
            lemma_fundamental_div_mod(port - 1, n as int);
            assert(k >= 0) by {
                vstd::arithmetic::div_mod::lemma_div_pos_is_pos(port - 1, n as int);
            }
            assert(n * k == k * n) by (nonlinear_arith);
            lemma_quotient_bound(MAX_PORT - (i + 1), n as int, k);
            assert(s[k] == port);
        }
    }
}

/// Every port that workers `0..k` of `n` probe, counted as often as it is probed.
pub open spec fn all_probes(n: nat, k: nat) -> Multiset<int>
    decreases k,
{
    if k == 0 {
        Multiset::empty()
    } else {
        all_probes(n, (k - 1) as nat).add(probes((k - 1) as nat, n).to_multiset())
    }
}

/// The port range `1..=MAX_PORT`, ascending.
pub open spec fn port_range() -> Seq<int> {
    Seq::new(MAX_PORT as nat, |i: int| i + 1)
}

/// In a sequence without repeats, an element occurs once or not at all.
proof fn lemma_count_no_repeats(s: Seq<int>, x: int)
    requires
        s.no_duplicates(),
    ensures
        s.to_multiset().count(x) == if s.contains(x) {
            1nat
        } else {
            0nat
        },
{
    broadcast use group_to_multiset_ensures;

    s.lemma_multiset_has_no_duplicates();
}

/// How often workers `0..k` of `n` probe port `p`.
proof fn lemma_all_probes_count(n: nat, k: nat, p: int)
    requires
        n >= 1,
        k <= n,
    ensures
        all_probes(n, k).count(p) == if 1 <= p <= MAX_PORT && (p - 1) % (n as int) < k {
            1nat
        } else {
            0nat
        },
    decreases k,
{
    if k > 0 {
        let i = (k - 1) as nat;
        lemma_all_probes_count(n, i, p);
        lemma_probes_increasing(i, n);
        let s = probes(i, n);
        assert(s.no_duplicates()) by {
            assert forall|a: int, b: int| 0 <= a < s.len() && 0 <= b < s.len() && a != b implies s[a]
                != s[b] by {
                if a < b {
                    assert(s[a] < s[b]);
                } else {
                    assert(s[b] < s[a]);
                }
            }
        }
        lemma_count_no_repeats(s, p);
        lemma_partition(n, p);
        assert(s.contains(p) <==> (1 <= p <= MAX_PORT && i == (p - 1) % (n as int)));
    }
}

/// Together, `n` workers probe every port of `1..=MAX_PORT` exactly once and
/// nothing else: the ports they probe, counted with repeats, are exactly the
/// port range, so there are `MAX_PORT` probes in all, with no gaps and no
/// duplicates.
pub proof fn lemma_partition_exact(n: nat)
    requires
        n >= 1,
    ensures
        all_probes(n, n) == port_range().to_multiset(),
        all_probes(n, n).len() == MAX_PORT,
{
    broadcast use group_to_multiset_ensures;

    let r = port_range();
    assert(r.no_duplicates());
    assert forall|p: int| #[trigger] all_probes(n, n).count(p) == r.to_multiset().count(p) by {
        lemma_all_probes_count(n, n, p);
        lemma_count_no_repeats(r, p);
        if 1 <= p <= MAX_PORT {
            vstd::arithmetic::div_mod::lemma_mod_bound(p - 1, n as int);
            assert(r[p - 1] == p);
        }
    }
    assert(all_probes(n, n) =~= r.to_multiset());
}

} // verus!
