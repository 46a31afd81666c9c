//! Aggregation of the open ports that workers report into the final report.
use vstd::multiset::Multiset;
use vstd::prelude::*;
use vstd::relations::{sorted_by, total_ordering};
use vstd::seq_lib::lemma_sorted_unique;
use vstd::seq_lib::group_to_multiset_ensures;

use crate::partition::{lemma_partition, lemma_probes_increasing, probes, MAX_PORT};

verus! {

/// Ascending numeric order on ports.
pub open spec fn ascending() -> spec_fn(u16, u16) -> bool {
    |a: u16, b: u16| a <= b
}

proof fn lemma_ascending_total()
    ensures
        total_ordering(ascending()),
{
}

/// Relies on `slice::sort`: afterwards the vector holds the same elements,
/// in ascending order.
#[verifier::external_body]
fn sort_ports(v: &mut Vec<u16>)
    ensures
        sorted_by(final(v)@, ascending()),
        final(v)@.to_multiset() == old(v)@.to_multiset(),
{
    v.sort();
}

/// The final report: the reported ports, in whatever order they arrived,
/// sorted ascending.
pub fn sorted_report(reports: Vec<u16>) -> (r: Vec<u16>)
    ensures
        r@ == reports@.sort_by(ascending()),
{
    let mut out = reports;
    sort_ports(&mut out);
    proof {
        lemma_ascending_total();
        reports@.lemma_sort_by_ensures(ascending());
        lemma_sorted_unique(out@, reports@.sort_by(ascending()), ascending());
    }
    out
}

/// The report depends only on which ports were reported and how many times,
/// never on the order in which the workers delivered them. Two scans whose
/// workers report the same ports therefore produce identical reports.
pub proof fn lemma_report_order_independent(a: Seq<u16>, b: Seq<u16>)
    requires
        a.to_multiset() == b.to_multiset(),
    ensures
        a.sort_by(ascending()) == b.sort_by(ascending()),
{
    lemma_ascending_total();
    a.lemma_sort_by_ensures(ascending());
    b.lemma_sort_by_ensures(ascending());
    lemma_sorted_unique(a.sort_by(ascending()), b.sort_by(ascending()), ascending());
}

/// The report is in ascending order and holds exactly the reported ports,
/// each as often as it was reported.
pub proof fn lemma_report_sorted(a: Seq<u16>)
    ensures
        sorted_by(a.sort_by(ascending()), ascending()),
        a.sort_by(ascending()).to_multiset() == a.to_multiset(),
{
    lemma_ascending_total();
    a.lemma_sort_by_ensures(ascending());
}

/// The ports that the worker with offset `i` of `n` probes, in probing order.
pub open spec fn worker_port_seq(i: nat, n: nat) -> Seq<u16> {
    probes(i, n).map_values(|p: int| p as u16)
}

/// Everything that workers `0..k` of `n` report when exactly the ports in
/// `open` accept a connection: each worker reports the open ports it probes.
pub open spec fn found_by(n: nat, open: Set<u16>, k: nat) -> Multiset<u16>
    decreases k,
{
    if k == 0 {
        Multiset::empty()
    } else {
        found_by(n, open, (k - 1) as nat).add(
            worker_port_seq((k - 1) as nat, n).to_multiset().filter(|p: u16| open.contains(p)),
        )
    }
}

/// A worker probes each of its ports once.
proof fn lemma_worker_port_count(i: nat, n: nat, p: u16)
    ensures
        worker_port_seq(i, n).to_multiset().count(p) == if probes(i, n).contains(p as int) {
            1nat
        } else {
            0nat
        },
{
    broadcast use group_to_multiset_ensures;

    let s = worker_port_seq(i, n);
    let q = probes(i, n);
    lemma_probes_increasing(i, n);
    assert forall|a: int| 0 <= a < s.len() implies #[trigger] s[a] as int == q[a] by {
        assert(1 <= q[a] <= MAX_PORT);
    }
    assert forall|a: int, b: int| 0 <= a < s.len() && 0 <= b < s.len() && a != b implies s[a]
        != s[b] by {
        assert(s[a] as int == q[a]);
        assert(s[b] as int == q[b]);
        if a < b {
            assert(q[a] < q[b]);
        } else {
            assert(q[b] < q[a]);
        }
    }
    s.lemma_multiset_has_no_duplicates();
    if q.contains(p as int) {
        let a = choose|a: int| 0 <= a < q.len() && q[a] == p as int;
        assert(s[a] as int == q[a]);
        assert(s.contains(p));
    } else if s.contains(p) {
        let a = choose|a: int| 0 <= a < s.len() && s[a] == p;
        assert(s[a] as int == q[a]);
    }
}

/// How often workers `0..k` of `n` report port `p`.
proof fn lemma_found_count(n: nat, open: Set<u16>, k: nat, p: u16)
    requires
        n >= 1,
        k <= n,
    ensures
        found_by(n, open, k).count(p) == if open.contains(p) && p >= 1 && (p - 1) % (n as int)
            < k {
            1nat
        } else {
            0nat
        },
    decreases k,
{
    if k > 0 {
        lemma_found_count(n, open, (k - 1) as nat, p);
        lemma_worker_port_count((k - 1) as nat, n, p);
        lemma_partition(n, p as int);
        assert(probes((k - 1) as nat, n).contains(p as int) <==> (1 <= p && (k - 1) == (p - 1)
            % (n as int)));
    }
}

/// When exactly the ports in `open` accept connections and each worker reports
/// the open ports it probes, in any interleaving, the report lists every open
/// port once, in ascending order, and nothing else.
pub proof fn lemma_detection(n: nat, open: Set<u16>, reports: Seq<u16>)
    requires
        n >= 1,
        reports.to_multiset() == found_by(n, open, n),
    ensures
        sorted_by(reports.sort_by(ascending()), ascending()),
        forall|p: u16| #[trigger]
            reports.sort_by(ascending()).to_multiset().count(p) == if open.contains(p) && p
                >= 1 {
                1nat
            } else {
                0nat
            },
{
    lemma_report_sorted(reports);
    assert forall|p: u16| #[trigger]
        reports.sort_by(ascending()).to_multiset().count(p) == if open.contains(p) && p >= 1 {
            1nat
        } else {
            0nat
        } by {
        lemma_found_count(n, open, n, p);
        if p >= 1 {
            vstd::arithmetic::div_mod::lemma_mod_bound(p - 1, n as int);
        }
    }
}

} // verus!
