use vstd::prelude::*;

use crate::addr::IpAddress;
use crate::scan::{PortState, Protocol, ScanResult};

verus! {

/// The predicate the report keeps: only ports that answered.
pub open spec fn is_open(r: ScanResult) -> bool {
    r.state == PortState::Open
}

/// Report order: ascending by address, then port, then protocol. A total
/// order, so the report is the same whatever order the probes finished
/// in.
pub open spec fn report_le(a: ScanResult, b: ScanResult) -> bool {
    let af = a.ip.family_rank();
    let bf = b.ip.family_rank();
    let av = a.ip.numeric_value();
    let bv = b.ip.numeric_value();
    ||| af < bf
    ||| (af == bf && av < bv)
    ||| (af == bf && av == bv && a.port < b.port)
    ||| (af == bf && av == bv && a.port == b.port && a.protocol.rank() <= b.protocol.rank())
}

/// Any two records are comparable in report order.
pub proof fn lemma_report_le_total(a: ScanResult, b: ScanResult)
    ensures
        report_le(a, b) || report_le(b, a),
{
}

/// Report order is transitive.
pub proof fn lemma_report_le_trans(a: ScanResult, b: ScanResult, c: ScanResult)
    requires
        report_le(a, b),
        report_le(b, c),
    ensures
        report_le(a, c),
{
}

/// A sequence in report order.
pub open spec fn sorted_report(s: Seq<ScanResult>) -> bool {
    forall|i: int, j: int| 0 <= i < j < s.len() ==> report_le(s[i], s[j])
}

fn family_rank_of(ip: &IpAddress) -> (r: u8)
    ensures
        r as int == ip.family_rank(),
{
    match ip {
        IpAddress::V4(_) => 0,
        IpAddress::V6(_) => 1,
    }
}

fn numeric_value_of(ip: &IpAddress) -> (r: u128)
    ensures
        r as int == ip.numeric_value(),
{
    match ip {
        IpAddress::V4(v) => *v as u128,
        IpAddress::V6(v) => *v,
    }
}

fn protocol_rank_of(p: &Protocol) -> (r: u8)
    ensures
        r as int == p.rank(),
{
    match p {
        Protocol::TCP => 0,
        Protocol::UDP => 1,
    }
}

fn report_le_exec(a: &ScanResult, b: &ScanResult) -> (r: bool)
    ensures
        r == report_le(*a, *b),
{
    let af = family_rank_of(&a.ip);
    let bf = family_rank_of(&b.ip);
    if af != bf {
        return af < bf;
    }
    let av = numeric_value_of(&a.ip);
    let bv = numeric_value_of(&b.ip);
    if av != bv {
        return av < bv;
    }
    if a.port != b.port {
        return a.port < b.port;
    }
    protocol_rank_of(&a.protocol) <= protocol_rank_of(&b.protocol)
}

fn is_open_exec(r: &ScanResult) -> (b: bool)
    ensures
        b == is_open(*r),
{
    matches!(r.state, PortState::Open)
}

/// Keep only the Open records, in arrival order.
fn keep_open(results: Vec<ScanResult>) -> (r: Vec<ScanResult>)
    ensures
        r@ == results@.filter(|x: ScanResult| is_open(x)),
{
    let ghost pred = |x: ScanResult| is_open(x);
    let ghost all = results@;
    let mut rest = results;
    let mut kept: Vec<ScanResult> = Vec::new();
    let mut i: usize = 0;
    let n = rest.len();
    proof {
        reveal(Seq::filter);
        assert(all.take(0).filter(pred) =~= Seq::<ScanResult>::empty());
        assert(rest@ =~= all.skip(0));
    }
    while i < n
        invariant
            i <= n,
            n == all.len(),
            pred == (|x: ScanResult| is_open(x)),
            rest@ =~= all.skip(i as int),
            kept@ == all.take(i as int).filter(pred),
        decreases n - i,
    {
        let x = rest.remove(0);
        proof {
            assert(x == all[i as int]);
            assert(rest@ =~= all.skip((i + 1) as int));
            assert(all.take((i + 1) as int) =~= all.take(i as int).push(x));
            all.take(i as int).lemma_filter_push(x, pred);
        }
        if is_open_exec(&x) {
            kept.push(x);
        }
        i = i + 1;
    }
    proof {
        assert(all.take(n as int) =~= all);
    }
    kept
}

/// Sort a report in place by (address, port, protocol) without changing
/// what it holds.
fn sort_report(v: &mut Vec<ScanResult>)
    ensures
        sorted_report(final(v)@),
        final(v)@.to_multiset() == old(v)@.to_multiset(),
{
    broadcast use vstd::seq_lib::group_to_multiset_ensures;
    broadcast use vstd::seq_lib::to_multiset_insert;
    broadcast use vstd::multiset::group_multiset_axioms;

    let n = v.len();
    if n <= 1 {
        return;
    }
    let mut i: usize = 1;
    while i < n
        invariant
            1 <= i <= n,
            n == v@.len(),
            forall|a: int, b: int| 0 <= a < b < i ==> report_le(#[trigger] v@[a], #[trigger] v@[b]),
            v@.to_multiset() == old(v)@.to_multiset(),
        decreases n - i,
    {
        let ghost before = v@;
        // Find where the element at i belongs among the sorted prefix.
        let mut p: usize = 0;
        while p < i && report_le_exec(&v[p], &v[i])
            invariant
                p <= i < n == v@.len(),
                v@ == before,
                forall|q: int| 0 <= q < p ==> report_le(v@[q], v@[i as int]),
            decreases i - p,
        {
            p = p + 1;
        }
        if p < i {
            let x = v.remove(i);
            v.insert(p, x);
            proof {
                let after = v@;
                assert(after =~= before.remove(i as int).insert(p as int, x));
                assert(x == before[i as int]);
                assert forall|a: int, b: int| 0 <= a < b < i + 1 implies report_le(
                    #[trigger] after[a],
                    #[trigger] after[b],
                ) by {
                    lemma_report_le_total(x, before[p as int]);
                    if b < p {
                        assert(after[a] == before[a] && after[b] == before[b]);
                    } else if b == p {
                        assert(after[b] == x);
                        assert(after[a] == before[a]);
                    } else if a < p {
                        assert(after[a] == before[a]);
                        assert(after[b] == before[b - 1]);
                    } else if a == p {
                        assert(after[a] == x);
                        assert(after[b] == before[b - 1]);
                        lemma_report_le_trans(x, before[p as int], before[b - 1]);
                    } else {
                        assert(after[a] == before[a - 1] && after[b] == before[b - 1]);
                    }
                }
                assert(before.contains(before[i as int]));
                let mid = before.remove(i as int);
                vstd::seq_lib::to_multiset_insert(mid, p as int, x);
                vstd::seq_lib::to_multiset_remove(before, i as int);
                assert(mid.insert(p as int, x).to_multiset() == mid.to_multiset().insert(x));
                assert(mid.to_multiset() == before.to_multiset().remove(x));
                vstd::seq_lib::to_multiset_contains(before, x);
                assert(before.to_multiset().count(x) > 0);
                assert(before.to_multiset().remove(x).insert(x) =~= before.to_multiset());
                assert(after.to_multiset() =~= before.to_multiset());
            }
        }
        i = i + 1;
    }
}

/// The engine's sole externally visible product: the Open results and
/// nothing else, sorted ascending by (address, port, protocol), the same
/// report whatever order the probes completed in.
pub fn finalize(results: Vec<ScanResult>) -> (r: Vec<ScanResult>)
    ensures
        sorted_report(r@),
        forall|k: int| 0 <= k < r@.len() ==> is_open(#[trigger] r@[k]),
        r@.to_multiset() == results@.filter(|x: ScanResult| is_open(x)).to_multiset(),
{
    broadcast use vstd::seq_lib::group_to_multiset_ensures;

    let ghost all0 = results@;
    let mut kept = keep_open(results);
    let ghost filtered = kept@;
    sort_report(&mut kept);
    proof {
        assert forall|k: int| 0 <= k < kept@.len() implies is_open(#[trigger] kept@[k]) by {
            assert(kept@.contains(kept@[k]));
            assert(kept@.to_multiset().count(kept@[k]) > 0);
            assert(filtered.to_multiset().count(kept@[k]) > 0);
            assert(filtered.contains(kept@[k]));
            let j = choose|j: int| 0 <= j < filtered.len() && filtered[j] == kept@[k];
            all0.lemma_filter_pred(|x: ScanResult| is_open(x), j);
        }
    }
    kept
}

} // verus!
