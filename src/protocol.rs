use vstd::prelude::*;

use crate::merge::{cancel_step, end_step, MultiInputsMerge, MultiOutputsMerge, PendingEnd};
use crate::notify::DefaultNotify;

verus! {

/// The barrier state and the completed ends, each with its scope, after
/// running the end reports `(port, scope, weight)` through the fan-in
/// barrier in order.
pub open spec fn end_run(
    pending: Map<Seq<u32>, PendingEnd>,
    n: nat,
    reports: Seq<(usize, Seq<u32>, Set<u64>)>,
) -> (Map<Seq<u32>, PendingEnd>, Seq<(Seq<u32>, PendingEnd)>)
    decreases reports.len(),
{
    if reports.len() == 0 {
        (pending, Seq::empty())
    } else {
        let prev = end_run(pending, n, reports.drop_last());
        let r = reports.last();
        let s = end_step(prev.0, n, r.0, r.1, r.2);
        (s.0, if s.1 is Some { prev.1.push((r.1, s.1->0)) } else { prev.1 })
    }
}

/// The barrier state and the number of cancellations passed on after
/// running the requests `(port, scope)` through the fan-out barrier in order.
pub open spec fn cancel_run(pending: Map<Seq<u32>, Set<u64>>, m: nat, requests: Seq<(usize, Seq<u32>)>) -> (
    Map<Seq<u32>, Set<u64>>,
    nat,
)
    decreases requests.len(),
{
    if requests.len() == 0 {
        (pending, 0)
    } else {
        let prev = cancel_run(pending, m, requests.drop_last());
        let r = requests.last();
        let s = cancel_step(prev.0, m, r.0, r.1);
        (s.0, if s.1 { prev.1 + 1 } else { prev.1 })
    }
}

/// The distinct ports among the reports.
pub open spec fn reported_ports<A>(reports: Seq<(usize, A)>) -> Set<u64>
    decreases reports.len(),
{
    if reports.len() == 0 {
        Set::empty()
    } else {
        reported_ports(reports.drop_last()).insert(reports.last().0 as u64)
    }
}

/// The union of the reported weights.
pub open spec fn reported_weight(reports: Seq<(usize, Seq<u32>, Set<u64>)>) -> Set<u64>
    decreases reports.len(),
{
    if reports.len() == 0 {
        Set::empty()
    } else {
        reported_weight(reports.drop_last()).union(reports.last().2)
    }
}

pub open spec fn end_ports(reports: Seq<(usize, Seq<u32>, Set<u64>)>) -> Set<u64> {
    reported_ports(reports.map_values(|r: (usize, Seq<u32>, Set<u64>)| (r.0, r.1)))
}

proof fn lemma_reported_ports_finite<A>(reports: Seq<(usize, A)>)
    ensures
        reported_ports(reports).finite(),
        reports.len() > 0 ==> reported_ports(reports).len() > 0,
    decreases reports.len(),
{
    if reports.len() > 0 {
        lemma_reported_ports_finite(reports.drop_last());
        assert(reported_ports(reports).contains(reports.last().0 as u64));
    }
}

proof fn lemma_reported_ports_contains<A>(reports: Seq<(usize, A)>, x: u64)
    ensures
        reported_ports(reports).contains(x) <==> exists|i: int| 0 <= i < reports.len() && (#[trigger] reports[i]).0 as u64 == x,
    decreases reports.len(),
{
    if reports.len() > 0 {
        let init = reports.drop_last();
        lemma_reported_ports_contains(init, x);
        if reported_ports(init).contains(x) {
            let i = choose|i: int| 0 <= i < init.len() && (#[trigger] init[i]).0 as u64 == x;
            assert(reports[i] == init[i]);
        }
        if exists|i: int| 0 <= i < reports.len() && (#[trigger] reports[i]).0 as u64 == x {
            let i = choose|i: int| 0 <= i < reports.len() && (#[trigger] reports[i]).0 as u64 == x;
            if i < init.len() {
                assert(init[i] == reports[i]);
            } else {
                assert(reports.last() == reports[i]);
            }
        }
    }
}

proof fn lemma_end_ports_step(reports: Seq<(usize, Seq<u32>, Set<u64>)>)
    requires
        reports.len() > 0,
    ensures
        end_ports(reports) == end_ports(reports.drop_last()).insert(reports.last().0 as u64),
{
    let f = |r: (usize, Seq<u32>, Set<u64>)| (r.0, r.1);
    assert(reports.map_values(f).drop_last() =~= reports.drop_last().map_values(f));
}

/// Fan-in: while the reports of scope `t` come from fewer than `n` input
/// ports, one report each, no end of `t` passes, whatever their order;
/// the barrier holds the ports heard from, the first reporting port, and the
/// merge of every reported weight.
pub proof fn lemma_fan_in_waits_for_every_port(
    pending: Map<Seq<u32>, PendingEnd>,
    n: nat,
    t: Seq<u32>,
    reports: Seq<(usize, Seq<u32>, Set<u64>)>,
)
    requires
        !pending.contains_key(t),
        reports.len() > 0,
        forall|i: int| 0 <= i < reports.len() ==> (#[trigger] reports[i]).1 == t,
        forall|i: int, j: int| 0 <= i < j < reports.len() ==> reports[i].0 != reports[j].0,
        end_ports(reports).len() < n,
    ensures
        end_run(pending, n, reports).1.len() == 0,
        end_run(pending, n, reports).0.contains_key(t),
        end_run(pending, n, reports).0[t] == (PendingEnd {
            port: reports[0].0,
            weight: reported_weight(reports),
            ports: end_ports(reports),
        }),
    decreases reports.len(),
{
    let f = |r: (usize, Seq<u32>, Set<u64>)| (r.0, r.1);
    lemma_reported_ports_finite(reports.map_values(f));
    lemma_end_ports_step(reports);
    let last = reports.last();
    assert(last == reports[reports.len() - 1]);
    let init0 = reports.drop_last();
    let prev0 = end_run(pending, n, init0);
    assert(reported_weight(reports) == reported_weight(init0).union(last.2));
    if reports.len() == 1 {
        assert(init0.len() == 0);
        assert(prev0.0 == pending);
        assert(prev0.1 == Seq::<(Seq<u32>, PendingEnd)>::empty());
        assert(end_ports(init0) == Set::<u64>::empty()) by {
            assert(init0.map_values(f).len() == 0);
        }
        assert(reported_weight(init0) == Set::<u64>::empty());
        assert(reported_weight(reports) =~= last.2);
        assert(last == reports[0]);
    } else {
        let init = reports.drop_last();
        assert(init[0] == reports[0]);
        assert forall|i: int| 0 <= i < init.len() implies (#[trigger] init[i]).1 == t by {
            assert(init[i] == reports[i]);
        }
        assert forall|i: int, j: int| 0 <= i < j < init.len() implies init[i].0 != init[j].0 by {
            assert(init[i] == reports[i] && init[j] == reports[j]);
        }
        lemma_reported_ports_finite(init.map_values(f));
        vstd::set_lib::lemma_len_subset(end_ports(init), end_ports(reports));
        lemma_fan_in_waits_for_every_port(pending, n, t, init);
        let prev = end_run(pending, n, init);
        let g = init.map_values(f);
        lemma_reported_ports_contains(g, last.0 as u64);
        if prev.0[t].ports.contains(last.0 as u64) {
            let i = choose|i: int| 0 <= i < g.len() && (#[trigger] g[i]).0 as u64 == last.0 as u64;
            assert(g[i].0 == init[i].0);
            assert(init[i] == reports[i]);
        }
    }
}

/// Fan-in: the report that brings the `n`-th distinct input port of scope
/// `t` passes exactly one end of `t`, with the merge of every reported
/// weight, and the barrier forgets `t`.
pub proof fn lemma_fan_in_passes_on_last_port(
    pending: Map<Seq<u32>, PendingEnd>,
    n: nat,
    t: Seq<u32>,
    reports: Seq<(usize, Seq<u32>, Set<u64>)>,
)
    requires
        n > 1,
        !pending.contains_key(t),
        reports.len() > 1,
        forall|i: int| 0 <= i < reports.len() ==> (#[trigger] reports[i]).1 == t,
        forall|i: int, j: int| 0 <= i < j < reports.len() - 1 ==> reports[i].0 != reports[j].0,
        end_ports(reports.drop_last()).len() == n - 1,
        !end_ports(reports.drop_last()).contains(reports.last().0 as u64),
    ensures
        end_run(pending, n, reports).1 == seq![
            (t, PendingEnd { port: reports[0].0, weight: reported_weight(reports), ports: end_ports(reports) }),
        ],
        !end_run(pending, n, reports).0.contains_key(t),
        end_ports(reports).len() == n,
{
    let init = reports.drop_last();
    let f = |r: (usize, Seq<u32>, Set<u64>)| (r.0, r.1);
    assert(init.len() > 0);
    assert(init[0] == reports[0]);
    assert forall|i: int| 0 <= i < init.len() implies (#[trigger] init[i]).1 == t by {
        assert(init[i] == reports[i]);
    }
    assert forall|i: int, j: int| 0 <= i < j < init.len() implies init[i].0 != init[j].0 by {
        assert(init[i] == reports[i] && init[j] == reports[j]);
    }
    lemma_reported_ports_finite(init.map_values(f));
    lemma_fan_in_waits_for_every_port(pending, n, t, init);
    lemma_end_ports_step(reports);
    assert(reports.last() == reports[reports.len() - 1]);
    assert(end_run(pending, n, init).1 =~= Seq::<(Seq<u32>, PendingEnd)>::empty());
}

/// Fan-out: while the cancellations of scope `t` come from fewer than `m`
/// distinct output ports, none passes on to the inputs, whatever their
/// order and repetitions; the barrier holds the ports heard from.
pub proof fn lemma_fan_out_waits_for_every_port(
    pending: Map<Seq<u32>, Set<u64>>,
    m: nat,
    t: Seq<u32>,
    requests: Seq<(usize, Seq<u32>)>,
)
    requires
        !pending.contains_key(t),
        requests.len() > 0,
        forall|i: int| 0 <= i < requests.len() ==> (#[trigger] requests[i]).1 == t,
        reported_ports(requests).len() < m,
    ensures
        cancel_run(pending, m, requests).1 == 0,
        cancel_run(pending, m, requests).0.contains_key(t),
        cancel_run(pending, m, requests).0[t] == reported_ports(requests),
    decreases requests.len(),
{
    lemma_reported_ports_finite(requests);
    let last = requests.last();
    assert(last == requests[requests.len() - 1]);
    let init = requests.drop_last();
    let prev = cancel_run(pending, m, init);
    assert(reported_ports(requests) == reported_ports(init).insert(last.0 as u64));
    if requests.len() == 1 {
        assert(init.len() == 0);
        assert(prev == (pending, 0nat));
        assert(reported_ports(init) == Set::<u64>::empty());
    } else {
        assert forall|i: int| 0 <= i < init.len() implies (#[trigger] init[i]).1 == t by {
            assert(init[i] == requests[i]);
        }
        lemma_reported_ports_finite(init);
        vstd::set_lib::lemma_len_subset(reported_ports(init), reported_ports(requests));
        lemma_fan_out_waits_for_every_port(pending, m, t, init);
        assert(prev.0.contains_key(t));
        assert(prev.0[t].insert(last.0 as u64) == reported_ports(requests));
    }
    let s = cancel_step(prev.0, m, last.0, last.1);
    assert(cancel_run(pending, m, requests) == (s.0, if s.1 { prev.1 + 1 } else { prev.1 }));
    assert(!s.1);
}

/// Fan-out: the cancellation that brings the `m`-th distinct output port of
/// scope `t` passes on, once, and the barrier forgets `t`.
pub proof fn lemma_fan_out_passes_on_last_port(
    pending: Map<Seq<u32>, Set<u64>>,
    m: nat,
    t: Seq<u32>,
    requests: Seq<(usize, Seq<u32>)>,
)
    requires
        m > 1,
        !pending.contains_key(t),
        requests.len() > 1,
        forall|i: int| 0 <= i < requests.len() ==> (#[trigger] requests[i]).1 == t,
        reported_ports(requests.drop_last()).len() == m - 1,
        !reported_ports(requests.drop_last()).contains(requests.last().0 as u64),
    ensures
        cancel_run(pending, m, requests).1 == 1,
        !cancel_run(pending, m, requests).0.contains_key(t),
        reported_ports(requests).len() == m,
{
    let init = requests.drop_last();
    assert(init.len() > 0);
    assert forall|i: int| 0 <= i < init.len() implies (#[trigger] init[i]).1 == t by {
        assert(init[i] == requests[i]);
    }
    lemma_reported_ports_finite(init);
    lemma_fan_out_waits_for_every_port(pending, m, t, init);
    assert(requests.last() == requests[requests.len() - 1]);
}

/// Fan-out: asking twice in a row to cancel a scope from the same output
/// port counts once. The second request never passes on, and where the
/// first did not pass on either, the second changes nothing.
pub proof fn lemma_cancel_twice_counts_once(b: MultiOutputsMerge, port: usize, t: Seq<u32>)
    requires
        b.wf(),
    ensures
        ({
            let m = b.spec_output_size();
            let first = cancel_step(b.pending(), m, port, t);
            let second = cancel_step(first.0, m, port, t);
            &&& !second.1
            &&& !first.1 ==> second.0 == first.0
        }),
{
    let m = b.spec_output_size();
    let p = port as u64;
    let first = cancel_step(b.pending(), m, port, t);
    b.lemma_waits_for_several_outputs();
    assert(m > 1);
    if !b.pending().contains_key(t) {
        assert(first.0[t] == Set::<u64>::empty().insert(p));
        assert(first.0[t].insert(p) =~= first.0[t]);
        assert(Set::<u64>::empty().insert(p).len() == 1);
        assert(first.0.insert(t, first.0[t]) =~= first.0);
    } else {
        b.lemma_pending_incomplete(t);
        let ps = b.pending()[t].insert(p);
        if ps.len() == m {
            assert(!first.0.contains_key(t));
            assert(Set::<u64>::empty().insert(p).len() == 1);
        } else {
            assert(ps.len() <= b.pending()[t].len() + 1);
            assert(first.0[t] == ps);
            assert(ps.insert(p) =~= ps);
            assert(first.0.insert(t, ps) =~= first.0);
        }
    }
}

/// With a single input and a single output, the default strategy holds no
/// end and no cancellation back: each passes on its first occurrence, with
/// its own weight, and the strategy's state stays as it was.
pub proof fn lemma_single_ports_pass_at_once(n: DefaultNotify, port: usize, t: Seq<u32>, w: Set<u64>)
    requires
        !n.fans_in(),
        !n.fans_out(),
    ensures
        n.end_result(port, t, w) == Some(w),
        n.ends_after(port, t, w) == n.pending_ends(),
        n.cancel_passes(port, t),
        n.cancels_after(port, t) == n.pending_cancels(),
{
}

/// The merge of reported weights holds exactly what some report holds, so
/// it is the same for every order of the same reports.
pub proof fn lemma_merged_weight_order_free(reports: Seq<(usize, Seq<u32>, Set<u64>)>, x: u64)
    ensures
        reported_weight(reports).contains(x) <==> exists|i: int| 0 <= i < reports.len() && (#[trigger] reports[i]).2.contains(x),
    decreases reports.len(),
{
    if reports.len() > 0 {
        let init = reports.drop_last();
        lemma_merged_weight_order_free(init, x);
        if reported_weight(init).contains(x) {
            let i = choose|i: int| 0 <= i < init.len() && (#[trigger] init[i]).2.contains(x);
            assert(reports[i] == init[i]);
        }
        if exists|i: int| 0 <= i < reports.len() && (#[trigger] reports[i]).2.contains(x) {
            let i = choose|i: int| 0 <= i < reports.len() && (#[trigger] reports[i]).2.contains(x);
            if i < init.len() {
                assert(init[i] == reports[i]);
            } else {
                assert(reports.last() == reports[i]);
            }
        }
    }
}

/// Fan-in, one report: an end passes exactly when its port is the last
/// input port missing for the scope; otherwise the port joins those heard
/// from.
pub proof fn lemma_fan_in_step(b: MultiInputsMerge, port: usize, t: Seq<u32>, w: Set<u64>)
    requires
        b.wf(),
    ensures
        ({
            let n = b.spec_input_size();
            let s = end_step(b.pending(), n, port, t, w);
            let heard = if b.pending().contains_key(t) {
                b.pending()[t].ports
            } else {
                Set::<u64>::empty()
            };
            &&& s.1 is Some <==> (!heard.contains(port as u64) && heard.len() + 1 == n)
            &&& s.1 is Some ==> !s.0.contains_key(t)
            &&& s.1 is None ==> s.0.contains_key(t) && s.0[t].ports == heard.insert(port as u64)
        }),
{
    let p = port as u64;
    if b.pending().contains_key(t) {
        b.lemma_pending_incomplete(t);
        let heard = b.pending()[t].ports;
        if heard.contains(p) {
            assert(heard.insert(p) =~= heard);
        }
    } else {
        b.lemma_waits_for_several_inputs();
        assert(Set::<u64>::empty().insert(p).len() == 1);
        assert(Set::<u64>::empty().len() == 0);
    }
}

} // verus!
