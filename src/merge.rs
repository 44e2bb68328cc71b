use vstd::prelude::*;

use crate::notification::{CancelScope, EndScope};
use crate::port_set::{ports_of, PortSet};
use crate::table::{assoc, has_key, keys_distinct, lemma_assoc_at, lemma_assoc_push, lemma_assoc_remove};
use crate::tag::{Tag, Weight};

verus! {

/// What the fan-in barrier holds for one open scope: the port that reported
/// first, the weight merged so far, and the ports that have reported.
pub ghost struct PendingEnd {
    pub port: usize,
    pub weight: Set<u64>,
    pub ports: Set<u64>,
}

pub struct EndEntry {
    pub merged: EndScope,
    pub ports: PortSet,
}

pub struct CancelEntry {
    pub tag: Tag,
    pub ports: PortSet,
}

pub open spec fn end_pairs(tbl: Seq<EndEntry>) -> Seq<(Seq<u32>, PendingEnd)> {
    tbl.map_values(
        |e: EndEntry| (e.merged.tag@, PendingEnd { port: e.merged.port, weight: e.merged.weight@, ports: ports_of(e.ports) }),
    )
}

pub open spec fn cancel_pairs(tbl: Seq<CancelEntry>) -> Seq<(Seq<u32>, Set<u64>)> {
    tbl.map_values(|e: CancelEntry| (e.tag@, ports_of(e.ports)))
}

/// The pending scopes of per-depth tables: a scope of depth `d` is looked up
/// in the table of depth `d` only.
pub open spec fn by_depth<X>(tables: Seq<Seq<(Seq<u32>, X)>>) -> Map<Seq<u32>, X> {
    Map::new(
        |t: Seq<u32>| t.len() < tables.len() && assoc(tables[t.len() as int]).contains_key(t),
        |t: Seq<u32>| assoc(tables[t.len() as int])[t],
    )
}

/// The fan-in barrier: an end of scope passes only once every input port has
/// reported it.
pub struct MultiInputsMerge {
    input_size: usize,
    end_merge: Vec<Vec<EndEntry>>,
}

/// The fan-out barrier: a cancellation passes only once every output port has
/// asked for it.
pub struct MultiOutputsMerge {
    output_size: usize,
    scope_level: u32,
    cancel_merge: Vec<Vec<CancelEntry>>,
}

/// One fan-in step: the end of `t` reported by `port` with weight `w`.
/// Gives the new pending scopes and, where `t` is now ended on every input
/// port, what was merged for it.
pub open spec fn end_step(
    pending: Map<Seq<u32>, PendingEnd>,
    input_size: nat,
    port: usize,
    t: Seq<u32>,
    w: Set<u64>,
) -> (Map<Seq<u32>, PendingEnd>, Option<PendingEnd>) {
    if !pending.contains_key(t) {
        (pending.insert(t, PendingEnd { port, weight: w, ports: Set::empty().insert(port as u64) }), None)
    } else if pending[t].ports.contains(port as u64) {
        (pending, None)
    } else {
        let e = pending[t];
        let m = PendingEnd { port: e.port, weight: e.weight.union(w), ports: e.ports.insert(port as u64) };
        if m.ports.len() == input_size {
            (pending.remove(t), Some(m))
        } else {
            (pending.insert(t, m), None)
        }
    }
}

/// One fan-out step: `port` asks to cancel `t`. Gives the new pending scopes
/// and whether every output port has now asked.
pub open spec fn cancel_step(pending: Map<Seq<u32>, Set<u64>>, output_size: nat, port: usize, t: Seq<u32>) -> (
    Map<Seq<u32>, Set<u64>>,
    bool,
) {
    if !pending.contains_key(t) {
        (pending.insert(t, Set::empty().insert(port as u64)), false)
    } else {
        let ps = pending[t].insert(port as u64);
        if ps.len() == output_size {
            (pending.remove(t), true)
        } else {
            (pending.insert(t, ps), false)
        }
    }
}

proof fn lemma_by_depth_insert<X>(tables: Seq<Seq<(Seq<u32>, X)>>, nt: Seq<(Seq<u32>, X)>, t: Seq<u32>, v: X)
    requires
        t.len() < tables.len(),
        assoc(nt) == assoc(tables[t.len() as int]).insert(t, v),
    ensures
        by_depth(tables.update(t.len() as int, nt)) == by_depth(tables).insert(t, v),
{
    assert(by_depth(tables.update(t.len() as int, nt)) =~= by_depth(tables).insert(t, v));
}

proof fn lemma_by_depth_remove<X>(tables: Seq<Seq<(Seq<u32>, X)>>, nt: Seq<(Seq<u32>, X)>, t: Seq<u32>)
    requires
        t.len() < tables.len(),
        assoc(nt) == assoc(tables[t.len() as int]).remove(t),
    ensures
        by_depth(tables.update(t.len() as int, nt)) == by_depth(tables).remove(t),
{
    assert(by_depth(tables.update(t.len() as int, nt)) =~= by_depth(tables).remove(t));
}

fn find_end(tbl: &Vec<EndEntry>, tag: &Tag) -> (r: Option<usize>)
    ensures
        match r {
            Some(i) => i < tbl@.len() && tbl@[i as int].merged.tag@ == tag@,
            None => !has_key(end_pairs(tbl@), tag@),
        },
{
    let mut i: usize = 0;
    while i < tbl.len()
        invariant
            0 <= i <= tbl@.len(),
            forall|k: int| 0 <= k < i ==> tbl@[k].merged.tag@ != tag@,
        decreases tbl@.len() - i,
    {
        if tbl[i].merged.tag.same_as(tag) {
            return Some(i);
        }
        i = i + 1;
    }
    assert(!has_key(end_pairs(tbl@), tag@)) by {
        if has_key(end_pairs(tbl@), tag@) {
            let k = choose|k: int| 0 <= k < end_pairs(tbl@).len() && end_pairs(tbl@)[k].0 == tag@;
            assert(tbl@[k].merged.tag@ == tag@);
        }
    }
    None
}

fn find_cancel(tbl: &Vec<CancelEntry>, tag: &Tag) -> (r: Option<usize>)
    ensures
        match r {
            Some(i) => i < tbl@.len() && tbl@[i as int].tag@ == tag@,
            None => !has_key(cancel_pairs(tbl@), tag@),
        },
{
    let mut i: usize = 0;
    while i < tbl.len()
        invariant
            0 <= i <= tbl@.len(),
            forall|k: int| 0 <= k < i ==> tbl@[k].tag@ != tag@,
        decreases tbl@.len() - i,
    {
        if tbl[i].tag.same_as(tag) {
            return Some(i);
        }
        i = i + 1;
    }
    assert(!has_key(cancel_pairs(tbl@), tag@)) by {
        if has_key(cancel_pairs(tbl@), tag@) {
            let k = choose|k: int| 0 <= k < cancel_pairs(tbl@).len() && cancel_pairs(tbl@)[k].0 == tag@;
            assert(tbl@[k].tag@ == tag@);
        }
    }
    None
}

impl MultiInputsMerge {
    pub closed spec fn tables(&self) -> Seq<Seq<(Seq<u32>, PendingEnd)>> {
        self.end_merge@.map_values(|tbl: Vec<EndEntry>| end_pairs(tbl@))
    }

    /// The scopes that some but not all input ports have ended.
    pub closed spec fn pending(&self) -> Map<Seq<u32>, PendingEnd> {
        by_depth(self.tables())
    }

    pub closed spec fn spec_input_size(&self) -> nat {
        self.input_size as nat
    }

    /// Scopes of depth up to this bound can be merged.
    pub closed spec fn max_depth(&self) -> nat {
        (self.end_merge@.len() - 1) as nat
    }

    /// The barrier waits for more than one input port.
    pub proof fn lemma_waits_for_several_inputs(&self)
        requires
            self.wf(),
        ensures
            self.spec_input_size() > 1,
    {
    }

    /// Every scope pending in the barrier still waits for some input port,
    /// and the barrier waits for more than one.
    pub proof fn lemma_pending_incomplete(&self, t: Seq<u32>)
        requires
            self.wf(),
            self.pending().contains_key(t),
        ensures
            self.spec_input_size() > 1,
            self.pending()[t].ports.finite(),
            self.pending()[t].ports.len() < self.spec_input_size(),
    {
        let tbl = self.end_merge@[t.len() as int]@;
        assert(self.tables()[t.len() as int] == end_pairs(tbl));
        let i = choose|i: int| 0 <= i < end_pairs(tbl).len() && end_pairs(tbl)[i].0 == t;
        lemma_assoc_at(end_pairs(tbl), i);
        assert(ports_of(self.end_merge@[t.len() as int]@[i].ports) == end_pairs(tbl)[i].1.ports);
    }

    pub closed spec fn wf(&self) -> bool {
        &&& self.input_size > 1
        &&& self.end_merge@.len() >= 1
        &&& forall|d: int| 0 <= d < self.end_merge@.len() ==> keys_distinct(#[trigger] end_pairs(self.end_merge@[d]@))
        &&& forall|d: int, i: int|
            0 <= d < self.end_merge@.len() && 0 <= i < self.end_merge@[d]@.len() ==> {
                let ps = ports_of(#[trigger] self.end_merge@[d]@[i].ports);
                ps.finite() && ps.len() < self.input_size
            }
    }

    /// The deepest scope depth that can be merged.
    pub fn depth_bound(&self) -> (r: u64)
        requires
            self.wf(),
        ensures
            r == self.max_depth(),
    {
        (self.end_merge.len() - 1) as u64
    }

    pub fn new(input_size: usize, scope_level: u32) -> (r: MultiInputsMerge)
        requires
            input_size > 1,
            scope_level < u32::MAX,
        ensures
            r.wf(),
            r.spec_input_size() == input_size,
            r.max_depth() == scope_level,
            r.pending() == Map::<Seq<u32>, PendingEnd>::empty(),
    {
        let mut end_merge: Vec<Vec<EndEntry>> = Vec::new();
        let mut i: u32 = 0;
        while i < scope_level + 1
            invariant
                scope_level < u32::MAX,
                0 <= i <= scope_level + 1,
                end_merge@.len() == i,
                forall|d: int| 0 <= d < i ==> (#[trigger] end_merge@[d])@.len() == 0,
            decreases scope_level + 1 - i,
        {
            end_merge.push(Vec::new());
            i = i + 1;
        }
        let r = MultiInputsMerge { input_size, end_merge };
        assert forall|d: int| 0 <= d < r.end_merge@.len() implies r.tables()[d].len() == 0 by {}
        assert(r.pending() =~= Map::<Seq<u32>, PendingEnd>::empty());
        r
    }

    /// Runs an end of scope through the barrier; returns the merged end once
    /// every input port has reported the scope.
    pub fn merge_end(&mut self, n: EndScope) -> (r: Option<EndScope>)
        requires
            old(self).wf(),
            n.tag@.len() <= old(self).max_depth(),
        ensures
            final(self).wf(),
            final(self).spec_input_size() == old(self).spec_input_size(),
            final(self).max_depth() == old(self).max_depth(),
            ({
                let step = end_step(old(self).pending(), old(self).spec_input_size(), n.port, n.tag@, n.weight@);
                &&& final(self).pending() == step.0
                &&& match r {
                    None => step.1 is None,
                    Some(e) => step.1 is Some && e.port == step.1->0.port && e.tag@ == n.tag@ && e.weight@
                        == step.1->0.weight,
                }
            }),
    {
        let idx = n.tag.len();
        let ghost t = n.tag@;
        let ghost p = n.port as u64;
        let ghost old_tables = self.tables();
        let ghost old_pending = self.pending();
        let ghost w = n.weight@;
        let ghost old_port = n.port;
        let ghost old_merge = self.end_merge@;
        let mut tbl: Vec<EndEntry> = Vec::new();
        std::mem::swap(&mut tbl, &mut self.end_merge[idx]);
        let ghost tbl0 = tbl@;
        assert(end_pairs(tbl0) == old_tables[idx as int]);
        assert(keys_distinct(end_pairs(tbl0)));
        let r = match find_end(&tbl, &n.tag) {
            None => {
                let mut ports = PortSet::new();
                ports.insert(n.port as u64);
                let port = n.port;
                tbl.push(EndEntry { merged: n, ports });
                proof {
                    assert(end_pairs(tbl@) =~= end_pairs(tbl0).push((t, PendingEnd { port, weight: tbl@.last().merged.weight@, ports: Set::empty().insert(p) })));
                    lemma_assoc_push(end_pairs(tbl0), t, PendingEnd { port, weight: tbl@.last().merged.weight@, ports: Set::empty().insert(p) });
                    assert(ports_of(tbl@.last().ports).len() == 1) by {
                        assert(Set::<u64>::empty().insert(p).len() == 1);
                    }
                }
                None
            },
            Some(i) => {
                proof {
                    lemma_assoc_at(end_pairs(tbl0), i as int);
                }
                if tbl[i].ports.contains(n.port as u64) {
                    None
                } else {
                    let mut e = tbl.remove(i);
                    proof {
                        assert(end_pairs(tbl@) =~= end_pairs(tbl0).remove(i as int));
                        lemma_assoc_remove(end_pairs(tbl0), i as int);
                    }
                    e.ports.insert(n.port as u64);
                    e.merged.weight.merge(&n.weight);
                    if e.ports.len() == self.input_size {
                        Some(e.merged)
                    } else {
                        let ghost m = PendingEnd { port: e.merged.port, weight: e.merged.weight@, ports: ports_of(e.ports) };
                        let ghost tbl1 = tbl@;
                        tbl.push(e);
                        proof {
                            assert(end_pairs(tbl@) =~= end_pairs(tbl1).push((t, m)));
                            lemma_assoc_push(end_pairs(tbl1), t, m);
                            assert(assoc(end_pairs(tbl1)).insert(t, m) =~= assoc(end_pairs(tbl0)).insert(t, m));
                        }
                        None
                    }
                }
            },
        };
        std::mem::swap(&mut tbl, &mut self.end_merge[idx]);
        proof {
            assert(self.end_merge@ == old_merge.update(idx as int, self.end_merge@[idx as int]));
            assert(self.tables() =~= old_tables.update(idx as int, end_pairs(self.end_merge@[idx as int]@)));
            let nt = end_pairs(self.end_merge@[idx as int]@);
            let sz = self.input_size as nat;
            if !old_pending.contains_key(t) {
                lemma_by_depth_insert(old_tables, nt, t, PendingEnd { port: old_port, weight: w, ports: Set::empty().insert(p) });
            } else if old_pending[t].ports.contains(p) {
                assert(old_tables.update(idx as int, nt) =~= old_tables);
            } else {
                let e = old_pending[t];
                let m = PendingEnd { port: e.port, weight: e.weight.union(w), ports: e.ports.insert(p) };
                if m.ports.len() == sz {
                    lemma_by_depth_remove(old_tables, nt, t);
                } else {
                    lemma_by_depth_insert(old_tables, nt, t, m);
                }
            }
        }
        r
    }
}


impl MultiOutputsMerge {
    pub closed spec fn tables(&self) -> Seq<Seq<(Seq<u32>, Set<u64>)>> {
        self.cancel_merge@.map_values(|tbl: Vec<CancelEntry>| cancel_pairs(tbl@))
    }

    /// The scopes that some but not all output ports have cancelled, with
    /// the ports that have.
    pub closed spec fn pending(&self) -> Map<Seq<u32>, Set<u64>> {
        by_depth(self.tables())
    }

    pub closed spec fn spec_output_size(&self) -> nat {
        self.output_size as nat
    }

    /// Scopes of depth up to this bound can be merged.
    pub closed spec fn max_depth(&self) -> nat {
        (self.cancel_merge@.len() - 1) as nat
    }

    pub closed spec fn wf(&self) -> bool {
        &&& self.output_size > 1
        &&& self.cancel_merge@.len() == self.scope_level + 1
        &&& forall|d: int| 0 <= d < self.cancel_merge@.len() ==> keys_distinct(#[trigger] cancel_pairs(self.cancel_merge@[d]@))
        &&& forall|d: int, i: int|
            0 <= d < self.cancel_merge@.len() && 0 <= i < self.cancel_merge@[d]@.len() ==> {
                let ps = ports_of(#[trigger] self.cancel_merge@[d]@[i].ports);
                ps.finite() && ps.len() < self.output_size
            }
    }

    /// Every scope pending in the barrier still waits for some output port.
    pub proof fn lemma_pending_incomplete(&self, t: Seq<u32>)
        requires
            self.wf(),
            self.pending().contains_key(t),
        ensures
            self.pending()[t].finite(),
            self.pending()[t].len() < self.spec_output_size(),
    {
        let tbl = self.cancel_merge@[t.len() as int]@;
        assert(self.tables()[t.len() as int] == cancel_pairs(tbl));
        let i = choose|i: int| 0 <= i < cancel_pairs(tbl).len() && cancel_pairs(tbl)[i].0 == t;
        lemma_assoc_at(cancel_pairs(tbl), i);
        assert(ports_of(self.cancel_merge@[t.len() as int]@[i].ports) == cancel_pairs(tbl)[i].1);
    }

    /// The deepest scope depth that can be merged.
    pub fn depth_bound(&self) -> (r: u64)
        requires
            self.wf(),
        ensures
            r == self.max_depth(),
    {
        (self.cancel_merge.len() - 1) as u64
    }

    /// The barrier waits for more than one output port.
    pub proof fn lemma_waits_for_several_outputs(&self)
        requires
            self.wf(),
        ensures
            self.spec_output_size() > 1,
    {
    }

    pub fn new(output_size: usize, scope_level: u32) -> (r: MultiOutputsMerge)
        requires
            output_size > 1,
            scope_level < u32::MAX,
        ensures
            r.wf(),
            r.spec_output_size() == output_size,
            r.max_depth() == scope_level,
            r.pending() == Map::<Seq<u32>, Set<u64>>::empty(),
    {
        let mut cancel_merge: Vec<Vec<CancelEntry>> = Vec::new();
        let mut i: u32 = 0;
        while i < scope_level + 1
            invariant
                scope_level < u32::MAX,
                0 <= i <= scope_level + 1,
                cancel_merge@.len() == i,
                forall|d: int| 0 <= d < i ==> (#[trigger] cancel_merge@[d])@.len() == 0,
            decreases scope_level + 1 - i,
        {
            cancel_merge.push(Vec::new());
            i = i + 1;
        }
        let r = MultiOutputsMerge { output_size, scope_level, cancel_merge };
        assert forall|d: int| 0 <= d < r.cancel_merge@.len() implies r.tables()[d].len() == 0 by {}
        assert(r.pending() =~= Map::<Seq<u32>, Set<u64>>::empty());
        r
    }

    /// Runs a cancellation through the barrier; returns the scope once every
    /// output port has asked to cancel it.
    pub fn merge_cancel(&mut self, n: CancelScope) -> (r: Option<Tag>)
        requires
            old(self).wf(),
            n.tag@.len() <= old(self).max_depth(),
        ensures
            final(self).wf(),
            final(self).spec_output_size() == old(self).spec_output_size(),
            final(self).max_depth() == old(self).max_depth(),
            ({
                let step = cancel_step(old(self).pending(), old(self).spec_output_size(), n.port, n.tag@);
                &&& final(self).pending() == step.0
                &&& match r {
                    None => !step.1,
                    Some(t) => step.1 && t@ == n.tag@,
                }
            }),
    {
        let idx = n.tag.len();
        let ghost t = n.tag@;
        let ghost p = n.port as u64;
        let ghost old_tables = self.tables();
        let ghost old_pending = self.pending();
        let ghost old_merge = self.cancel_merge@;
        let mut tbl: Vec<CancelEntry> = Vec::new();
        std::mem::swap(&mut tbl, &mut self.cancel_merge[idx]);
        let ghost tbl0 = tbl@;
        assert(cancel_pairs(tbl0) == old_tables[idx as int]);
        assert(keys_distinct(cancel_pairs(tbl0)));
        let r = match find_cancel(&tbl, &n.tag) {
            None => {
                let mut ports = PortSet::new();
                ports.insert(n.port as u64);
                tbl.push(CancelEntry { tag: n.tag, ports });
                proof {
                    assert(cancel_pairs(tbl@) =~= cancel_pairs(tbl0).push((t, Set::empty().insert(p))));
                    lemma_assoc_push(cancel_pairs(tbl0), t, Set::empty().insert(p));
                    assert(Set::<u64>::empty().insert(p).len() == 1);
                }
                None
            },
            Some(i) => {
                proof {
                    lemma_assoc_at(cancel_pairs(tbl0), i as int);
                }
                let mut e = tbl.remove(i);
                proof {
                    assert(cancel_pairs(tbl@) =~= cancel_pairs(tbl0).remove(i as int));
                    lemma_assoc_remove(cancel_pairs(tbl0), i as int);
                }
                e.ports.insert(n.port as u64);
                if e.ports.len() == self.output_size {
                    Some(n.tag)
                } else {
                    let ghost ps = ports_of(e.ports);
                    let ghost tbl1 = tbl@;
                    tbl.push(e);
                    proof {
                        assert(cancel_pairs(tbl@) =~= cancel_pairs(tbl1).push((t, ps)));
                        lemma_assoc_push(cancel_pairs(tbl1), t, ps);
                        assert(assoc(cancel_pairs(tbl1)).insert(t, ps) =~= assoc(cancel_pairs(tbl0)).insert(t, ps));
                    }
                    None
                }
            },
        };
        std::mem::swap(&mut tbl, &mut self.cancel_merge[idx]);
        proof {
            assert(self.cancel_merge@ == old_merge.update(idx as int, self.cancel_merge@[idx as int]));
            assert(self.tables() =~= old_tables.update(idx as int, cancel_pairs(self.cancel_merge@[idx as int]@)));
            let nt = cancel_pairs(self.cancel_merge@[idx as int]@);
            if !old_pending.contains_key(t) {
                lemma_by_depth_insert(old_tables, nt, t, Set::empty().insert(p));
            } else {
                let ps = old_pending[t].insert(p);
                if ps.len() == self.output_size as nat {
                    lemma_by_depth_remove(old_tables, nt, t);
                } else {
                    lemma_by_depth_insert(old_tables, nt, t, ps);
                }
            }
        }
        r
    }
}

} // verus!
