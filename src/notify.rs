use vstd::prelude::*;

use crate::merge::{cancel_step, end_step, MultiInputsMerge, MultiOutputsMerge, PendingEnd};
use crate::notification::{CancelScope, EndScope};
use crate::tag::Tag;

verus! {

/// The merge strategy, chosen from the numbers of input and output ports.
pub enum DefaultNotify {
    /// Single input, single output: ends and cancellations pass straight on.
    SISO,
    /// Multiple inputs, single output: ends are merged.
    MISO(MultiInputsMerge),
    /// Single input, multiple outputs: cancellations are merged.
    SIMO(MultiOutputsMerge),
    /// Multiple inputs, multiple outputs: both are merged.
    MIMO(MultiInputsMerge, MultiOutputsMerge),
}

impl DefaultNotify {
    /// Whether ends go through the fan-in barrier.
    pub open spec fn fans_in(&self) -> bool {
        self is MISO || self is MIMO
    }

    /// Whether cancellations go through the fan-out barrier.
    pub open spec fn fans_out(&self) -> bool {
        self is SIMO || self is MIMO
    }

    pub open spec fn end_barrier(&self) -> MultiInputsMerge
        recommends
            self.fans_in(),
    {
        match self {
            DefaultNotify::MISO(m) => *m,
            DefaultNotify::MIMO(m, _) => *m,
            _ => arbitrary(),
        }
    }

    pub open spec fn cancel_barrier(&self) -> MultiOutputsMerge
        recommends
            self.fans_out(),
    {
        match self {
            DefaultNotify::SIMO(m) => *m,
            DefaultNotify::MIMO(_, m) => *m,
            _ => arbitrary(),
        }
    }

    /// The scopes that wait for more input ports to end.
    pub open spec fn pending_ends(&self) -> Map<Seq<u32>, PendingEnd> {
        if self.fans_in() {
            self.end_barrier().pending()
        } else {
            Map::empty()
        }
    }

    /// The scopes that wait for more output ports to cancel.
    pub open spec fn pending_cancels(&self) -> Map<Seq<u32>, Set<u64>> {
        if self.fans_out() {
            self.cancel_barrier().pending()
        } else {
            Map::empty()
        }
    }

    pub open spec fn max_depth(&self) -> nat {
        match self {
            DefaultNotify::SISO => 0,
            DefaultNotify::MISO(m) => m.max_depth(),
            DefaultNotify::SIMO(m) => m.max_depth(),
            DefaultNotify::MIMO(m, _) => m.max_depth(),
        }
    }

    pub open spec fn wf(&self) -> bool {
        &&& self.fans_in() ==> self.end_barrier().wf()
        &&& self.fans_out() ==> self.cancel_barrier().wf()
        &&& self is MIMO ==> self.end_barrier().max_depth() == self.cancel_barrier().max_depth()
    }

    /// Whether scopes of this depth can be handled.
    pub open spec fn depth_ok(&self, d: nat) -> bool {
        (self.fans_in() || self.fans_out()) ==> d <= self.max_depth()
    }

    pub fn new(input_size: usize, output_size: usize, scope_level: u32) -> (r: DefaultNotify)
        requires
            scope_level < u32::MAX,
        ensures
            r.wf(),
            r.fans_in() == (input_size > 1),
            r.fans_out() == (output_size > 1),
            r.fans_in() ==> r.end_barrier().spec_input_size() == input_size,
            r.fans_out() ==> r.cancel_barrier().spec_output_size() == output_size,
            (r.fans_in() || r.fans_out()) ==> r.max_depth() == scope_level,
            r.pending_ends() == Map::<Seq<u32>, PendingEnd>::empty(),
            r.pending_cancels() == Map::<Seq<u32>, Set<u64>>::empty(),
    {
        if input_size > 1 {
            let mim = MultiInputsMerge::new(input_size, scope_level);
            if output_size > 1 {
                let mom = MultiOutputsMerge::new(output_size, scope_level);
                DefaultNotify::MIMO(mim, mom)
            } else {
                DefaultNotify::MISO(mim)
            }
        } else if output_size > 1 {
            let mom = MultiOutputsMerge::new(output_size, scope_level);
            DefaultNotify::SIMO(mom)
        } else {
            DefaultNotify::SISO
        }
    }

    /// Runs an end of scope through the strategy: passed on at once without
    /// the fan-in barrier, else merged by it.
    pub fn merge_end(&mut self, end: EndScope) -> (r: Option<EndScope>)
        requires
            old(self).wf(),
            old(self).depth_ok(end.tag@.len()),
        ensures
            final(self).wf(),
            final(self).fans_in() == old(self).fans_in(),
            final(self).fans_out() == old(self).fans_out(),
            final(self).max_depth() == old(self).max_depth(),
            final(self).pending_cancels() == old(self).pending_cancels(),
            old(self).fans_in() ==> final(self).end_barrier().spec_input_size() == old(
                self,
            ).end_barrier().spec_input_size(),
            old(self).fans_out() ==> final(self).cancel_barrier() == old(self).cancel_barrier(),
            !old(self).fans_in() ==> {
                &&& final(self).pending_ends() == old(self).pending_ends()
                &&& r is Some
                &&& r->0.port == end.port
                &&& r->0.tag@ == end.tag@
                &&& r->0.weight@ == end.weight@
            },
            old(self).fans_in() ==> ({
                let step = end_step(
                    old(self).pending_ends(),
                    old(self).end_barrier().spec_input_size(),
                    end.port,
                    end.tag@,
                    end.weight@,
                );
                &&& final(self).pending_ends() == step.0
                &&& match r {
                    None => step.1 is None,
                    Some(e) => step.1 is Some && e.port == step.1->0.port && e.tag@ == end.tag@ && e.weight@
                        == step.1->0.weight,
                }
            }),
    {
        match self {
            DefaultNotify::SISO => Some(end),
            DefaultNotify::SIMO(_) => Some(end),
            DefaultNotify::MISO(mim) => mim.merge_end(end),
            DefaultNotify::MIMO(mim, _) => mim.merge_end(end),
        }
    }

    /// Runs a cancellation through the strategy: passed on at once without
    /// the fan-out barrier, else merged by it.
    pub fn merge_cancel(&mut self, cancel: CancelScope) -> (r: Option<Tag>)
        requires
            old(self).wf(),
            old(self).depth_ok(cancel.tag@.len()),
        ensures
            final(self).wf(),
            final(self).fans_in() == old(self).fans_in(),
            final(self).fans_out() == old(self).fans_out(),
            final(self).max_depth() == old(self).max_depth(),
            final(self).pending_ends() == old(self).pending_ends(),
            old(self).fans_in() ==> final(self).end_barrier() == old(self).end_barrier(),
            old(self).fans_out() ==> final(self).cancel_barrier().spec_output_size() == old(
                self,
            ).cancel_barrier().spec_output_size(),
            !old(self).fans_out() ==> {
                &&& final(self).pending_cancels() == old(self).pending_cancels()
                &&& r is Some
                &&& r->0@ == cancel.tag@
            },
            old(self).fans_out() ==> ({
                let step = cancel_step(
                    old(self).pending_cancels(),
                    old(self).cancel_barrier().spec_output_size(),
                    cancel.port,
                    cancel.tag@,
                );
                &&& final(self).pending_cancels() == step.0
                &&& match r {
                    None => !step.1,
                    Some(t) => step.1 && t@ == cancel.tag@,
                }
            }),
    {
        match self {
            DefaultNotify::SISO => Some(cancel.tag),
            DefaultNotify::MISO(_) => Some(cancel.tag),
            DefaultNotify::SIMO(mom) => mom.merge_cancel(cancel),
            DefaultNotify::MIMO(_, mom) => mom.merge_cancel(cancel),
        }
    }

    /// The merged weight passed on for an end of `t` from `port` with weight
    /// `w`, if the end passes.
    pub open spec fn end_result(&self, port: usize, t: Seq<u32>, w: Set<u64>) -> Option<Set<u64>> {
        if !self.fans_in() {
            Some(w)
        } else {
            match end_step(self.pending_ends(), self.end_barrier().spec_input_size(), port, t, w).1 {
                Some(m) => Some(m.weight),
                None => None,
            }
        }
    }

    /// The pending ends after an end of `t` from `port` with weight `w`.
    pub open spec fn ends_after(&self, port: usize, t: Seq<u32>, w: Set<u64>) -> Map<Seq<u32>, PendingEnd> {
        if !self.fans_in() {
            self.pending_ends()
        } else {
            end_step(self.pending_ends(), self.end_barrier().spec_input_size(), port, t, w).0
        }
    }

    /// Whether a cancellation of `t` from `port` passes.
    pub open spec fn cancel_passes(&self, port: usize, t: Seq<u32>) -> bool {
        !self.fans_out() || cancel_step(self.pending_cancels(), self.cancel_barrier().spec_output_size(), port, t).1
    }

    /// The pending cancellations after one of `t` from `port`.
    pub open spec fn cancels_after(&self, port: usize, t: Seq<u32>) -> Map<Seq<u32>, Set<u64>> {
        if !self.fans_out() {
            self.pending_cancels()
        } else {
            cancel_step(self.pending_cancels(), self.cancel_barrier().spec_output_size(), port, t).0
        }
    }
}

} // verus!
