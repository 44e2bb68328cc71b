use vstd::prelude::*;

use crate::channel::{cancelled_scope, only_ends_changed, sent_end, Input, Output};
use crate::error::{JobExecError, IO_FAILURE};
use crate::notification::{CancelScope, EndScope, EndSignal};
use crate::notify::DefaultNotify;

verus! {

/// The code of the error raised for a scope deeper than the operator's
/// scope level.
pub const SCOPE_TOO_DEEP: u32 = 1;

/// The computation of an operator: one quantum of work per call.
pub trait OperatorCore {
    fn on_receive(&mut self, inputs: &mut Vec<Input>, outputs: &mut Vec<Output>) -> (r: Result<(), JobExecError>)
        ensures
            final(inputs)@.len() == old(inputs)@.len(),
            final(outputs)@.len() == old(outputs)@.len(),
    ;
}

/// Custom handling of ends and cancellations of scopes.
pub trait Notifiable {
    fn on_notify(&mut self, n: EndScope, outputs: &mut Vec<Output>) -> (r: Result<(), JobExecError>)
        ensures
            final(outputs)@.len() == old(outputs)@.len(),
    ;

    fn on_cancel(&mut self, n: CancelScope, inputs: &mut Vec<Input>) -> (r: Result<(), JobExecError>)
        ensures
            final(inputs)@.len() == old(inputs)@.len(),
    ;
}

/// A computation together with its own handling of ends and cancellations.
pub trait NotifiableOperator: Notifiable + OperatorCore {

}

impl<T: Notifiable + OperatorCore> NotifiableOperator for T {

}

/// A computation as supplied to the builder: plain, or with its own
/// notification handling.
pub enum GeneralOperator<T, N> {
    Simple(T),
    Notifiable(N),
}

/// A plain computation with the default handling of ends and cancellations:
/// they are merged by the strategy for the operator's port counts, and what
/// passes is sent to every output, or to every input.
pub struct DefaultNotifyOperator<T> {
    pub op: T,
    pub notify: DefaultNotify,
}

impl<T: OperatorCore> DefaultNotifyOperator<T> {
    pub open spec fn wf(&self) -> bool {
        self.notify.wf()
    }

    pub fn new(input_size: usize, output_size: usize, scope_level: u32, op: T) -> (r: DefaultNotifyOperator<T>)
        requires
            scope_level < u32::MAX,
        ensures
            r.wf(),
            r.op == op,
            r.notify.fans_in() == (input_size > 1),
            r.notify.fans_out() == (output_size > 1),
            r.notify.fans_in() ==> r.notify.end_barrier().spec_input_size() == input_size,
            r.notify.fans_out() ==> r.notify.cancel_barrier().spec_output_size() == output_size,
            (r.notify.fans_in() || r.notify.fans_out()) ==> r.notify.max_depth() == scope_level,
            r.notify.pending_ends() == Map::<Seq<u32>, crate::merge::PendingEnd>::empty(),
            r.notify.pending_cancels() == Map::<Seq<u32>, Set<u64>>::empty(),
    {
        let notify = DefaultNotify::new(input_size, output_size, scope_level);
        DefaultNotifyOperator { op, notify }
    }

    pub fn on_receive(&mut self, inputs: &mut Vec<Input>, outputs: &mut Vec<Output>) -> (r: Result<(), JobExecError>)
        ensures
            final(self).notify == old(self).notify,
            final(inputs)@.len() == old(inputs)@.len(),
            final(outputs)@.len() == old(outputs)@.len(),
    {
        self.op.on_receive(inputs, outputs)
    }

    /// Runs an end of scope through the strategy and, if it passes, sends its
    /// completion signal to every output in port order. Nothing happens
    /// without outputs. A scope deeper than the scope level is refused.
    #[verifier::loop_isolation(false)]
    pub fn notify_end(&mut self, n: EndScope, outputs: &mut Vec<Output>) -> (r: Result<(), JobExecError>)
        requires
            old(self).wf(),
        ensures
            final(self).wf(),
            final(self).op == old(self).op,
            final(self).notify.fans_in() == old(self).notify.fans_in(),
            final(self).notify.fans_out() == old(self).notify.fans_out(),
            final(self).notify.max_depth() == old(self).notify.max_depth(),
            final(self).notify.pending_cancels() == old(self).notify.pending_cancels(),
            old(self).notify.fans_in() ==> final(self).notify.end_barrier().spec_input_size() == old(
                self,
            ).notify.end_barrier().spec_input_size(),
            old(self).notify.fans_out() ==> final(self).notify.cancel_barrier() == old(self).notify.cancel_barrier(),
            final(outputs)@.len() == old(outputs)@.len(),
            forall|i: int| 0 <= i < old(outputs)@.len() ==> only_ends_changed(#[trigger] old(outputs)@[i], final(outputs)@[i]),
            old(outputs)@.len() == 0 ==> r is Ok && final(self).notify == old(self).notify && final(outputs)@ == old(outputs)@,
            (old(outputs)@.len() > 0 && !old(self).notify.depth_ok(n.tag@.len())) ==> r == Err::<(), JobExecError>(
                JobExecError { code: SCOPE_TOO_DEEP, retryable: false },
            ) && final(self).notify == old(self).notify && final(outputs)@ == old(outputs)@,
            (old(outputs)@.len() > 0 && old(self).notify.depth_ok(n.tag@.len())) ==> {
                &&& final(self).notify.pending_ends() == old(self).notify.ends_after(n.port, n.tag@, n.weight@)
                &&& match old(self).notify.end_result(n.port, n.tag@, n.weight@) {
                    None => r is Ok && final(outputs)@ == old(outputs)@,
                    Some(w) => {
                        &&& (forall|i: int| 0 <= i < old(outputs)@.len() ==> !(#[trigger] old(outputs)@[i]).failed) ==> {
                            &&& r is Ok
                            &&& forall|i: int|
                                0 <= i < old(outputs)@.len() ==> sent_end(
                                    #[trigger] old(outputs)@[i],
                                    final(outputs)@[i],
                                    n.tag@,
                                    w,
                                )
                        }
                        &&& (exists|i: int| 0 <= i < old(outputs)@.len() && (#[trigger] old(outputs)@[i]).failed) ==> r
                            == Err::<(), JobExecError>(JobExecError { code: IO_FAILURE, retryable: false })
                    },
                }
            },
    {
        if outputs.len() == 0 {
            return Ok(());
        }
        let depth = n.tag.len();
        let in_reach = match &self.notify {
            DefaultNotify::SISO => true,
            DefaultNotify::MISO(m) => depth as u64 <= m.depth_bound(),
            DefaultNotify::SIMO(m) => depth as u64 <= m.depth_bound(),
            DefaultNotify::MIMO(m, _) => depth as u64 <= m.depth_bound(),
        };
        if !in_reach {
            return Err(JobExecError { code: SCOPE_TOO_DEEP, retryable: false });
        }
        let ghost port = n.port;
        let ghost t = n.tag@;
        let ghost w = n.weight@;
        match self.notify.merge_end(n) {
            None => {},
            Some(end) => {
                let sig = EndSignal { tag: end.tag, weight: end.weight };
                let ghost before = outputs@;
                let mut i: usize = 0;
                while i < outputs.len()
                    invariant
                        0 <= i <= outputs@.len(),
                        outputs@.len() == before.len(),
                        sig.tag@ == t,
                        forall|k: int| 0 <= k < i ==> sent_end(#[trigger] before[k], outputs@[k], t, sig.weight@),
                        forall|k: int| 0 <= k < i ==> !(#[trigger] before[k]).failed,
                        forall|k: int| i <= k < before.len() ==> #[trigger] outputs@[k] == before[k],
                        forall|k: int| 0 <= k < before.len() ==> only_ends_changed(#[trigger] before[k], outputs@[k]),
                    decreases before.len() - i,
                {
                    if let Err(e) = outputs[i].notify_end(sig.copy()) {
                        assert(before[i as int].failed);
                        return Err(JobExecError::from_io(e));
                    }
                    proof {
                        assert(outputs@[i as int].ends@.take(before[i as int].ends@.len() as int) =~= before[i as int].ends@);
                    }
                    i = i + 1;
                }
            },
        }
        Ok(())
    }

    /// Runs a cancellation through the strategy and, if it passes, cancels the
    /// scope on every input in port order. Nothing happens without inputs. A
    /// scope deeper than the scope level is refused.
    pub fn notify_cancel(&mut self, n: CancelScope, inputs: &mut Vec<Input>) -> (r: Result<(), JobExecError>)
        requires
            old(self).wf(),
        ensures
            final(self).wf(),
            final(self).op == old(self).op,
            final(self).notify.fans_in() == old(self).notify.fans_in(),
            final(self).notify.fans_out() == old(self).notify.fans_out(),
            final(self).notify.max_depth() == old(self).notify.max_depth(),
            final(self).notify.pending_ends() == old(self).notify.pending_ends(),
            old(self).notify.fans_in() ==> final(self).notify.end_barrier() == old(self).notify.end_barrier(),
            old(self).notify.fans_out() ==> final(self).notify.cancel_barrier().spec_output_size() == old(
                self,
            ).notify.cancel_barrier().spec_output_size(),
            final(inputs)@.len() == old(inputs)@.len(),
            r is Err <==> (old(inputs)@.len() > 0 && !old(self).notify.depth_ok(n.tag@.len())),
            r is Err ==> r == Err::<(), JobExecError>(JobExecError { code: SCOPE_TOO_DEEP, retryable: false }),
            (r is Err || old(inputs)@.len() == 0) ==> final(self).notify == old(self).notify && final(inputs)@
                == old(inputs)@,
            (r is Ok && old(inputs)@.len() > 0) ==> {
                &&& final(self).notify.pending_cancels() == old(self).notify.cancels_after(n.port, n.tag@)
                &&& if old(self).notify.cancel_passes(n.port, n.tag@) {
                    forall|i: int|
                        0 <= i < old(inputs)@.len() ==> cancelled_scope(
                            #[trigger] old(inputs)@[i],
                            final(inputs)@[i],
                            n.tag@,
                        )
                } else {
                    final(inputs)@ == old(inputs)@
                }
            },
    {
        if inputs.len() == 0 {
            return Ok(());
        }
        let depth = n.tag.len();
        let in_reach = match &self.notify {
            DefaultNotify::SISO => true,
            DefaultNotify::MISO(m) => depth as u64 <= m.depth_bound(),
            DefaultNotify::SIMO(m) => depth as u64 <= m.depth_bound(),
            DefaultNotify::MIMO(m, _) => depth as u64 <= m.depth_bound(),
        };
        if !in_reach {
            return Err(JobExecError { code: SCOPE_TOO_DEEP, retryable: false });
        }
        let ghost t = n.tag@;
        match self.notify.merge_cancel(n) {
            None => {},
            Some(tag) => {
                let ghost before = inputs@;
                let mut i: usize = 0;
                while i < inputs.len()
                    invariant
                        0 <= i <= inputs@.len(),
                        inputs@.len() == before.len(),
                        tag@ == t,
                        forall|k: int| 0 <= k < i ==> cancelled_scope(#[trigger] before[k], inputs@[k], t),
                        forall|k: int| i <= k < before.len() ==> #[trigger] inputs@[k] == before[k],
                    decreases before.len() - i,
                {
                    inputs[i].cancel_scope(&tag);
                    i = i + 1;
                }
            },
        }
        Ok(())
    }
}

} // verus!
