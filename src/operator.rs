use std::time::{Duration, Instant};
use vstd::prelude::*;

use crate::channel::{cancelled_scope, released, same_but_block_registration, sent_end, EndRecord, Input, Output};
use crate::computation::{
    DefaultNotifyOperator, GeneralOperator, NotifiableOperator, OperatorCore, SCOPE_TOO_DEEP,
};
use crate::error::{IoError, JobExecError, IO_FAILURE};
use crate::notification::{CancelScope, EndScope};
use crate::notify::DefaultNotify;
use crate::merge::{end_step, PendingEnd};
use crate::protocol::end_run;
use crate::tag::Tag;

verus! {

#[verifier::external_type_specification]
#[verifier::external_body]
pub struct ExInstant(Instant);

/// Relies on `Instant::now`: a reading of the monotonic clock.
#[verifier::external_body]
fn clock_now() -> (r: Instant) {
    Instant::now()
}

/// Relies on `Instant::elapsed`: the time since `start`.
#[verifier::external_body]
fn elapsed_since(start: &Instant) -> (r: Duration) {
    start.elapsed()
}

/// Relies on `Duration::as_micros`: the whole microseconds of `d`.
#[verifier::external_body]
fn whole_micros(d: &Duration) -> (r: u128) {
    d.as_micros()
}

/// Identity of an operator in the dataflow graph.
#[derive(Debug)]
pub struct OperatorInfo {
    pub name: String,
    pub index: usize,
    /// The deepest nesting depth of the scopes the operator sees.
    pub scope_level: u32,
}

/// A port of an operator: the operator's index and the port's position.
#[derive(Debug, Clone, Copy, PartialEq, Eq, Structural)]
pub struct Port {
    pub index: usize,
    pub port: usize,
}

/// Measures the busy time of one execution quantum.
pub struct Finally {
    start: Instant,
}

impl Finally {
    pub fn new() -> (r: Finally) {
        Finally { start: clock_now() }
    }

    /// Adds the microseconds since this guard was made to `total`, at most
    /// up to the largest value.
    pub fn account(&self, total: u128) -> (r: u128)
        ensures
            r >= total,
    {
        add_busy(total, whole_micros(&elapsed_since(&self.start)))
    }
}

/// Adds `spent` microseconds of busy time to `total`, saturating at the
/// largest value.
pub fn add_busy(total: u128, spent: u128) -> (r: u128)
    ensures
        r == (if spent <= u128::MAX - total {
            total + spent
        } else {
            u128::MAX as int
        }),
{
    if spent <= u128::MAX - total {
        total + spent
    } else {
        u128::MAX
    }
}

/// The computation that an operator drives.
pub enum OperatorKernel<T, N> {
    /// A plain computation with the default handling of ends and
    /// cancellations.
    Default(DefaultNotifyOperator<T>),
    /// A computation with its own handling.
    Custom(N),
}

/// The schedulable unit: its ports, its computation and its statistics.
pub struct Operator<T, N> {
    pub info: OperatorInfo,
    inputs: Vec<Input>,
    outputs: Vec<Output>,
    core: OperatorKernel<T, N>,
    fire_times: u64,
    exec_micros: u128,
}

/// Every end-of-stream record held by these inputs has a scope depth that
/// the strategy handles.
pub open spec fn ends_in_depth(inputs: Seq<Input>, notify: DefaultNotify) -> bool {
    forall|i: int, k: int|
        0 <= i < inputs.len() && 0 <= k < inputs[i].ends@.len() ==> notify.depth_ok(
            (#[trigger] inputs[i].ends@[k]).tag@.len(),
        )
}

/// The end-of-stream records of `ends`, as they reach the notification
/// handling from input `port`.
pub open spec fn port_ends(port: usize, ends: Seq<EndRecord>) -> Seq<(usize, Seq<u32>, Set<u64>)> {
    ends.map_values(|e: EndRecord| (port, e.tag@, e.weight@))
}

/// The end-of-stream records held by these inputs, in port order and, for
/// each port, oldest first.
pub open spec fn queued_ends(inputs: Seq<Input>) -> Seq<(usize, Seq<u32>, Set<u64>)>
    decreases inputs.len(),
{
    if inputs.len() == 0 {
        Seq::empty()
    } else {
        queued_ends(inputs.drop_last()) + port_ends((inputs.len() - 1) as usize, inputs.last().ends@)
    }
}

/// The completion signals `(scope, weight)` that the strategy `n` passes
/// on for the reports `done`, in order.
pub open spec fn passed(n: DefaultNotify, done: Seq<(usize, Seq<u32>, Set<u64>)>) -> Seq<(Seq<u32>, Set<u64>)> {
    if n.fans_in() {
        end_run(n.pending_ends(), n.end_barrier().spec_input_size(), done).1.map_values(
            |c: (Seq<u32>, PendingEnd)| (c.0, c.1.weight),
        )
    } else {
        done.map_values(|r: (usize, Seq<u32>, Set<u64>)| (r.1, r.2))
    }
}

/// Running the reports `done` through the strategy took it from `before`
/// to `after`, and each output kept its earlier signals and got, after
/// them, the completion signals passed on, in order.
pub open spec fn notified_through(
    before: DefaultNotify,
    after: DefaultNotify,
    outs_before: Seq<Output>,
    outs_after: Seq<Output>,
    done: Seq<(usize, Seq<u32>, Set<u64>)>,
) -> bool {
    &&& before.fans_in() ==> after.pending_ends() == end_run(
        before.pending_ends(),
        before.end_barrier().spec_input_size(),
        done,
    ).0
    &&& forall|o: int|
        0 <= o < outs_after.len() ==> (#[trigger] outs_after[o]).ends@.len() == outs_before[o].ends@.len() + passed(
            before,
            done,
        ).len()
    &&& forall|o: int, j: int|
        0 <= o < outs_after.len() && 0 <= j < outs_before[o].ends@.len() ==> #[trigger] outs_after[o].ends@[j]
            == outs_before[o].ends@[j]
    &&& forall|o: int, j: int|
        0 <= o < outs_after.len() && 0 <= j < passed(before, done).len() ==> {
            let e = #[trigger] outs_after[o].ends@[outs_before[o].ends@.len() + j];
            e.tag@ == passed(before, done)[j].0 && e.weight@ == passed(before, done)[j].1
        }
}

/// What asking the inputs from `i` on for outstanding data gives: the first
/// that reports a failure or has data decides; with none, there is none.
pub open spec fn outstanding_from(inputs: Seq<Input>, i: int) -> Result<bool, IoError>
    decreases inputs.len() - i,
{
    if i < 0 || i >= inputs.len() {
        Ok(false)
    } else if inputs[i].failed {
        Err(IoError::Disconnected)
    } else if inputs[i].buffered@.len() > 0 {
        Ok(true)
    } else {
        outstanding_from(inputs, i + 1)
    }
}

/// No channel behind these outputs has failed.
pub open spec fn none_failed(outputs: Seq<Output>) -> bool {
    forall|o: int| 0 <= o < outputs.len() ==> !(#[trigger] outputs[o]).failed
}

/// How many of these outputs are closed.
pub open spec fn closed_count(outputs: Seq<Output>) -> nat
    decreases outputs.len(),
{
    if outputs.len() == 0 {
        0
    } else {
        closed_count(outputs.drop_last()) + if outputs.last().closed {
            1nat
        } else {
            0nat
        }
    }
}

proof fn lemma_closed_count_bound(outputs: Seq<Output>)
    ensures
        closed_count(outputs) <= outputs.len(),
    decreases outputs.len(),
{
    if outputs.len() > 0 {
        lemma_closed_count_bound(outputs.drop_last());
    }
}

/// Every blocked scope of every output is withheld by every input.
pub open spec fn blocks_registered(outputs: Seq<Output>, n_inputs: nat) -> bool {
    forall|o: int, b: int, i: usize|
        0 <= o < outputs.len() && 0 <= b < outputs[o].blocks@.len() && i < n_inputs ==> #[trigger] outputs[o].blocks@[b].blocked_inputs@.contains(i)
}

impl<T: OperatorCore, N: NotifiableOperator> Operator<T, N> {
    pub closed spec fn spec_info(&self) -> OperatorInfo {
        self.info
    }

    pub closed spec fn spec_inputs(&self) -> Seq<Input> {
        self.inputs@
    }

    pub closed spec fn spec_outputs(&self) -> Seq<Output> {
        self.outputs@
    }

    pub closed spec fn fire_count(&self) -> nat {
        self.fire_times as nat
    }

    pub closed spec fn busy_micros(&self) -> nat {
        self.exec_micros as nat
    }

    /// Whether the computation uses the default handling of ends and
    /// cancellations.
    pub closed spec fn uses_default(&self) -> bool {
        self.core is Default
    }

    /// The merge strategy of the default handling.
    pub closed spec fn notify(&self) -> DefaultNotify {
        match self.core {
            OperatorKernel::Default(d) => d.notify,
            OperatorKernel::Custom(_) => arbitrary(),
        }
    }

    pub closed spec fn wf(&self) -> bool {
        match self.core {
            OperatorKernel::Default(d) => d.wf(),
            OperatorKernel::Custom(_) => true,
        }
    }

    pub fn inputs(&self) -> (r: &Vec<Input>)
        ensures
            r@ == self.spec_inputs(),
    {
        &self.inputs
    }

    pub fn outputs(&self) -> (r: &Vec<Output>)
        ensures
            r@ == self.spec_outputs(),
    {
        &self.outputs
    }

    pub fn fire_times(&self) -> (r: u64)
        ensures
            r == self.fire_count(),
    {
        self.fire_times
    }

    pub fn exec_micros(&self) -> (r: u128)
        ensures
            r == self.busy_micros(),
    {
        self.exec_micros
    }

    /// The channel of input `port` delivers an end-of-stream record.
    pub fn deliver_end(&mut self, port: usize, tag: Tag, weight: crate::tag::Weight)
        requires
            port < old(self).spec_inputs().len(),
        ensures
            final(self).wf() == old(self).wf(),
            final(self).uses_default() == old(self).uses_default(),
            final(self).notify() == old(self).notify(),
            final(self).fire_count() == old(self).fire_count(),
            final(self).busy_micros() == old(self).busy_micros(),
            final(self).spec_outputs() == old(self).spec_outputs(),
            final(self).spec_inputs().len() == old(self).spec_inputs().len(),
            forall|i: int| 0 <= i < old(self).spec_inputs().len() && i != port ==> #[trigger] final(self).spec_inputs()[i] == old(self).spec_inputs()[i],
            final(self).spec_inputs()[port as int].ends@.len() == old(self).spec_inputs()[port as int].ends@.len() + 1,
            final(self).spec_inputs()[port as int].ends@.last().tag@ == tag@,
            final(self).spec_inputs()[port as int].ends@.last().weight@ == weight@,
            final(self).spec_inputs()[port as int].buffered == old(self).spec_inputs()[port as int].buffered,
    {
        self.inputs[port].ends.push(EndRecord { tag, weight });
    }

    /// The channel of input `port` delivers a record.
    pub fn deliver_data(&mut self, port: usize, record: u64)
        requires
            port < old(self).spec_inputs().len(),
        ensures
            final(self).wf() == old(self).wf(),
            final(self).uses_default() == old(self).uses_default(),
            final(self).notify() == old(self).notify(),
            final(self).spec_outputs() == old(self).spec_outputs(),
            final(self).spec_inputs().len() == old(self).spec_inputs().len(),
            forall|i: int| 0 <= i < old(self).spec_inputs().len() && i != port ==> #[trigger] final(self).spec_inputs()[i] == old(self).spec_inputs()[i],
            final(self).spec_inputs()[port as int].buffered@ == old(self).spec_inputs()[port as int].buffered@.push(record),
            final(self).spec_inputs()[port as int].ends == old(self).spec_inputs()[port as int].ends,
            final(self).spec_inputs()[port as int].exhausted == old(self).spec_inputs()[port as int].exhausted,
    {
        self.inputs[port].buffered.push(record);
    }

    /// Every producer upstream of input `port` has finished for good.
    pub fn mark_exhausted(&mut self, port: usize)
        requires
            port < old(self).spec_inputs().len(),
        ensures
            final(self).wf() == old(self).wf(),
            final(self).spec_outputs() == old(self).spec_outputs(),
            final(self).spec_inputs().len() == old(self).spec_inputs().len(),
            forall|i: int| 0 <= i < old(self).spec_inputs().len() && i != port ==> #[trigger] final(self).spec_inputs()[i] == old(self).spec_inputs()[i],
            final(self).spec_inputs()[port as int].exhausted,
            final(self).spec_inputs()[port as int].buffered == old(self).spec_inputs()[port as int].buffered,
    {
        self.inputs[port].exhausted = true;
    }

    /// The channel of input `port` fails.
    pub fn fail_input(&mut self, port: usize)
        requires
            port < old(self).spec_inputs().len(),
        ensures
            final(self).wf() == old(self).wf(),
            final(self).spec_outputs() == old(self).spec_outputs(),
            final(self).spec_inputs().len() == old(self).spec_inputs().len(),
            forall|i: int| 0 <= i < old(self).spec_inputs().len() && i != port ==> #[trigger] final(self).spec_inputs()[i] == old(self).spec_inputs()[i],
            final(self).spec_inputs()[port as int].failed,
    {
        self.inputs[port].failed = true;
    }

    /// The channel of output `port` fails.
    pub fn fail_output(&mut self, port: usize)
        requires
            port < old(self).spec_outputs().len(),
        ensures
            final(self).wf() == old(self).wf(),
            final(self).spec_inputs() == old(self).spec_inputs(),
            final(self).spec_outputs().len() == old(self).spec_outputs().len(),
            forall|o: int| 0 <= o < old(self).spec_outputs().len() && o != port ==> #[trigger] final(self).spec_outputs()[o] == old(self).spec_outputs()[o],
            final(self).spec_outputs()[port as int].failed,
    {
        self.outputs[port].failed = true;
    }

    /// Downstream of output `port` runs out of capacity for `tag`.
    pub fn block_output(&mut self, port: usize, tag: &Tag)
        requires
            port < old(self).spec_outputs().len(),
        ensures
            final(self).wf() == old(self).wf(),
            final(self).spec_inputs() == old(self).spec_inputs(),
            final(self).spec_outputs().len() == old(self).spec_outputs().len(),
            forall|o: int| 0 <= o < old(self).spec_outputs().len() && o != port ==> #[trigger] final(self).spec_outputs()[o] == old(self).spec_outputs()[o],
            final(self).spec_outputs()[port as int].blocks@.len() > 0,
            !final(self).spec_outputs()[port as int].capacity_ready,
    {
        self.outputs[port].block_scope(tag);
    }

    /// Downstream capacity of output `port` recovers, or runs out.
    pub fn set_capacity_ready(&mut self, port: usize, ready: bool)
        requires
            port < old(self).spec_outputs().len(),
        ensures
            final(self).wf() == old(self).wf(),
            final(self).spec_inputs() == old(self).spec_inputs(),
            final(self).spec_outputs().len() == old(self).spec_outputs().len(),
            forall|o: int| 0 <= o < old(self).spec_outputs().len() && o != port ==> #[trigger] final(self).spec_outputs()[o] == old(self).spec_outputs()[o],
            final(self).spec_outputs()[port as int].capacity_ready == ready,
            final(self).spec_outputs()[port as int].blocks == old(self).spec_outputs()[port as int].blocks,
    {
        self.outputs[port].capacity_ready = ready;
    }

    /// Whether some input holds data not yet taken. Inputs are asked in
    /// port order; the first that has data or reports a failure decides.
    pub fn has_outstanding(&self) -> (r: Result<bool, IoError>)
        ensures
            r == outstanding_from(self.spec_inputs(), 0),
    {
        let mut i: usize = 0;
        while i < self.inputs.len()
            invariant
                0 <= i <= self.inputs@.len(),
                outstanding_from(self.inputs@, 0) == outstanding_from(self.inputs@, i as int),
            decreases self.inputs@.len() - i,
        {
            match self.inputs[i].has_outstanding() {
                Err(e) => {
                    return Err(e);
                },
                Ok(true) => {
                    return Ok(true);
                },
                Ok(false) => {},
            }
            i = i + 1;
        }
        Ok(false)
    }

    fn no_blocks(&self) -> (r: bool)
        ensures
            r == forall|o: int| 0 <= o < self.spec_outputs().len() ==> (#[trigger] self.spec_outputs()[o]).blocks@.len() == 0,
    {
        let mut o: usize = 0;
        while o < self.outputs.len()
            invariant
                0 <= o <= self.outputs@.len(),
                forall|k: int| 0 <= k < o ==> (#[trigger] self.outputs@[k]).blocks@.len() == 0,
            decreases self.outputs@.len() - o,
        {
            if self.outputs[o].blocks.len() != 0 {
                assert(self.spec_outputs()[o as int].blocks@.len() != 0);
                return false;
            }
            o = o + 1;
        }
        true
    }

    /// Whether no output has a blocked scope and every input, if any, is
    /// exhausted.
    pub fn is_finished(&self) -> (r: bool)
        ensures
            r == ((forall|o: int| 0 <= o < self.spec_outputs().len() ==> (#[trigger] self.spec_outputs()[o]).blocks@.len() == 0)
                && (self.spec_inputs().len() == 0 || forall|i: int| 0 <= i < self.spec_inputs().len() ==> (#[trigger] self.spec_inputs()[i]).exhausted)),
    {
        if !self.no_blocks() {
            return false;
        }
        let mut i: usize = 0;
        while i < self.inputs.len()
            invariant
                0 <= i <= self.inputs@.len(),
                forall|k: int| 0 <= k < i ==> (#[trigger] self.inputs@[k]).exhausted,
            decreases self.inputs@.len() - i,
        {
            if !self.inputs[i].is_exhaust() {
                assert(!self.spec_inputs()[i as int].exhausted);
                return false;
            }
            i = i + 1;
        }
        true
    }

    /// Whether no output has a blocked scope and no input holds data; an
    /// input's failure met on the way is reported.
    pub fn is_idle(&self) -> (r: Result<bool, IoError>)
        ensures
            (exists|o: int| 0 <= o < self.spec_outputs().len() && (#[trigger] self.spec_outputs()[o]).blocks@.len() > 0) ==> r
                == Ok::<bool, IoError>(false),
            (forall|o: int| 0 <= o < self.spec_outputs().len() ==> (#[trigger] self.spec_outputs()[o]).blocks@.len() == 0) ==> r
                == (match outstanding_from(self.spec_inputs(), 0) {
                Ok(b) => Ok::<bool, IoError>(!b),
                Err(e) => Err(e),
            }),
    {
        if !self.no_blocks() {
            return Ok(false);
        }
        match self.has_outstanding() {
            Ok(b) => Ok(!b),
            Err(e) => Err(e),
        }
    }

    /// Lets every output release the scopes it blocked, where downstream
    /// capacity has recovered.
    fn unblock_outputs(&mut self) -> (r: Result<(), IoError>)
        ensures
            final(self).inputs == old(self).inputs,
            final(self).core == old(self).core,
            final(self).fire_times == old(self).fire_times,
            final(self).exec_micros == old(self).exec_micros,
            final(self).outputs@.len() == old(self).outputs@.len(),
            r is Ok <==> none_failed(old(self).outputs@),
            r is Err ==> r == Err::<(), IoError>(IoError::Disconnected),
            r is Ok ==> forall|o: int| 0 <= o < final(self).outputs@.len() ==> released(old(self).outputs@[o], #[trigger] final(self).outputs@[o]),
    {
        let mut o: usize = 0;
        while o < self.outputs.len()
            invariant
                0 <= o <= self.outputs@.len(),
                self.inputs == old(self).inputs,
                self.core == old(self).core,
                self.fire_times == old(self).fire_times,
                self.exec_micros == old(self).exec_micros,
                self.outputs@.len() == old(self).outputs@.len(),
                forall|k: int| 0 <= k < o ==> released(old(self).outputs@[k], #[trigger] self.outputs@[k]),
                forall|k: int| 0 <= k < o ==> !(#[trigger] old(self).outputs@[k]).failed,
                forall|k: int| o <= k < self.outputs@.len() ==> #[trigger] self.outputs@[k] == old(self).outputs@[k],
            decreases self.outputs@.len() - o,
        {
            let res = self.outputs[o].try_unblock();
            if res.is_err() {
                assert(old(self).outputs@[o as int].failed);
                return res;
            }
            assert(!old(self).outputs@[o as int].failed);
            o = o + 1;
        }
        Ok(())
    }

    /// Asks every input to withhold each scope that some output has blocked.
    fn register_blocks(&mut self)
        ensures
            final(self).inputs == old(self).inputs,
            final(self).core == old(self).core,
            final(self).fire_times == old(self).fire_times,
            final(self).exec_micros == old(self).exec_micros,
            final(self).outputs@.len() == old(self).outputs@.len(),
            blocks_registered(final(self).outputs@, final(self).inputs@.len()),
            forall|o: int| 0 <= o < final(self).outputs@.len() ==> (#[trigger] final(self).outputs@[o]).ends == old(self).outputs@[o].ends,
            forall|o: int| 0 <= o < final(self).outputs@.len() ==> same_but_block_registration(old(self).outputs@[o], #[trigger] final(self).outputs@[o]),
    {
        let n = self.inputs.len();
        let mut o: usize = 0;
        while o < self.outputs.len()
            invariant
                0 <= o <= self.outputs@.len(),
                n == self.inputs@.len(),
                self.inputs == old(self).inputs,
                self.core == old(self).core,
                self.fire_times == old(self).fire_times,
                self.exec_micros == old(self).exec_micros,
                self.outputs@.len() == old(self).outputs@.len(),
                forall|k: int, b: int, x: usize|
                    0 <= k < o && 0 <= b < self.outputs@[k].blocks@.len() && x < n ==> #[trigger] self.outputs@[k].blocks@[b].blocked_inputs@.contains(x),
                forall|k: int| 0 <= k < self.outputs@.len() ==> (#[trigger] self.outputs@[k]).ends == old(self).outputs@[k].ends,
                forall|k: int| 0 <= k < o ==> same_but_block_registration(old(self).outputs@[k], #[trigger] self.outputs@[k]),
                forall|k: int| o <= k < self.outputs@.len() ==> #[trigger] self.outputs@[k] == old(self).outputs@[k],
            decreases self.outputs@.len() - o,
        {
            self.outputs[o].register_blocks(n);
            o = o + 1;
        }
    }

    /// Sends what every output has buffered, stopping at the first output
    /// whose channel has failed.
    fn flush_outputs(&mut self) -> (r: Result<(), IoError>)
        ensures
            final(self).inputs == old(self).inputs,
            final(self).core == old(self).core,
            final(self).fire_times == old(self).fire_times,
            final(self).exec_micros == old(self).exec_micros,
            final(self).outputs@.len() == old(self).outputs@.len(),
            r is Ok <==> none_failed(old(self).outputs@),
            r is Err ==> r == Err::<(), IoError>(IoError::Disconnected),
            r is Ok ==> forall|o: int| 0 <= o < final(self).outputs@.len() ==> (#[trigger] final(self).outputs@[o]).buffer@.len() == 0,
            r is Ok ==> forall|o: int| 0 <= o < final(self).outputs@.len() ==> (#[trigger] final(self).outputs@[o]).sent@ == old(self).outputs@[o].sent@ + old(self).outputs@[o].buffer@,
            forall|o: int| 0 <= o < final(self).outputs@.len() ==> (#[trigger] final(self).outputs@[o]).blocks == old(self).outputs@[o].blocks,
            forall|o: int| 0 <= o < final(self).outputs@.len() ==> (#[trigger] final(self).outputs@[o]).ends == old(self).outputs@[o].ends,
            forall|o: int| 0 <= o < final(self).outputs@.len() ==> (#[trigger] final(self).outputs@[o]).failed == old(self).outputs@[o].failed,
    {
        let mut o: usize = 0;
        while o < self.outputs.len()
            invariant
                0 <= o <= self.outputs@.len(),
                self.inputs == old(self).inputs,
                self.core == old(self).core,
                self.fire_times == old(self).fire_times,
                self.exec_micros == old(self).exec_micros,
                self.outputs@.len() == old(self).outputs@.len(),
                forall|k: int| 0 <= k < o ==> (#[trigger] self.outputs@[k]).buffer@.len() == 0,
                forall|k: int| 0 <= k < o ==> !(#[trigger] old(self).outputs@[k]).failed,
                forall|k: int| 0 <= k < o ==> (#[trigger] self.outputs@[k]).sent@ == old(self).outputs@[k].sent@ + old(self).outputs@[k].buffer@,
                forall|k: int| 0 <= k < self.outputs@.len() ==> (#[trigger] self.outputs@[k]).blocks == old(self).outputs@[k].blocks,
                forall|k: int| 0 <= k < self.outputs@.len() ==> (#[trigger] self.outputs@[k]).ends == old(self).outputs@[k].ends,
                forall|k: int| 0 <= k < self.outputs@.len() ==> (#[trigger] self.outputs@[k]).failed == old(self).outputs@[k].failed,
                forall|k: int| o <= k < self.outputs@.len() ==> #[trigger] self.outputs@[k] == old(self).outputs@[k],
            decreases self.outputs@.len() - o,
        {
            let res = self.outputs[o].flush();
            if res.is_err() {
                assert(old(self).outputs@[o as int].failed);
                return res;
            }
            assert(!old(self).outputs@[o as int].failed);
            o = o + 1;
        }
        Ok(())
    }

    /// Hands every pending end-of-stream record of every input, in port
    /// order, to the notification handling.
    fn drain_ends(&mut self) -> (r: Result<(), JobExecError>)
        requires
            old(self).wf(),
        ensures
            final(self).wf(),
            final(self).core is Default == old(self).core is Default,
            final(self).fire_times == old(self).fire_times,
            final(self).exec_micros == old(self).exec_micros,
            final(self).inputs@.len() == old(self).inputs@.len(),
            final(self).outputs@.len() == old(self).outputs@.len(),
            forall|i: int|
                0 <= i < final(self).inputs@.len() ==> {
                    &&& (#[trigger] final(self).inputs@[i]).buffered == old(self).inputs@[i].buffered
                    &&& final(self).inputs@[i].exhausted == old(self).inputs@[i].exhausted
                    &&& final(self).inputs@[i].cancelled == old(self).inputs@[i].cancelled
                },
            old(self).core is Default ==> forall|o: int|
                0 <= o < final(self).outputs@.len() ==> (#[trigger] final(self).outputs@[o]).blocks == old(
                    self,
                ).outputs@[o].blocks,
            old(self).core is Default ==> forall|o: int|
                0 <= o < final(self).outputs@.len() ==> (#[trigger] final(self).outputs@[o]).buffer == old(self).outputs@[o].buffer
                    && final(self).outputs@[o].sent == old(self).outputs@[o].sent && final(self).outputs@[o].failed
                    == old(self).outputs@[o].failed,
            (old(self).core is Default && r is Err) ==> (r == Err::<(), JobExecError>(JobExecError { code: SCOPE_TOO_DEEP, retryable: false })
                || (r == Err::<(), JobExecError>(JobExecError { code: IO_FAILURE, retryable: false }) && !none_failed(old(self).outputs@))),
            r is Ok ==> forall|i: int| 0 <= i < final(self).inputs@.len() ==> (#[trigger] final(self).inputs@[i]).ends@.len() == 0,
            (old(self).core is Default && ends_in_depth(old(self).inputs@, old(self).notify()) && none_failed(old(self).outputs@)) ==> r is Ok,
            (old(self).core is Default && ends_in_depth(old(self).inputs@, old(self).notify()) && old(self).outputs@.len() > 0
                && none_failed(old(self).outputs@)) ==> notified_through(
                old(self).notify(),
                final(self).notify(),
                old(self).outputs@,
                final(self).outputs@,
                queued_ends(old(self).inputs@),
            ),
    {
        let n = self.inputs.len();
        let mut port: usize = 0;
        let ghost mut done: Seq<(usize, Seq<u32>, Set<u64>)> = Seq::empty();
        let ghost full = old(self).core is Default && ends_in_depth(old(self).inputs@, old(self).notify()) && old(
            self,
        ).outputs@.len() > 0 && none_failed(old(self).outputs@);
        assert(old(self).inputs@.take(0) =~= Seq::<Input>::empty());
        assert(full ==> notified_through(old(self).notify(), self.notify(), old(self).outputs@, self.outputs@, done)) by {
            if full {
                assert(self.outputs@ == old(self).outputs@);
                if old(self).notify().fans_in() {
                    assert(end_run(old(self).notify().pending_ends(), old(self).notify().end_barrier().spec_input_size(), done).1.len() == 0);
                }
            }
        }
        while port < n
            invariant
                0 <= port <= n,
                n == self.inputs@.len(),
                n == old(self).inputs@.len(),
                self.wf(),
                self.core is Default == old(self).core is Default,
                self.fire_times == old(self).fire_times,
                self.exec_micros == old(self).exec_micros,
                self.outputs@.len() == old(self).outputs@.len(),
                forall|i: int|
                    0 <= i < n ==> {
                        &&& (#[trigger] self.inputs@[i]).buffered == old(self).inputs@[i].buffered
                        &&& self.inputs@[i].exhausted == old(self).inputs@[i].exhausted
                        &&& self.inputs@[i].cancelled == old(self).inputs@[i].cancelled
                    },
                forall|i: int| 0 <= i < port ==> (#[trigger] self.inputs@[i]).ends@.len() == 0,
                forall|i: int| port <= i < n ==> (#[trigger] self.inputs@[i]).ends == old(self).inputs@[i].ends,
                old(self).core is Default ==> forall|o: int|
                    0 <= o < self.outputs@.len() ==> (#[trigger] self.outputs@[o]).blocks == old(self).outputs@[o].blocks,
                old(self).core is Default ==> forall|o: int|
                    0 <= o < self.outputs@.len() ==> (#[trigger] self.outputs@[o]).buffer == old(self).outputs@[o].buffer
                        && self.outputs@[o].sent == old(self).outputs@[o].sent && self.outputs@[o].failed
                        == old(self).outputs@[o].failed,
                (old(self).core is Default && ends_in_depth(old(self).inputs@, old(self).notify())) ==> ends_in_depth(
                    self.inputs@,
                    self.notify(),
                ),
                full == (old(self).core is Default && ends_in_depth(old(self).inputs@, old(self).notify()) && old(
                    self,
                ).outputs@.len() > 0 && none_failed(old(self).outputs@)),
                done == queued_ends(old(self).inputs@.take(port as int)),
                full ==> self.notify().fans_in() == old(self).notify().fans_in(),
                full ==> self.notify().max_depth() == old(self).notify().max_depth(),
                full && old(self).notify().fans_in() ==> self.notify().end_barrier().spec_input_size() == old(
                    self,
                ).notify().end_barrier().spec_input_size(),
                full ==> notified_through(old(self).notify(), self.notify(), old(self).outputs@, self.outputs@, done),
            decreases n - port,
        {
            let ghost mut k: int = 0;
            let ghost ends0 = old(self).inputs@[port as int].ends@;
            assert(ends0.take(0) =~= Seq::<EndRecord>::empty());
            assert(port_ends(port, ends0.take(0)) =~= Seq::<(usize, Seq<u32>, Set<u64>)>::empty());
            assert(done + port_ends(port, ends0.take(0)) =~= done);
            assert(self.inputs@[port as int].ends@ =~= ends0.subrange(0, ends0.len() as int));
            loop
                invariant
                    0 <= port < n,
                    n == self.inputs@.len(),
                    n == old(self).inputs@.len(),
                    self.wf(),
                    self.core is Default == old(self).core is Default,
                    self.fire_times == old(self).fire_times,
                    self.exec_micros == old(self).exec_micros,
                    self.outputs@.len() == old(self).outputs@.len(),
                    forall|i: int|
                        0 <= i < n ==> {
                            &&& (#[trigger] self.inputs@[i]).buffered == old(self).inputs@[i].buffered
                            &&& self.inputs@[i].exhausted == old(self).inputs@[i].exhausted
                            &&& self.inputs@[i].cancelled == old(self).inputs@[i].cancelled
                        },
                    forall|i: int| 0 <= i < port ==> (#[trigger] self.inputs@[i]).ends@.len() == 0,
                    forall|i: int| port < i < n ==> (#[trigger] self.inputs@[i]).ends == old(self).inputs@[i].ends,
                    ends0 == old(self).inputs@[port as int].ends@,
                    0 <= k <= ends0.len(),
                    self.inputs@[port as int].ends@ == ends0.subrange(k, ends0.len() as int),
                    old(self).core is Default ==> forall|o: int|
                        0 <= o < self.outputs@.len() ==> (#[trigger] self.outputs@[o]).blocks == old(self).outputs@[o].blocks,
                    old(self).core is Default ==> forall|o: int|
                        0 <= o < self.outputs@.len() ==> (#[trigger] self.outputs@[o]).buffer == old(self).outputs@[o].buffer
                            && self.outputs@[o].sent == old(self).outputs@[o].sent && self.outputs@[o].failed
                            == old(self).outputs@[o].failed,
                    (old(self).core is Default && ends_in_depth(old(self).inputs@, old(self).notify())) ==> ends_in_depth(
                        self.inputs@,
                        self.notify(),
                    ),
                    full == (old(self).core is Default && ends_in_depth(old(self).inputs@, old(self).notify()) && old(
                        self,
                    ).outputs@.len() > 0 && none_failed(old(self).outputs@)),
                    done == queued_ends(old(self).inputs@.take(port as int)) + port_ends(port, ends0.take(k)),
                    full ==> self.notify().fans_in() == old(self).notify().fans_in(),
                    full ==> self.notify().max_depth() == old(self).notify().max_depth(),
                    full && old(self).notify().fans_in() ==> self.notify().end_barrier().spec_input_size() == old(
                        self,
                    ).notify().end_barrier().spec_input_size(),
                    full ==> notified_through(old(self).notify(), self.notify(), old(self).outputs@, self.outputs@, done),
                ensures
                    self.inputs@[port as int].ends@.len() == 0,
                    k == ends0.len(),
                    forall|i: int| port < i < n ==> (#[trigger] self.inputs@[i]).ends == old(self).inputs@[i].ends,
                    done == queued_ends(old(self).inputs@.take(port as int)) + port_ends(port, ends0.take(k)),
                    full ==> self.notify().fans_in() == old(self).notify().fans_in(),
                    full ==> self.notify().max_depth() == old(self).notify().max_depth(),
                    full && old(self).notify().fans_in() ==> self.notify().end_barrier().spec_input_size() == old(
                        self,
                    ).notify().end_barrier().spec_input_size(),
                    full ==> notified_through(old(self).notify(), self.notify(), old(self).outputs@, self.outputs@, done),
                decreases self.inputs@[port as int].ends@.len(),
            {
                let ghost before = self.inputs@;
                let ghost notify_before = self.notify();
                let ghost outs_before = self.outputs@;
                let ghost done_before = done;
                match self.inputs[port].extract_end() {
                    None => {
                        break;
                    },
                    Some(rec) => {
                        proof {
                            assert forall|i: int, j: int|
                                0 <= i < self.inputs@.len() && 0 <= j < self.inputs@[i].ends@.len() implies
                                #[trigger] self.inputs@[i].ends@[j] == before[i].ends@[if i == port { j + 1 } else { j }] by {}
                            assert(rec == ends0[k]);
                            assert(self.inputs@[port as int].ends@ =~= ends0.subrange(k + 1, ends0.len() as int));
                            assert(port_ends(port, ends0.take(k + 1)) =~= port_ends(port, ends0.take(k)).push((port, rec.tag@, rec.weight@)));
                            done = done.push((port, rec.tag@, rec.weight@));
                            k = k + 1;
                        }
                        let end = EndScope { port, tag: rec.tag, weight: rec.weight };
                        let ghost mut deep_only = false;
                        let res = match &mut self.core {
                            OperatorKernel::Default(d) => {
                                let ghost outs0 = self.outputs@;
                                let ghost n0 = d.notify;
                                let ghost (ep, et, ew) = (end.port, end.tag@, end.weight@);
                                let res = d.notify_end(end, &mut self.outputs);
                                proof {
                                    assert forall|o: int| 0 <= o < self.outputs@.len() implies (#[trigger] self.outputs@[o]).blocks
                                        == outs0[o].blocks && self.outputs@[o].buffer == outs0[o].buffer && self.outputs@[o].sent == outs0[o].sent
                                        && self.outputs@[o].failed == outs0[o].failed by {
                                        if res is Ok && outs0.len() > 0 {
                                            match n0.end_result(ep, et, ew) {
                                                Some(w) => {
                                                    assert(sent_end(outs0[o], self.outputs@[o], et, w));
                                                },
                                                None => {},
                                            }
                                        }
                                    }
                                    if full && res is Ok {
                                        let o0 = old(self).notify();
                                        assert(done.drop_last() =~= done_before);
                                        assert(done.last() == (ep, et, ew));
                                        let p_old = passed(o0, done_before);
                                        let p_new = passed(o0, done);
                                        let nn = o0.end_barrier().spec_input_size();
                                        let prev = end_run(o0.pending_ends(), nn, done_before);
                                        match n0.end_result(ep, et, ew) {
                                            Some(w) => {
                                                assert(p_new =~= p_old.push((et, w))) by {
                                                    if o0.fans_in() {
                                                        let st = end_step(prev.0, nn, ep, et, ew);
                                                        assert(end_run(o0.pending_ends(), nn, done).1 == prev.1.push((et, st.1->0)));
                                                    }
                                                }
                                                assert forall|o: int| 0 <= o < self.outputs@.len() implies {
                                                    &&& (#[trigger] self.outputs@[o]).ends@.len() == old(self).outputs@[o].ends@.len() + p_new.len()
                                                    &&& forall|j: int| 0 <= j < outs0[o].ends@.len() ==> self.outputs@[o].ends@[j] == outs0[o].ends@[j]
                                                } by {
                                                    assert(sent_end(outs0[o], self.outputs@[o], et, w));
                                                    assert forall|j: int| 0 <= j < outs0[o].ends@.len() implies self.outputs@[o].ends@[j] == outs0[o].ends@[j] by {
                                                        assert(self.outputs@[o].ends@.take(outs0[o].ends@.len() as int)[j] == self.outputs@[o].ends@[j]);
                                                    }
                                                }
                                                assert forall|o: int, j: int|
                                                    0 <= o < self.outputs@.len() && 0 <= j < p_new.len() implies {
                                                        let e = #[trigger] self.outputs@[o].ends@[old(self).outputs@[o].ends@.len() + j];
                                                        e.tag@ == p_new[j].0 && e.weight@ == p_new[j].1
                                                    } by {
                                                    assert(sent_end(outs0[o], self.outputs@[o], et, w));
                                                    let lo = old(self).outputs@[o].ends@.len();
                                                    if j < p_old.len() {
                                                        assert(outs0[o].ends@[lo + j] == outs_before[o].ends@[lo + j]);
                                                        assert(self.outputs@[o].ends@[lo + j] == outs0[o].ends@[lo + j]);
                                                    } else {
                                                        assert(self.outputs@[o].ends@.last() == self.outputs@[o].ends@[lo + j]);
                                                    }
                                                }
                                            },
                                            None => {
                                                assert(p_new =~= p_old) by {
                                                    let st = end_step(prev.0, nn, ep, et, ew);
                                                    assert(end_run(o0.pending_ends(), nn, done).1 == prev.1);
                                                }
                                            },
                                        }
                                        let ob = old(self).outputs@;
                                        let oa = self.outputs@;
                                        assert(o0.fans_in() ==> self.notify().pending_ends() == end_run(o0.pending_ends(), nn, done).0) by {
                                            if o0.fans_in() {
                                                assert(n0.pending_ends() == prev.0);
                                            }
                                        }
                                        assert(forall|o: int| 0 <= o < oa.len() ==> (#[trigger] oa[o]).ends@.len() == ob[o].ends@.len() + p_new.len());
                                        assert forall|o: int, j: int| 0 <= o < oa.len() && 0 <= j < ob[o].ends@.len() implies #[trigger] oa[o].ends@[j] == ob[o].ends@[j] by {
                                            assert(outs0[o].ends@[j] == ob[o].ends@[j]);
                                            assert(outs0[o].ends@.len() == ob[o].ends@.len() + p_old.len());
                                            match n0.end_result(ep, et, ew) {
                                                Some(w) => {
                                                    assert(sent_end(outs0[o], oa[o], et, w));
                                                    assert(oa[o].ends@.take(outs0[o].ends@.len() as int)[j] == oa[o].ends@[j]);
                                                },
                                                None => {},
                                            }
                                        }
                                    }
                                }
                                proof {
                                    deep_only = res is Err ==> (res == Err::<(), JobExecError>(JobExecError { code: SCOPE_TOO_DEEP, retryable: false })
                                        || (res == Err::<(), JobExecError>(JobExecError { code: IO_FAILURE, retryable: false })
                                        && !none_failed(outs0)));
                                }
                                res
                            },
                            OperatorKernel::Custom(c) => c.on_notify(end, &mut self.outputs),
                        };
                        assert(old(self).core is Default ==> deep_only);
                        proof {
                            if old(self).core is Default && res is Err && !none_failed(outs_before) {
                                let k = choose|k: int| 0 <= k < outs_before.len() && (#[trigger] outs_before[k]).failed;
                                assert(old(self).outputs@[k].failed);
                            }
                        }
                        proof {
                            if old(self).core is Default && ends_in_depth(old(self).inputs@, old(self).notify()) {
                                assert(notify_before.depth_ok(before[port as int].ends@[0].tag@.len()));
                                assert forall|d: nat| notify_before.depth_ok(d) implies self.notify().depth_ok(d) by {}
                            }
                        }
                        if res.is_err() {
                            assert(self.inputs@.len() == n);
                            return res;
                        }
                    },
                }
            }
            proof {
                let pre = old(self).inputs@.take(port as int + 1);
                assert(pre.drop_last() =~= old(self).inputs@.take(port as int));
                assert(pre.last() == old(self).inputs@[port as int]);
                assert(ends0.take(k) =~= ends0);
                assert(queued_ends(pre) == queued_ends(pre.drop_last()) + port_ends(port, pre.last().ends@));
            }
            port = port + 1;
        }
        assert(old(self).inputs@.take(n as int) =~= old(self).inputs@);
        Ok(())
    }

    /// Completes a quantum after the computation returned `received`:
    /// registers blocked scopes with the inputs; stops on a fatal error;
    /// else drains every input's end-of-stream records into the notification
    /// handling, flushes every output, and returns `received`.
    pub fn after_receive(&mut self, received: Result<(), JobExecError>) -> (r: Result<(), JobExecError>)
        requires
            old(self).wf(),
        ensures
            final(self).wf(),
            final(self).uses_default() == old(self).uses_default(),
            final(self).fire_count() == old(self).fire_count(),
            final(self).busy_micros() == old(self).busy_micros(),
            final(self).spec_inputs().len() == old(self).spec_inputs().len(),
            final(self).spec_outputs().len() == old(self).spec_outputs().len(),
            (received is Err && !received->Err_0.retryable) ==> {
                &&& r == received
                &&& final(self).spec_inputs() == old(self).spec_inputs()
                &&& blocks_registered(final(self).spec_outputs(), final(self).spec_inputs().len())
                &&& forall|o: int|
                    0 <= o < final(self).spec_outputs().len() ==> same_but_block_registration(
                        old(self).spec_outputs()[o],
                        #[trigger] final(self).spec_outputs()[o],
                    )
                &&& final(self).notify() == old(self).notify()
            },
            r is Ok ==> received is Ok,
            old(self).uses_default() ==> blocks_registered(final(self).spec_outputs(), final(self).spec_inputs().len()),
            (old(self).uses_default() && r is Err && r != received) ==> (r == Err::<(), JobExecError>(
                JobExecError { code: IO_FAILURE, retryable: false },
            ) || r == Err::<(), JobExecError>(JobExecError { code: SCOPE_TOO_DEEP, retryable: false })),
            (old(self).uses_default() && r == Err::<(), JobExecError>(JobExecError { code: IO_FAILURE, retryable: false })
                && received != r) ==> !none_failed(old(self).spec_outputs()),
            (old(self).uses_default() && (r is Ok || r->Err_0.retryable)) ==> {
                &&& r == received
                &&& forall|i: int| 0 <= i < final(self).spec_inputs().len() ==> (#[trigger] final(self).spec_inputs()[i]).ends@.len() == 0
                &&& forall|o: int| 0 <= o < final(self).spec_outputs().len() ==> (#[trigger] final(self).spec_outputs()[o]).buffer@.len() == 0
                &&& forall|o: int|
                    0 <= o < final(self).spec_outputs().len() ==> (#[trigger] final(self).spec_outputs()[o]).sent@
                        == old(self).spec_outputs()[o].sent@ + old(self).spec_outputs()[o].buffer@
            },
            r is Ok ==> forall|i: int| 0 <= i < final(self).spec_inputs().len() ==> (#[trigger] final(self).spec_inputs()[i]).ends@.len() == 0,
            r is Ok ==> forall|o: int| 0 <= o < final(self).spec_outputs().len() ==> (#[trigger] final(self).spec_outputs()[o]).buffer@.len() == 0,
            ((received is Ok || received->Err_0.retryable) && old(self).uses_default() && ends_in_depth(
                old(self).spec_inputs(),
                old(self).notify(),
            ) && none_failed(old(self).spec_outputs())) ==> {
                &&& r == received
                &&& forall|i: int| 0 <= i < final(self).spec_inputs().len() ==> (#[trigger] final(self).spec_inputs()[i]).ends@.len() == 0
                &&& forall|o: int| 0 <= o < final(self).spec_outputs().len() ==> (#[trigger] final(self).spec_outputs()[o]).buffer@.len() == 0
                &&& blocks_registered(final(self).spec_outputs(), final(self).spec_inputs().len())
            },
            ((received is Ok || received->Err_0.retryable) && old(self).uses_default() && ends_in_depth(
                old(self).spec_inputs(),
                old(self).notify(),
            ) && old(self).spec_outputs().len() > 0 && none_failed(old(self).spec_outputs())) ==> notified_through(
                old(self).notify(),
                final(self).notify(),
                old(self).spec_outputs(),
                final(self).spec_outputs(),
                queued_ends(old(self).spec_inputs()),
            ),
    {
        self.register_blocks();
        let ghost registered = self.outputs@;
        if let Err(e) = received {
            if !e.can_be_retried() {
                return Err(e);
            }
        }
        let ghost before_drain = self.outputs@;
        let drained = self.drain_ends();
        proof {
            if self.core is Default {
                assert forall|o: int, b: int, i: usize|
                    0 <= o < self.outputs@.len() && 0 <= b < self.outputs@[o].blocks@.len() && i < self.inputs@.len() implies
                    #[trigger] self.outputs@[o].blocks@[b].blocked_inputs@.contains(i) by {
                    assert(self.outputs@[o].blocks == before_drain[o].blocks);
                    assert(before_drain[o].blocks@[b].blocked_inputs@.contains(i));
                }
            }
        }
        if let Err(e) = drained {
            return Err(e);
        }
        let ghost before_flush = self.outputs@;
        let ghost drained_outs = self.outputs@;
        let flushed = self.flush_outputs();
        proof {
            if self.core is Default {
                assert forall|o: int, b: int, i: usize|
                    0 <= o < self.outputs@.len() && 0 <= b < self.outputs@[o].blocks@.len() && i < self.inputs@.len() implies
                    #[trigger] self.outputs@[o].blocks@[b].blocked_inputs@.contains(i) by {
                    assert(self.outputs@[o].blocks == before_flush[o].blocks);
                    assert(before_flush[o].blocks@[b].blocked_inputs@.contains(i));
                }
                if flushed is Err {
                    let k = choose|k: int| 0 <= k < drained_outs.len() && (#[trigger] drained_outs[k]).failed;
                    assert(same_but_block_registration(old(self).outputs@[k], registered[k]));
                    assert(!none_failed(old(self).outputs@));
                }
            }
        }
        if let Err(e) = flushed {
            return Err(JobExecError::from_io(e));
        }
        proof {
            if self.core is Default {
                assert forall|o: int| 0 <= o < self.outputs@.len() implies (#[trigger] self.outputs@[o]).sent@
                    == old(self).outputs@[o].sent@ + old(self).outputs@[o].buffer@ by {
                    assert(same_but_block_registration(old(self).outputs@[o], registered[o]));
                    assert(before_flush[o].buffer == registered[o].buffer);
                }
            }
            if (received is Ok || received->Err_0.retryable) && old(self).uses_default() && ends_in_depth(
                old(self).spec_inputs(),
                old(self).notify(),
            ) && old(self).spec_outputs().len() > 0 && none_failed(old(self).spec_outputs()) {
                let done = queued_ends(old(self).inputs@);
                assert forall|o: int| 0 <= o < registered.len() implies !(#[trigger] registered[o]).failed by {
                    assert(same_but_block_registration(old(self).outputs@[o], registered[o]));
                }
                assert(notified_through(old(self).notify(), self.notify(), registered, drained_outs, done));
                assert forall|o: int| 0 <= o < self.outputs@.len() implies (#[trigger] registered[o]).ends == old(self).outputs@[o].ends by {}
                assert forall|o: int| 0 <= o < self.outputs@.len() implies (#[trigger] self.outputs@[o]).ends == drained_outs[o].ends by {}
            }
        }
        received
    }

    /// One execution quantum: outputs release what they can, the computation
    /// runs once, and the quantum is completed as `after_receive` says. The
    /// quantum is counted and its busy time added on every path.
    pub fn fire(&mut self) -> (r: Result<(), JobExecError>)
        requires
            old(self).wf(),
            old(self).fire_count() < u64::MAX,
        ensures
            final(self).wf(),
            final(self).uses_default() == old(self).uses_default(),
            final(self).fire_count() == old(self).fire_count() + 1,
            final(self).busy_micros() >= old(self).busy_micros(),
            final(self).spec_inputs().len() == old(self).spec_inputs().len(),
            final(self).spec_outputs().len() == old(self).spec_outputs().len(),
            r is Ok ==> forall|i: int| 0 <= i < final(self).spec_inputs().len() ==> (#[trigger] final(self).spec_inputs()[i]).ends@.len() == 0,
            r is Ok ==> forall|o: int| 0 <= o < final(self).spec_outputs().len() ==> (#[trigger] final(self).spec_outputs()[o]).buffer@.len() == 0,
            !none_failed(old(self).spec_outputs()) ==> r == Err::<(), JobExecError>(
                JobExecError { code: IO_FAILURE, retryable: false },
            ) && final(self).spec_inputs() == old(self).spec_inputs() && final(self).notify() == old(self).notify(),
            (old(self).uses_default() && none_failed(old(self).spec_outputs())) ==> blocks_registered(
                final(self).spec_outputs(),
                final(self).spec_inputs().len(),
            ),
            (old(self).uses_default() && (r is Ok || r->Err_0.retryable)) ==> {
                &&& forall|i: int| 0 <= i < final(self).spec_inputs().len() ==> (#[trigger] final(self).spec_inputs()[i]).ends@.len() == 0
                &&& forall|o: int| 0 <= o < final(self).spec_outputs().len() ==> (#[trigger] final(self).spec_outputs()[o]).buffer@.len() == 0
            },
    {
        let guard = Finally::new();
        self.fire_times = self.fire_times + 1;
        let r = match self.unblock_outputs() {
            Err(e) => Err(JobExecError::from_io(e)),
            Ok(()) => {
                let received = match &mut self.core {
                    OperatorKernel::Default(d) => d.on_receive(&mut self.inputs, &mut self.outputs),
                    OperatorKernel::Custom(c) => c.on_receive(&mut self.inputs, &mut self.outputs),
                };
                self.after_receive(received)
            },
        };
        self.exec_micros = guard.account(self.exec_micros);
        r
    }

    /// The consumer of output `port` no longer needs `tag`: the output stops
    /// sending it, and the cancellation goes through the notification
    /// handling, which may cancel the scope on every input.
    pub fn cancel(&mut self, port: usize, tag: Tag) -> (r: Result<(), JobExecError>)
        requires
            old(self).wf(),
            port < old(self).spec_outputs().len(),
        ensures
            final(self).wf(),
            final(self).uses_default() == old(self).uses_default(),
            final(self).fire_count() == old(self).fire_count(),
            final(self).busy_micros() == old(self).busy_micros(),
            final(self).spec_inputs().len() == old(self).spec_inputs().len(),
            final(self).spec_outputs().len() == old(self).spec_outputs().len(),
            forall|o: int|
                0 <= o < old(self).spec_outputs().len() && o != port ==> #[trigger] final(self).spec_outputs()[o]
                    == old(self).spec_outputs()[o],
            final(self).spec_outputs()[port as int].failed == old(self).spec_outputs()[port as int].failed,
            old(self).spec_outputs()[port as int].failed ==> {
                &&& r == Err::<(), JobExecError>(JobExecError { code: IO_FAILURE, retryable: false })
                &&& final(self).spec_outputs() == old(self).spec_outputs()
                &&& final(self).spec_inputs() == old(self).spec_inputs()
                &&& final(self).notify() == old(self).notify()
            },
            !old(self).spec_outputs()[port as int].failed ==> ({
                let (before, after) = (old(self).spec_outputs()[port as int], final(self).spec_outputs()[port as int]);
                &&& crate::channel::tags_of(before.cancelled@).contains(tag@) ==> after.cancelled == before.cancelled
                &&& !crate::channel::tags_of(before.cancelled@).contains(tag@) ==> crate::channel::tags_of(after.cancelled@)
                    == crate::channel::tags_of(before.cancelled@).push(tag@)
                &&& after.buffer == before.buffer
                &&& after.sent == before.sent
                &&& after.ends == before.ends
                &&& after.blocks == before.blocks
                &&& after.closed == before.closed
            }),
            old(self).uses_default() ==> {
                &&& final(self).notify().pending_ends() == old(self).notify().pending_ends()
                &&& final(self).notify().fans_in() == old(self).notify().fans_in()
                &&& final(self).notify().fans_out() == old(self).notify().fans_out()
                &&& final(self).notify().max_depth() == old(self).notify().max_depth()
                &&& old(self).notify().fans_in() ==> final(self).notify().end_barrier() == old(self).notify().end_barrier()
                &&& old(self).notify().fans_out() ==> final(self).notify().cancel_barrier().spec_output_size()
                    == old(self).notify().cancel_barrier().spec_output_size()
            },
            (old(self).uses_default() && !old(self).spec_outputs()[port as int].failed) ==> {
                &&& r is Err <==> (old(self).spec_inputs().len() > 0 && !old(self).notify().depth_ok(tag@.len()))
                &&& r is Err ==> r == Err::<(), JobExecError>(JobExecError { code: SCOPE_TOO_DEEP, retryable: false })
                &&& (r is Err || old(self).spec_inputs().len() == 0) ==> final(self).notify() == old(self).notify()
                    && final(self).spec_inputs() == old(self).spec_inputs()
                &&& (r is Ok && old(self).spec_inputs().len() > 0) ==> {
                    &&& final(self).notify().pending_cancels() == old(self).notify().cancels_after(port, tag@)
                    &&& if old(self).notify().cancel_passes(port, tag@) {
                        forall|i: int|
                            0 <= i < old(self).spec_inputs().len() ==> cancelled_scope(
                                #[trigger] old(self).spec_inputs()[i],
                                final(self).spec_inputs()[i],
                                tag@,
                            )
                    } else {
                        final(self).spec_inputs() == old(self).spec_inputs()
                    }
                }
            },
    {
        if let Err(e) = self.outputs[port].cancel(&tag) {
            proof {
                assert(self.outputs@ =~= old(self).outputs@);
            }
            return Err(JobExecError::from_io(e));
        }
        let cancel = CancelScope { port, tag };
        match &mut self.core {
            OperatorKernel::Default(d) => d.notify_cancel(cancel, &mut self.inputs),
            OperatorKernel::Custom(c) => c.on_cancel(cancel, &mut self.inputs),
        }
    }

    /// Closes every output. A failure to close one is not passed on: the
    /// operator is discarded regardless. Returns how many outputs failed,
    /// which are those closed before.
    pub fn close(&mut self) -> (r: usize)
        ensures
            final(self).spec_inputs() == old(self).spec_inputs(),
            final(self).fire_count() == old(self).fire_count(),
            final(self).busy_micros() == old(self).busy_micros(),
            final(self).wf() == old(self).wf(),
            final(self).uses_default() == old(self).uses_default(),
            final(self).notify() == old(self).notify(),
            final(self).spec_outputs().len() == old(self).spec_outputs().len(),
            forall|o: int| 0 <= o < final(self).spec_outputs().len() ==> (#[trigger] final(self).spec_outputs()[o]).closed,
            r == closed_count(old(self).spec_outputs()),
    {
        let mut failures: usize = 0;
        let mut o: usize = 0;
        while o < self.outputs.len()
            invariant
                0 <= o <= self.outputs@.len(),
                failures == closed_count(old(self).outputs@.take(o as int)),
                forall|k: int| o <= k < self.outputs@.len() ==> #[trigger] self.outputs@[k] == old(self).outputs@[k],
                self.inputs == old(self).inputs,
                self.core == old(self).core,
                self.fire_times == old(self).fire_times,
                self.exec_micros == old(self).exec_micros,
                self.outputs@.len() == old(self).outputs@.len(),
                forall|k: int| 0 <= k < o ==> (#[trigger] self.outputs@[k]).closed,
            decreases self.outputs@.len() - o,
        {
            proof {
                let pre = old(self).outputs@.take(o as int + 1);
                assert(pre.drop_last() =~= old(self).outputs@.take(o as int));
                assert(pre.last() == old(self).outputs@[o as int]);
                assert(closed_count(pre.drop_last()) <= o) by {
                    lemma_closed_count_bound(pre.drop_last());
                }
            }
            if self.outputs[o].close().is_err() {
                failures = failures + 1;
            }
            o = o + 1;
        }
        assert(old(self).outputs@.take(o as int) =~= old(self).outputs@);
        failures
    }
}

/// The declaration of an output port, before the operator is built.
#[derive(Debug, Clone, Copy)]
pub struct OutputDecl {
    pub port: Port,
    pub batch_size: usize,
    pub scope_capacity: u32,
    pub batch_capacity: u32,
}

/// Collects the ports of an operator before the graph is finalized.
pub struct OperatorBuilder<T, N> {
    pub info: OperatorInfo,
    inputs: Vec<Input>,
    /// For each input, the upstream port to tell of the input's ends, if any.
    inputs_notify: Vec<Option<Port>>,
    outputs: Vec<OutputDecl>,
    core: GeneralOperator<T, N>,
}

impl<T: OperatorCore, N: NotifiableOperator> OperatorBuilder<T, N> {
    pub closed spec fn spec_info(&self) -> OperatorInfo {
        self.info
    }

    pub closed spec fn input_count(&self) -> nat {
        self.inputs@.len()
    }

    pub closed spec fn output_count(&self) -> nat {
        self.outputs@.len()
    }

    pub closed spec fn spec_inputs(&self) -> Seq<Input> {
        self.inputs@
    }

    pub closed spec fn spec_outputs(&self) -> Seq<OutputDecl> {
        self.outputs@
    }

    pub closed spec fn is_simple(&self) -> bool {
        self.core is Simple
    }

    pub closed spec fn spec_inputs_notify(&self) -> Seq<Option<Port>> {
        self.inputs_notify@
    }

    /// The port counts are the lengths of the declared port lists.
    pub proof fn lemma_counts(&self)
        ensures
            self.input_count() == self.spec_inputs().len(),
            self.output_count() == self.spec_outputs().len(),
    {
    }

    pub fn new(meta: OperatorInfo, core: GeneralOperator<T, N>) -> (r: OperatorBuilder<T, N>)
        ensures
            r.spec_info() == meta,
            r.input_count() == 0,
            r.output_count() == 0,
            r.is_simple() == core is Simple,
            r.spec_inputs_notify().len() == 0,
    {
        OperatorBuilder { info: meta, inputs: Vec::new(), inputs_notify: Vec::new(), outputs: Vec::new(), core }
    }

    pub fn index(&self) -> (r: usize)
        ensures
            r == self.spec_info().index,
    {
        self.info.index
    }

    /// Binds `input` to the next input port, which must be `port`, with the
    /// upstream port to tell of its ends, if any.
    pub fn add_input(&mut self, port: usize, input: Input, notify: Option<Port>)
        requires
            port == old(self).input_count(),
        ensures
            final(self).spec_info() == old(self).spec_info(),
            final(self).is_simple() == old(self).is_simple(),
            final(self).spec_inputs() == old(self).spec_inputs().push(input),
            final(self).spec_inputs_notify() == old(self).spec_inputs_notify().push(notify),
            final(self).spec_outputs() == old(self).spec_outputs(),
    {
        self.inputs.push(input);
        self.inputs_notify.push(notify);
    }

    /// Hands out the end-notification ports of the inputs, leaving none.
    pub fn take_inputs_notify(&mut self) -> (r: Vec<Option<Port>>)
        ensures
            r@ == old(self).spec_inputs_notify(),
            final(self).spec_inputs_notify().len() == 0,
            final(self).spec_info() == old(self).spec_info(),
            final(self).is_simple() == old(self).is_simple(),
            final(self).spec_inputs() == old(self).spec_inputs(),
            final(self).spec_outputs() == old(self).spec_outputs(),
    {
        let mut taken: Vec<Option<Port>> = Vec::new();
        std::mem::swap(&mut taken, &mut self.inputs_notify);
        taken
    }

    /// The port that the next input will be bound to.
    pub fn next_input_port(&self) -> (r: Port)
        ensures
            r.index == self.spec_info().index,
            r.port == self.input_count(),
    {
        Port { index: self.info.index, port: self.inputs.len() }
    }

    /// Declares the next output port.
    pub fn new_output_port(&mut self, batch_size: usize, scope_capacity: u32, batch_capacity: u32) -> (r: OutputDecl)
        ensures
            final(self).spec_info() == old(self).spec_info(),
            final(self).is_simple() == old(self).is_simple(),
            final(self).spec_inputs() == old(self).spec_inputs(),
            final(self).spec_inputs_notify() == old(self).spec_inputs_notify(),
            final(self).spec_outputs() == old(self).spec_outputs().push(r),
            r.port == (Port { index: old(self).spec_info().index, port: old(self).output_count() as usize }),
            r.batch_size == batch_size,
            r.scope_capacity == scope_capacity,
            r.batch_capacity == batch_capacity,
    {
        let port = Port { index: self.info.index, port: self.outputs.len() };
        let decl = OutputDecl { port, batch_size, scope_capacity, batch_capacity };
        self.outputs.push(decl);
        decl
    }

    /// Assembles the operator: outputs are made from their declarations, and
    /// a plain computation gets the default handling of ends and
    /// cancellations for these port counts.
    pub fn build(self) -> (r: Operator<T, N>)
        requires
            self.spec_info().scope_level < u32::MAX,
        ensures
            r.wf(),
            r.spec_info() == self.spec_info(),
            r.spec_inputs() == self.spec_inputs(),
            r.spec_outputs().len() == self.output_count(),
            forall|o: int|
                0 <= o < r.spec_outputs().len() ==> {
                    let out = #[trigger] r.spec_outputs()[o];
                    &&& out.batch_size == self.spec_outputs()[o].batch_size
                    &&& out.buffer@.len() == 0
                    &&& out.sent@.len() == 0
                    &&& out.ends@.len() == 0
                    &&& out.cancelled@.len() == 0
                    &&& out.blocks@.len() == 0
                    &&& !out.closed
                },
            r.fire_count() == 0,
            r.busy_micros() == 0,
            r.uses_default() == self.is_simple(),
            r.uses_default() ==> {
                &&& r.notify().fans_in() == (self.input_count() > 1)
                &&& r.notify().fans_out() == (self.output_count() > 1)
                &&& r.notify().fans_in() ==> r.notify().end_barrier().spec_input_size() == self.input_count()
                &&& r.notify().fans_out() ==> r.notify().cancel_barrier().spec_output_size() == self.output_count()
                &&& (r.notify().fans_in() || r.notify().fans_out()) ==> r.notify().max_depth() == self.spec_info().scope_level
                &&& r.notify().pending_ends() == Map::<Seq<u32>, crate::merge::PendingEnd>::empty()
                &&& r.notify().pending_cancels() == Map::<Seq<u32>, Set<u64>>::empty()
            },
    {
        let mut outputs: Vec<Output> = Vec::new();
        let mut o: usize = 0;
        while o < self.outputs.len()
            invariant
                0 <= o <= self.outputs@.len(),
                outputs@.len() == o,
                forall|k: int|
                    0 <= k < o ==> {
                        let out = #[trigger] outputs@[k];
                        &&& out.batch_size == self.outputs@[k].batch_size
                        &&& out.buffer@.len() == 0
                        &&& out.sent@.len() == 0
                        &&& out.ends@.len() == 0
                        &&& out.cancelled@.len() == 0
                        &&& out.blocks@.len() == 0
                        &&& !out.closed
                    },
            decreases self.outputs@.len() - o,
        {
            outputs.push(Output::new(self.outputs[o].batch_size));
            o = o + 1;
        }
        let core = match self.core {
            GeneralOperator::Simple(op) => {
                let d = DefaultNotifyOperator::new(self.inputs.len(), outputs.len(), self.info.scope_level, op);
                OperatorKernel::Default(d)
            },
            GeneralOperator::Notifiable(op) => OperatorKernel::Custom(op),
        };
        Operator { info: self.info, inputs: self.inputs, outputs, core, fire_times: 0, exec_micros: 0 }
    }
}

} // verus!
