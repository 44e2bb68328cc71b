use pegasus_operator::channel::{Input, Output};
use pegasus_operator::computation::{
    GeneralOperator, Notifiable, OperatorCore, SCOPE_TOO_DEEP,
};
use pegasus_operator::error::{IoError, JobExecError, IO_FAILURE};
use pegasus_operator::notification::{CancelScope, EndScope};
use pegasus_operator::operator::{Finally, Operator, OperatorBuilder, OperatorInfo, Port};
use pegasus_operator::tag::{Tag, Weight};

/// A computation that writes its script of records to output 0 and then
/// returns the next scripted result.
struct Scripted {
    writes: Vec<u64>,
    results: Vec<Result<(), JobExecError>>,
}

impl OperatorCore for Scripted {
    fn on_receive(&mut self, inputs: &mut Vec<Input>, outputs: &mut Vec<Output>) -> Result<(), JobExecError> {
        for i in 0..inputs.len() {
            while inputs[i].pull().is_some() {}
        }
        if !outputs.is_empty() {
            for w in self.writes.drain(..) {
                outputs[0].give(w);
            }
        }
        if self.results.is_empty() {
            Ok(())
        } else {
            self.results.remove(0)
        }
    }
}

/// A computation whose output channel fails while it runs.
struct Breaking;

impl OperatorCore for Breaking {
    fn on_receive(&mut self, _inputs: &mut Vec<Input>, outputs: &mut Vec<Output>) -> Result<(), JobExecError> {
        outputs[0].give(3);
        outputs[0].failed = true;
        Err(JobExecError::new(5, true))
    }
}

/// A computation with its own notification handling: it records what it saw.
struct Recording {
    ends: Vec<(usize, Vec<u32>)>,
    cancels: Vec<(usize, Vec<u32>)>,
}

impl OperatorCore for Recording {
    fn on_receive(&mut self, _inputs: &mut Vec<Input>, _outputs: &mut Vec<Output>) -> Result<(), JobExecError> {
        Ok(())
    }
}

impl Notifiable for Recording {
    fn on_notify(&mut self, n: EndScope, _outputs: &mut Vec<Output>) -> Result<(), JobExecError> {
        self.ends.push((n.port, n.tag.indices.clone()));
        Ok(())
    }

    fn on_cancel(&mut self, n: CancelScope, _inputs: &mut Vec<Input>) -> Result<(), JobExecError> {
        self.cancels.push((n.port, n.tag.indices.clone()));
        Ok(())
    }
}


fn info(scope_level: u32) -> OperatorInfo {
    OperatorInfo { name: "op".to_string(), index: 7, scope_level }
}

fn tag(v: &[u32]) -> Tag {
    Tag::new(v.to_vec())
}

fn weight(ids: &[u64]) -> Weight {
    Weight { contributors: ids.to_vec() }
}

fn plain(n_inputs: usize, n_outputs: usize, core: Scripted) -> Operator<Scripted, Recording> {
    let mut b: OperatorBuilder<Scripted, Recording> = OperatorBuilder::new(info(2), GeneralOperator::Simple(core));
    for i in 0..n_inputs {
        b.add_input(i, Input::new(), None);
    }
    for _ in 0..n_outputs {
        b.new_output_port(4, 16, 16);
    }
    b.build()
}

fn idle_core() -> Scripted {
    Scripted { writes: vec![], results: vec![] }
}

fn weight_ids(w: &Weight) -> Vec<u64> {
    let mut v = w.contributors.clone();
    v.sort();
    v.dedup();
    v
}

#[test]
fn two_inputs_one_output_merges_end_once() {
    let mut op = plain(2, 1, idle_core());
    let t = tag(&[3]);
    op.deliver_end(0, t.copy(), weight(&[1]));
    assert_eq!(op.fire(), Ok(()));
    assert!(op.outputs()[0].ends.is_empty());
    op.deliver_end(1, t.copy(), weight(&[2]));
    assert_eq!(op.fire(), Ok(()));
    let ends = &op.outputs()[0].ends;
    assert_eq!(ends.len(), 1);
    assert_eq!(ends[0].tag.indices, vec![3]);
    assert_eq!(weight_ids(&ends[0].weight), vec![1, 2]);
    assert_eq!(op.fire(), Ok(()));
    assert_eq!(op.outputs()[0].ends.len(), 1);
}

#[test]
fn two_inputs_both_ends_in_one_fire() {
    let mut op = plain(2, 1, idle_core());
    op.deliver_end(1, tag(&[0, 4]), weight(&[9]));
    op.deliver_end(0, tag(&[0, 4]), weight(&[5]));
    assert_eq!(op.fire(), Ok(()));
    let ends = &op.outputs()[0].ends;
    assert_eq!(ends.len(), 1);
    assert_eq!(weight_ids(&ends[0].weight), vec![5, 9]);
}

#[test]
fn duplicate_end_from_one_port_is_not_counted() {
    let mut op = plain(2, 1, idle_core());
    op.deliver_end(0, tag(&[1]), weight(&[1]));
    op.deliver_end(0, tag(&[1]), weight(&[1]));
    assert_eq!(op.fire(), Ok(()));
    assert!(op.outputs()[0].ends.is_empty());
    op.deliver_end(1, tag(&[1]), weight(&[2]));
    assert_eq!(op.fire(), Ok(()));
    assert_eq!(op.outputs()[0].ends.len(), 1);
}

#[test]
fn end_is_broadcast_to_every_output() {
    let mut op = plain(2, 3, idle_core());
    op.deliver_end(0, tag(&[2]), weight(&[1]));
    op.deliver_end(1, tag(&[2]), weight(&[2]));
    assert_eq!(op.fire(), Ok(()));
    for o in 0..3 {
        assert_eq!(op.outputs()[o].ends.len(), 1);
        assert_eq!(op.outputs()[o].ends[0].tag.indices, vec![2]);
        assert_eq!(weight_ids(&op.outputs()[o].ends[0].weight), vec![1, 2]);
    }
}

#[test]
fn cancel_reaches_input_after_every_output() {
    let mut op = plain(1, 2, idle_core());
    let t = tag(&[5]);
    assert_eq!(op.cancel(0, t.copy()), Ok(()));
    assert!(op.inputs()[0].cancelled.is_empty());
    assert_eq!(op.outputs()[0].cancelled.len(), 1);
    assert_eq!(op.cancel(1, t.copy()), Ok(()));
    assert_eq!(op.inputs()[0].cancelled.len(), 1);
    assert_eq!(op.inputs()[0].cancelled[0].indices, vec![5]);
}

#[test]
fn cancel_from_one_output_alone_never_reaches_input() {
    let mut op = plain(1, 2, idle_core());
    assert_eq!(op.cancel(0, tag(&[5])), Ok(()));
    assert_eq!(op.fire(), Ok(()));
    assert!(op.inputs()[0].cancelled.is_empty());
}

#[test]
fn cancel_twice_from_same_port_counts_once() {
    let mut op = plain(1, 3, idle_core());
    let t = tag(&[8]);
    assert_eq!(op.cancel(0, t.copy()), Ok(()));
    assert_eq!(op.cancel(0, t.copy()), Ok(()));
    assert_eq!(op.outputs()[0].cancelled.len(), 1);
    assert_eq!(op.cancel(1, t.copy()), Ok(()));
    assert!(op.inputs()[0].cancelled.is_empty());
    assert_eq!(op.cancel(2, t.copy()), Ok(()));
    assert_eq!(op.inputs()[0].cancelled.len(), 1);
}

#[test]
fn cancel_goes_to_every_input_in_fan_out() {
    let mut op = plain(3, 2, idle_core());
    assert_eq!(op.cancel(1, tag(&[1, 1])), Ok(()));
    assert_eq!(op.cancel(0, tag(&[1, 1])), Ok(()));
    for i in 0..3 {
        assert_eq!(op.inputs()[i].cancelled.len(), 1);
    }
}

#[test]
fn single_input_single_output_passes_through() {
    let mut op = plain(1, 1, idle_core());
    op.deliver_end(0, tag(&[4]), weight(&[6]));
    assert_eq!(op.fire(), Ok(()));
    assert_eq!(op.outputs()[0].ends.len(), 1);
    assert_eq!(weight_ids(&op.outputs()[0].ends[0].weight), vec![6]);
    assert_eq!(op.cancel(0, tag(&[4])), Ok(()));
    assert_eq!(op.inputs()[0].cancelled.len(), 1);
}

#[test]
fn multi_input_single_output_passes_cancel_through() {
    let mut op = plain(2, 1, idle_core());
    assert_eq!(op.cancel(0, tag(&[4])), Ok(()));
    assert_eq!(op.inputs()[0].cancelled.len(), 1);
    assert_eq!(op.inputs()[1].cancelled.len(), 1);
}

#[test]
fn single_input_multi_output_passes_end_through() {
    let mut op = plain(1, 2, idle_core());
    op.deliver_end(0, tag(&[4]), weight(&[1]));
    assert_eq!(op.fire(), Ok(()));
    assert_eq!(op.outputs()[0].ends.len(), 1);
    assert_eq!(op.outputs()[1].ends.len(), 1);
}

#[test]
fn is_finished_without_inputs() {
    let op = plain(0, 1, idle_core());
    assert!(op.is_finished());
}

#[test]
fn is_finished_waits_for_exhausted_inputs() {
    let mut op = plain(2, 1, idle_core());
    assert!(!op.is_finished());
    op.mark_exhausted(0);
    assert!(!op.is_finished());
    op.mark_exhausted(1);
    assert!(op.is_finished());
}

#[test]
fn is_finished_false_while_output_blocked() {
    let mut op = plain(1, 1, idle_core());
    op.mark_exhausted(0);
    op.block_output(0, &tag(&[1]));
    assert!(!op.is_finished());
    assert_eq!(op.is_idle(), Ok(false));
    op.set_capacity_ready(0, true);
    assert_eq!(op.fire(), Ok(()));
    assert!(op.is_finished());
}

#[test]
fn idle_and_outstanding() {
    let mut op = plain(2, 1, idle_core());
    assert_eq!(op.is_idle(), Ok(true));
    assert_eq!(op.has_outstanding(), Ok(false));
    op.deliver_data(1, 42);
    assert_eq!(op.has_outstanding(), Ok(true));
    assert_eq!(op.is_idle(), Ok(false));
    assert_eq!(op.fire(), Ok(()));
    assert_eq!(op.is_idle(), Ok(true));
}

#[test]
fn retryable_error_still_drains_and_flushes() {
    let err = JobExecError::new(11, true);
    let core = Scripted { writes: vec![1, 2], results: vec![Err(err)] };
    let mut op = plain(2, 1, core);
    op.deliver_end(0, tag(&[1]), weight(&[1]));
    op.deliver_end(1, tag(&[1]), weight(&[2]));
    assert_eq!(op.fire(), Err(err));
    assert!(op.inputs()[0].ends.is_empty());
    assert!(op.inputs()[1].ends.is_empty());
    assert!(op.outputs()[0].buffer.is_empty());
    assert_eq!(op.outputs()[0].sent, vec![1, 2]);
    assert_eq!(op.outputs()[0].ends.len(), 1);
}

#[test]
fn fatal_error_stops_the_quantum() {
    let err = JobExecError::new(12, false);
    let core = Scripted { writes: vec![1, 2], results: vec![Err(err)] };
    let mut op = plain(1, 1, core);
    op.deliver_end(0, tag(&[1]), weight(&[1]));
    assert_eq!(op.fire(), Err(err));
    assert_eq!(op.inputs()[0].ends.len(), 1);
    assert_eq!(op.outputs()[0].buffer, vec![1, 2]);
    assert!(op.outputs()[0].ends.is_empty());
    assert_eq!(op.fire_times(), 1);
}

#[test]
fn fire_counts_every_quantum() {
    let err = JobExecError::new(1, false);
    let core = Scripted { writes: vec![], results: vec![Ok(()), Err(err), Ok(())] };
    let mut op = plain(1, 1, core);
    assert_eq!(op.fire(), Ok(()));
    assert_eq!(op.fire(), Err(err));
    assert_eq!(op.fire(), Ok(()));
    assert_eq!(op.fire_times(), 3);
}

#[test]
fn blocked_scope_is_registered_with_every_input() {
    let mut op = plain(3, 2, idle_core());
    op.block_output(1, &tag(&[6]));
    assert_eq!(op.fire(), Ok(()));
    let blocks = &op.outputs()[1].blocks;
    assert_eq!(blocks.len(), 1);
    for i in 0..3 {
        assert!(blocks[0].has_block(i));
    }
    assert_eq!(blocks[0].blocked_inputs.len(), 3);
    assert_eq!(op.fire(), Ok(()));
    assert_eq!(op.outputs()[1].blocks[0].blocked_inputs.len(), 3);
}

#[test]
fn too_deep_scope_is_refused() {
    let mut b: OperatorBuilder<Scripted, Recording> = OperatorBuilder::new(info(0), GeneralOperator::Simple(idle_core()));
    b.add_input(0, Input::new(), None);
    b.add_input(1, Input::new(), None);
    b.new_output_port(4, 16, 16);
    let mut op = b.build();
    op.deliver_end(0, tag(&[1]), weight(&[1]));
    assert_eq!(op.fire(), Err(JobExecError::new(SCOPE_TOO_DEEP, false)));
}

#[test]
fn close_closes_every_output_once() {
    let core = Scripted { writes: vec![5], results: vec![] };
    let mut op = plain(1, 2, core);
    assert_eq!(op.fire(), Ok(()));
    assert_eq!(op.close(), 0);
    assert!(op.outputs()[0].closed);
    assert!(op.outputs()[1].closed);
    assert_eq!(op.outputs()[0].sent, vec![5]);
    assert_eq!(op.close(), 2);
}

#[test]
fn custom_notification_is_used() {
    let core = Recording { ends: vec![], cancels: vec![] };
    let mut b: OperatorBuilder<Scripted, Recording> = OperatorBuilder::new(info(1), GeneralOperator::Notifiable(core));
    b.add_input(0, Input::new(), None);
    b.add_input(1, Input::new(), None);
    b.new_output_port(4, 16, 16);
    let mut op = b.build();
    op.deliver_end(1, tag(&[2]), weight(&[1]));
    assert_eq!(op.fire(), Ok(()));
    assert!(op.outputs()[0].ends.is_empty());
    assert_eq!(op.cancel(0, tag(&[2])), Ok(()));
    assert!(op.inputs()[0].cancelled.is_empty());
}

#[test]
fn builder_assigns_ports_in_order() {
    let mut b: OperatorBuilder<Scripted, Recording> = OperatorBuilder::new(info(1), GeneralOperator::Simple(idle_core()));
    assert_eq!(b.index(), 7);
    assert_eq!(b.next_input_port().port, 0);
    b.add_input(0, Input::new(), None);
    assert_eq!(b.next_input_port().port, 1);
    assert_eq!(b.next_input_port().index, 7);
    let o0 = b.new_output_port(8, 2, 3);
    let o1 = b.new_output_port(8, 2, 3);
    assert_eq!(o0.port.port, 0);
    assert_eq!(o1.port.port, 1);
    assert_eq!(o1.batch_size, 8);
    let op = b.build();
    assert_eq!(op.outputs().len(), 2);
    assert_eq!(op.inputs().len(), 1);
    assert_eq!(op.info.index, 7);
}

#[test]
fn output_batches_and_flushes() {
    let core = Scripted { writes: vec![1, 2, 3, 4, 5], results: vec![] };
    let mut b: OperatorBuilder<Scripted, Recording> = OperatorBuilder::new(info(1), GeneralOperator::Simple(core));
    b.new_output_port(4, 16, 16);
    let mut op = b.build();
    assert_eq!(op.fire(), Ok(()));
    assert_eq!(op.outputs()[0].sent, vec![1, 2, 3, 4, 5]);
    assert!(op.outputs()[0].buffer.is_empty());
}

#[test]
fn busy_time_never_decreases() {
    let mut op = plain(1, 1, idle_core());
    let before = op.exec_micros();
    assert_eq!(op.fire(), Ok(()));
    assert!(op.exec_micros() >= before);
    let f = Finally::new();
    assert!(f.account(10) >= 10);
}

#[test]
fn builder_hands_out_input_notify_ports_once() {
    let mut b: OperatorBuilder<Scripted, Recording> = OperatorBuilder::new(info(1), GeneralOperator::Simple(idle_core()));
    b.add_input(0, Input::new(), Some(Port { index: 3, port: 1 }));
    b.add_input(1, Input::new(), None);
    let taken = b.take_inputs_notify();
    assert_eq!(taken, vec![Some(Port { index: 3, port: 1 }), None]);
    assert!(b.take_inputs_notify().is_empty());
    let op = b.build();
    assert_eq!(op.inputs().len(), 2);
}

#[test]
fn close_reports_outputs_closed_before() {
    let mut op = plain(0, 3, idle_core());
    assert_eq!(op.close(), 0);
    assert_eq!(op.close(), 3);
    assert!(op.is_finished());
}

#[test]
fn after_receive_completes_bookkeeping_for_each_outcome() {
    let retry = JobExecError::new(21, true);
    let fatal = JobExecError::new(22, false);
    let mut op = plain(2, 2, idle_core());
    op.deliver_end(0, tag(&[1]), weight(&[1]));
    op.deliver_end(1, tag(&[1]), weight(&[2]));
    assert_eq!(op.after_receive(Err(fatal)), Err(fatal));
    assert_eq!(op.inputs()[0].ends.len(), 1);
    assert_eq!(op.after_receive(Err(retry)), Err(retry));
    assert!(op.inputs()[0].ends.is_empty());
    assert!(op.inputs()[1].ends.is_empty());
    for o in 0..2 {
        assert_eq!(op.outputs()[o].ends.len(), 1);
        assert_eq!(weight_ids(&op.outputs()[o].ends[0].weight), vec![1, 2]);
    }
    assert_eq!(op.after_receive(Ok(())), Ok(()));
    assert_eq!(op.fire_times(), 0);
}

#[test]
fn input_failure_surfaces_through_queries() {
    let mut op = plain(3, 1, idle_core());
    op.fail_input(1);
    assert_eq!(op.has_outstanding(), Err(IoError::Disconnected));
    assert_eq!(op.is_idle(), Err(IoError::Disconnected));
    op.deliver_data(0, 4);
    assert_eq!(op.has_outstanding(), Ok(true));
    op.block_output(0, &tag(&[1]));
    assert_eq!(op.is_idle(), Ok(false));
}

#[test]
fn cancel_on_failed_output_returns_its_error() {
    let mut op = plain(1, 2, idle_core());
    op.fail_output(0);
    let io = JobExecError::from_io(IoError::Disconnected);
    assert_eq!(io, JobExecError::new(IO_FAILURE, false));
    assert_eq!(op.cancel(0, tag(&[2])), Err(io));
    assert!(op.outputs()[0].cancelled.is_empty());
    assert_eq!(op.cancel(1, tag(&[2])), Ok(()));
    assert!(op.inputs()[0].cancelled.is_empty());
}

#[test]
fn failed_output_stops_fire_before_the_computation() {
    let core = Scripted { writes: vec![9], results: vec![] };
    let mut op = plain(1, 2, core);
    op.deliver_end(0, tag(&[1]), weight(&[1]));
    op.fail_output(1);
    assert_eq!(op.fire(), Err(JobExecError::new(IO_FAILURE, false)));
    assert_eq!(op.fire_times(), 1);
    assert_eq!(op.inputs()[0].ends.len(), 1);
    assert!(op.outputs()[0].buffer.is_empty());
    assert!(op.outputs()[0].sent.is_empty());
}

#[test]
fn output_failure_during_the_computation_is_returned() {
    let mut b: OperatorBuilder<Breaking, Recording> = OperatorBuilder::new(info(1), GeneralOperator::Simple(Breaking));
    b.add_input(0, Input::new(), None);
    b.new_output_port(4, 16, 16);
    let mut op = b.build();
    op.deliver_end(0, tag(&[2]), weight(&[7]));
    assert_eq!(op.fire(), Err(JobExecError::new(IO_FAILURE, false)));
    assert!(op.inputs()[0].ends.is_empty());
    assert!(op.outputs()[0].ends.is_empty());
    assert_eq!(op.outputs()[0].buffer, vec![3]);
}

#[test]
fn failed_completion_signal_is_returned() {
    let mut op = plain(1, 2, idle_core());
    op.deliver_end(0, tag(&[4]), weight(&[1]));
    op.fail_output(1);
    assert_eq!(op.after_receive(Ok(())), Err(JobExecError::new(IO_FAILURE, false)));
    assert_eq!(op.outputs()[0].ends.len(), 1);
    assert!(op.outputs()[1].ends.is_empty());
    assert!(op.inputs()[0].ends.is_empty());
}

#[test]
fn flush_failure_is_returned_after_draining() {
    let core = Scripted { writes: vec![1], results: vec![Err(JobExecError::new(6, true))] };
    let mut op = plain(1, 1, core);
    op.deliver_end(0, tag(&[2]), weight(&[7]));
    assert_eq!(op.fire(), Err(JobExecError::new(6, true)));
    op.fail_output(0);
    assert_eq!(op.after_receive(Ok(())), Err(JobExecError::new(IO_FAILURE, false)));
    assert!(op.inputs()[0].ends.is_empty());
    assert_eq!(op.outputs()[0].ends.len(), 1);
}
