use vstd::prelude::*;

use crate::error::IoError;
use crate::notification::EndSignal;
use crate::tag::{Tag, Weight};

verus! {

/// An end-of-stream record that an input has received for a scope.
#[derive(Debug)]
pub struct EndRecord {
    pub tag: Tag,
    pub weight: Weight,
}

/// The receiving end of one input port.
#[derive(Debug)]
pub struct Input {
    /// Records received and not yet taken by the computation.
    pub buffered: Vec<u64>,
    /// Whether every upstream producer has finished for good.
    pub exhausted: bool,
    /// End-of-stream records not yet extracted, oldest first.
    pub ends: Vec<EndRecord>,
    /// Scopes whose further delivery was cancelled, in request order.
    pub cancelled: Vec<Tag>,
    /// Whether the channel behind the input has failed.
    pub failed: bool,
}

pub open spec fn tags_of(v: Seq<Tag>) -> Seq<Seq<u32>> {
    v.map_values(|t: Tag| t@)
}

impl Input {
    pub fn new() -> (r: Input)
        ensures
            r.buffered@.len() == 0,
            !r.exhausted,
            r.ends@.len() == 0,
            r.cancelled@.len() == 0,
            !r.failed,
    {
        Input { buffered: Vec::new(), exhausted: false, ends: Vec::new(), cancelled: Vec::new(), failed: false }
    }

    /// Whether data waits to be taken; a failed channel reports its failure.
    pub fn has_outstanding(&self) -> (r: Result<bool, IoError>)
        ensures
            r == (if self.failed {
                Err::<bool, IoError>(IoError::Disconnected)
            } else {
                Ok(self.buffered@.len() > 0)
            }),
    {
        if self.failed {
            Err(IoError::Disconnected)
        } else {
            Ok(self.buffered.len() > 0)
        }
    }

    pub fn is_exhaust(&self) -> (r: bool)
        ensures
            r == self.exhausted,
    {
        self.exhausted
    }

    /// Takes the oldest end-of-stream record, if any.
    pub fn extract_end(&mut self) -> (r: Option<EndRecord>)
        ensures
            final(self).buffered == old(self).buffered,
            final(self).exhausted == old(self).exhausted,
            final(self).cancelled == old(self).cancelled,
            old(self).ends@.len() == 0 ==> r is None && final(self).ends@ == old(self).ends@,
            old(self).ends@.len() > 0 ==> r == Some(old(self).ends@[0]) && final(self).ends@ == old(
                self,
            ).ends@.subrange(1, old(self).ends@.len() as int),
    {
        if self.ends.len() == 0 {
            None
        } else {
            Some(self.ends.remove(0))
        }
    }

    /// Stops further delivery of `tag` through this input.
    pub fn cancel_scope(&mut self, tag: &Tag)
        ensures
            final(self).buffered == old(self).buffered,
            final(self).exhausted == old(self).exhausted,
            final(self).ends == old(self).ends,
            tags_of(final(self).cancelled@) == tags_of(old(self).cancelled@).push(tag@),
    {
        self.cancelled.push(tag.copy());
        assert(tags_of(self.cancelled@) =~= tags_of(old(self).cancelled@).push(tag@));
    }

    /// Takes the oldest buffered record, if any.
    pub fn pull(&mut self) -> (r: Option<u64>)
        ensures
            final(self).exhausted == old(self).exhausted,
            final(self).ends == old(self).ends,
            final(self).cancelled == old(self).cancelled,
            old(self).buffered@.len() == 0 ==> r is None && final(self).buffered@ == old(self).buffered@,
            old(self).buffered@.len() > 0 ==> r == Some(old(self).buffered@[0]) && final(self).buffered@
                == old(self).buffered@.subrange(1, old(self).buffered@.len() as int),
    {
        if self.buffered.len() == 0 {
            None
        } else {
            Some(self.buffered.remove(0))
        }
    }
}

/// A scope that an output cannot take more data of, and the inputs that
/// were asked to withhold it.
#[derive(Debug)]
pub struct Block {
    pub tag: Tag,
    pub blocked_inputs: Vec<usize>,
}

impl Block {
    pub fn has_block(&self, index: usize) -> (r: bool)
        ensures
            r == self.blocked_inputs@.contains(index),
    {
        let mut i: usize = 0;
        while i < self.blocked_inputs.len()
            invariant
                0 <= i <= self.blocked_inputs@.len(),
                forall|k: int| 0 <= k < i ==> self.blocked_inputs@[k] != index,
            decreases self.blocked_inputs@.len() - i,
        {
            if self.blocked_inputs[i] == index {
                return true;
            }
            i = i + 1;
        }
        false
    }

    /// Records that every input below `n` withholds the scope, each once.
    pub fn block_all(&mut self, n: usize)
        ensures
            final(self).tag == old(self).tag,
            forall|x: usize| old(self).blocked_inputs@.contains(x) ==> final(self).blocked_inputs@.contains(x),
            forall|x: usize| x < n ==> final(self).blocked_inputs@.contains(x),
    {
        let mut i: usize = 0;
        while i < n
            invariant
                0 <= i <= n,
                self.tag == old(self).tag,
                forall|x: usize| old(self).blocked_inputs@.contains(x) ==> self.blocked_inputs@.contains(x),
                forall|x: usize| x < i ==> self.blocked_inputs@.contains(x),
            decreases n - i,
        {
            let ghost prev = self.blocked_inputs@;
            if !self.has_block(i) {
                self.block(i);
                assert(self.blocked_inputs@[prev.len() as int] == i);
                assert forall|x: usize| prev.contains(x) implies self.blocked_inputs@.contains(x) by {
                    let j = choose|j: int| 0 <= j < prev.len() && prev[j] == x;
                    assert(self.blocked_inputs@[j] == x);
                }
            }
            assert(self.blocked_inputs@.contains(i));
            assert forall|x: usize| x < i + 1 implies self.blocked_inputs@.contains(x) by {
                if x < i {
                    assert(prev.contains(x));
                }
            }
            i = i + 1;
        }
    }

    /// Records that input `index` withholds the scope.
    pub fn block(&mut self, index: usize)
        ensures
            final(self).tag == old(self).tag,
            final(self).blocked_inputs@ == old(self).blocked_inputs@.push(index),
    {
        self.blocked_inputs.push(index);
    }
}

/// The sending end of one output port.
#[derive(Debug)]
pub struct Output {
    /// Records written and not yet sent, waiting for a full batch.
    pub buffer: Vec<u64>,
    /// Records sent downstream, in order.
    pub sent: Vec<u64>,
    /// Records per batch.
    pub batch_size: usize,
    /// Completion signals sent downstream, in order.
    pub ends: Vec<EndSignal>,
    /// Scopes no longer sent, in request order, each once.
    pub cancelled: Vec<Tag>,
    /// Scopes blocked for want of downstream capacity.
    pub blocks: Vec<Block>,
    /// Whether downstream capacity has recovered.
    pub capacity_ready: bool,
    pub closed: bool,
    /// Whether the channel behind the output has failed.
    pub failed: bool,
}

impl Output {
    pub fn new(batch_size: usize) -> (r: Output)
        ensures
            r.buffer@.len() == 0,
            r.sent@.len() == 0,
            r.batch_size == batch_size,
            r.ends@.len() == 0,
            r.cancelled@.len() == 0,
            r.blocks@.len() == 0,
            r.capacity_ready,
            !r.closed,
            !r.failed,
    {
        Output {
            buffer: Vec::new(),
            sent: Vec::new(),
            batch_size,
            ends: Vec::new(),
            cancelled: Vec::new(),
            blocks: Vec::new(),
            capacity_ready: true,
            closed: false,
            failed: false,
        }
    }

    /// Releases every blocked scope once downstream capacity has recovered.
    /// A failed channel reports its failure and nothing changes.
    pub fn try_unblock(&mut self) -> (r: Result<(), IoError>)
        ensures
            old(self).failed ==> r == Err::<(), IoError>(IoError::Disconnected) && *final(self) == *old(self),
            !old(self).failed ==> r is Ok && released(*old(self), *final(self)),
    {
        if self.failed {
            return Err(IoError::Disconnected);
        }
        if self.capacity_ready {
            self.blocks = Vec::new();
        }
        Ok(())
    }

    /// Marks `tag` as blocked for want of capacity, unless it already is.
    pub fn block_scope(&mut self, tag: &Tag)
        ensures
            final(self).buffer == old(self).buffer,
            final(self).sent == old(self).sent,
            final(self).ends == old(self).ends,
            final(self).cancelled == old(self).cancelled,
            final(self).closed == old(self).closed,
            final(self).batch_size == old(self).batch_size,
            !final(self).capacity_ready,
            exists|i: int| 0 <= i < final(self).blocks@.len() && (#[trigger] final(self).blocks@[i]).tag@ == tag@,
    {
        let mut i: usize = 0;
        while i < self.blocks.len()
            invariant
                *self == *old(self),
                0 <= i <= self.blocks@.len(),
            decreases self.blocks@.len() - i,
        {
            if self.blocks[i].tag.same_as(tag) {
                self.capacity_ready = false;
                assert(self.blocks@[i as int].tag@ == tag@);
                return;
            }
            i = i + 1;
        }
        self.capacity_ready = false;
        self.blocks.push(Block { tag: tag.copy(), blocked_inputs: Vec::new() });
        assert(self.blocks@[self.blocks@.len() - 1].tag@ == tag@);
    }

    /// Asks every input below `n` to withhold each blocked scope.
    pub fn register_blocks(&mut self, n: usize)
        ensures
            final(self).blocks@.len() == old(self).blocks@.len(),
            forall|b: int, x: usize|
                0 <= b < final(self).blocks@.len() && x < n ==> #[trigger] final(self).blocks@[b].blocked_inputs@.contains(x),
            forall|b: int| 0 <= b < final(self).blocks@.len() ==> (#[trigger] final(self).blocks@[b]).tag == old(self).blocks@[b].tag,
            final(self).buffer == old(self).buffer,
            final(self).sent == old(self).sent,
            final(self).ends == old(self).ends,
            final(self).cancelled == old(self).cancelled,
            final(self).capacity_ready == old(self).capacity_ready,
            final(self).closed == old(self).closed,
            final(self).batch_size == old(self).batch_size,
            final(self).failed == old(self).failed,
    {
        let mut b: usize = 0;
        while b < self.blocks.len()
            invariant
                0 <= b <= self.blocks@.len(),
                self.blocks@.len() == old(self).blocks@.len(),
                forall|j: int, x: usize| 0 <= j < b && x < n ==> #[trigger] self.blocks@[j].blocked_inputs@.contains(x),
                forall|j: int| 0 <= j < self.blocks@.len() ==> (#[trigger] self.blocks@[j]).tag == old(self).blocks@[j].tag,
                self.buffer == old(self).buffer,
                self.sent == old(self).sent,
                self.ends == old(self).ends,
                self.cancelled == old(self).cancelled,
                self.capacity_ready == old(self).capacity_ready,
                self.closed == old(self).closed,
                self.batch_size == old(self).batch_size,
                self.failed == old(self).failed,
            decreases self.blocks@.len() - b,
        {
            self.blocks[b].block_all(n);
            b = b + 1;
        }
    }

    /// Sends a completion signal downstream. A failed channel reports its
    /// failure and nothing changes.
    pub fn notify_end(&mut self, sig: EndSignal) -> (r: Result<(), IoError>)
        ensures
            old(self).failed ==> r == Err::<(), IoError>(IoError::Disconnected) && *final(self) == *old(self),
            !old(self).failed ==> r is Ok && final(self).ends@ == old(self).ends@.push(sig),
            only_ends_changed(*old(self), *final(self)),
    {
        if self.failed {
            return Err(IoError::Disconnected);
        }
        self.ends.push(sig);
        Ok(())
    }

    /// Stops sending data of `tag`; a scope already stopped stays as it is.
    /// A failed channel reports its failure and nothing changes.
    pub fn cancel(&mut self, tag: &Tag) -> (r: Result<(), IoError>)
        ensures
            old(self).failed ==> r == Err::<(), IoError>(IoError::Disconnected) && *final(self) == *old(self),
            !old(self).failed ==> r is Ok,
            final(self).failed == old(self).failed,
            !old(self).failed && tags_of(old(self).cancelled@).contains(tag@) ==> final(self).cancelled == old(self).cancelled,
            !old(self).failed && !tags_of(old(self).cancelled@).contains(tag@) ==> tags_of(final(self).cancelled@) == tags_of(
                old(self).cancelled@,
            ).push(tag@),
            final(self).buffer == old(self).buffer,
            final(self).sent == old(self).sent,
            final(self).ends == old(self).ends,
            final(self).blocks == old(self).blocks,
            final(self).capacity_ready == old(self).capacity_ready,
            final(self).closed == old(self).closed,
            final(self).batch_size == old(self).batch_size,
    {
        if self.failed {
            return Err(IoError::Disconnected);
        }
        let mut i: usize = 0;
        while i < self.cancelled.len()
            invariant
                *self == *old(self),
                !old(self).failed,
                0 <= i <= self.cancelled@.len(),
                forall|k: int| 0 <= k < i ==> self.cancelled@[k]@ != tag@,
            decreases self.cancelled@.len() - i,
        {
            if self.cancelled[i].same_as(tag) {
                assert(tags_of(self.cancelled@)[i as int] == tag@);
                return Ok(());
            }
            i = i + 1;
        }
        assert(!tags_of(self.cancelled@).contains(tag@)) by {
            if tags_of(self.cancelled@).contains(tag@) {
                let k = choose|k: int| 0 <= k < tags_of(self.cancelled@).len() && tags_of(self.cancelled@)[k] == tag@;
                assert(self.cancelled@[k]@ == tag@);
            }
        }
        self.cancelled.push(tag.copy());
        assert(tags_of(self.cancelled@) =~= tags_of(old(self).cancelled@).push(tag@));
        Ok(())
    }

    /// Writes one record; a full batch is sent at once.
    pub fn give(&mut self, record: u64)
        ensures
            old(self).sent@ + old(self).buffer@.push(record) == final(self).sent@ + final(self).buffer@,
            final(self).buffer@.len() < old(self).batch_size || final(self).buffer@.len() == 0,
            final(self).ends == old(self).ends,
            final(self).cancelled == old(self).cancelled,
            final(self).blocks == old(self).blocks,
            final(self).capacity_ready == old(self).capacity_ready,
            final(self).closed == old(self).closed,
            final(self).batch_size == old(self).batch_size,
    {
        self.buffer.push(record);
        if self.buffer.len() >= self.batch_size {
            self.send_buffer();
        }
    }

    /// Sends every buffered record. A failed channel reports its failure and
    /// nothing changes.
    pub fn flush(&mut self) -> (r: Result<(), IoError>)
        ensures
            old(self).failed ==> r == Err::<(), IoError>(IoError::Disconnected) && *final(self) == *old(self),
            !old(self).failed ==> r is Ok && final(self).sent@ == old(self).sent@ + old(self).buffer@
                && final(self).buffer@.len() == 0,
            final(self).ends == old(self).ends,
            final(self).cancelled == old(self).cancelled,
            final(self).blocks == old(self).blocks,
            final(self).capacity_ready == old(self).capacity_ready,
            final(self).closed == old(self).closed,
            final(self).batch_size == old(self).batch_size,
            final(self).failed == old(self).failed,
    {
        if self.failed {
            return Err(IoError::Disconnected);
        }
        self.send_buffer();
        Ok(())
    }

    fn send_buffer(&mut self)
        ensures
            final(self).sent@ == old(self).sent@ + old(self).buffer@,
            final(self).buffer@.len() == 0,
            final(self).ends == old(self).ends,
            final(self).cancelled == old(self).cancelled,
            final(self).blocks == old(self).blocks,
            final(self).capacity_ready == old(self).capacity_ready,
            final(self).closed == old(self).closed,
            final(self).batch_size == old(self).batch_size,
            final(self).failed == old(self).failed,
    {
        self.sent.append(&mut self.buffer);
    }

    /// Sends what is buffered and closes the output; closing twice fails.
    pub fn close(&mut self) -> (r: Result<(), IoError>)
        ensures
            old(self).closed ==> r == Err::<(), IoError>(IoError::AlreadyClosed) && *final(self) == *old(self),
            !old(self).closed ==> {
                &&& r is Ok
                &&& final(self).closed
                &&& final(self).sent@ == old(self).sent@ + old(self).buffer@
                &&& final(self).buffer@.len() == 0
                &&& final(self).ends == old(self).ends
                &&& final(self).cancelled == old(self).cancelled
                &&& final(self).blocks == old(self).blocks
                &&& final(self).batch_size == old(self).batch_size
            },
    {
        if self.closed {
            return Err(IoError::AlreadyClosed);
        }
        self.send_buffer();
        self.closed = true;
        Ok(())
    }
}

} // verus!

verus! {

/// `after` is `before` with one more completion signal, for `t` with weight `w`.
pub open spec fn sent_end(before: Output, after: Output, t: Seq<u32>, w: Set<u64>) -> bool {
    &&& after.ends@.len() == before.ends@.len() + 1
    &&& after.ends@.take(before.ends@.len() as int) == before.ends@
    &&& after.ends@.last().tag@ == t
    &&& after.ends@.last().weight@ == w
    &&& after.buffer == before.buffer
    &&& after.sent == before.sent
    &&& after.cancelled == before.cancelled
    &&& after.blocks == before.blocks
    &&& after.capacity_ready == before.capacity_ready
    &&& after.closed == before.closed
    &&& after.batch_size == before.batch_size
    &&& after.failed == before.failed
}

/// `after` is `before` with delivery of `t` cancelled once more.
pub open spec fn cancelled_scope(before: Input, after: Input, t: Seq<u32>) -> bool {
    &&& tags_of(after.cancelled@) == tags_of(before.cancelled@).push(t)
    &&& after.buffered == before.buffered
    &&& after.exhausted == before.exhausted
    &&& after.ends == before.ends
}

/// `after` is `before` once its blocked scopes were released, if downstream
/// capacity had recovered.
pub open spec fn released(before: Output, after: Output) -> bool {
    &&& after.blocks@ == (if before.capacity_ready {
        Seq::<Block>::empty()
    } else {
        before.blocks@
    })
    &&& after.buffer == before.buffer
    &&& after.sent == before.sent
    &&& after.ends == before.ends
    &&& after.cancelled == before.cancelled
    &&& after.capacity_ready == before.capacity_ready
    &&& after.closed == before.closed
    &&& after.batch_size == before.batch_size
    &&& after.failed == before.failed
}

/// `after` differs from `before` at most in which inputs withhold its
/// blocked scopes.
pub open spec fn same_but_block_registration(before: Output, after: Output) -> bool {
    &&& after.blocks@.len() == before.blocks@.len()
    &&& forall|b: int| 0 <= b < after.blocks@.len() ==> (#[trigger] after.blocks@[b]).tag == before.blocks@[b].tag
    &&& after.buffer == before.buffer
    &&& after.sent == before.sent
    &&& after.ends == before.ends
    &&& after.cancelled == before.cancelled
    &&& after.capacity_ready == before.capacity_ready
    &&& after.closed == before.closed
    &&& after.batch_size == before.batch_size
    &&& after.failed == before.failed
}

/// `after` differs from `before` at most in the completion signals sent.
pub open spec fn only_ends_changed(before: Output, after: Output) -> bool {
    &&& after.buffer == before.buffer
    &&& after.sent == before.sent
    &&& after.cancelled == before.cancelled
    &&& after.blocks == before.blocks
    &&& after.capacity_ready == before.capacity_ready
    &&& after.closed == before.closed
    &&& after.batch_size == before.batch_size
    &&& after.failed == before.failed
}

} // verus!
