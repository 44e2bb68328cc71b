use vstd::prelude::*;

use crate::tag::{Tag, Weight};

verus! {

/// An input port's report that no more data of `tag` arrives through it.
#[derive(Debug)]
pub struct EndScope {
    pub port: usize,
    pub tag: Tag,
    pub weight: Weight,
}

/// An output port's request that no more data of `tag` be produced for it.
#[derive(Debug)]
pub struct CancelScope {
    pub port: usize,
    pub tag: Tag,
}

/// A completion signal delivered downstream: the scope and its merged weight.
#[derive(Debug)]
pub struct EndSignal {
    pub tag: Tag,
    pub weight: Weight,
}

impl EndScope {
    pub fn new(port: usize, tag: Tag, weight: Weight) -> (r: EndScope)
        ensures
            r.port == port,
            r.tag@ == tag@,
            r.weight@ == weight@,
    {
        EndScope { port, tag, weight }
    }
}

impl CancelScope {
    pub fn new(port: usize, tag: Tag) -> (r: CancelScope)
        ensures
            r.port == port,
            r.tag@ == tag@,
    {
        CancelScope { port, tag }
    }
}

impl EndSignal {
    pub fn copy(&self) -> (r: EndSignal)
        ensures
            r.tag@ == self.tag@,
            r.weight@ == self.weight@,
    {
        EndSignal { tag: self.tag.copy(), weight: self.weight.copy() }
    }
}

} // verus!
