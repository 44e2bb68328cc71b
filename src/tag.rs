use vstd::prelude::*;

verus! {

/// A hierarchical scope identifier: one index per nesting level.
#[derive(Debug)]
pub struct Tag {
    pub indices: Vec<u32>,
}

impl View for Tag {
    type V = Seq<u32>;

    open spec fn view(&self) -> Seq<u32> {
        self.indices@
    }
}

impl Tag {
    pub fn new(indices: Vec<u32>) -> (r: Tag)
        ensures
            r@ == indices@,
    {
        Tag { indices }
    }

    /// The nesting depth of the scope.
    pub fn len(&self) -> (r: usize)
        ensures
            r == self@.len(),
    {
        self.indices.len()
    }

    pub fn same_as(&self, other: &Tag) -> (r: bool)
        ensures
            r == (self@ == other@),
    {
        let n = self.indices.len();
        if n != other.indices.len() {
            return false;
        }
        let mut i: usize = 0;
        while i < n
            invariant
                n == self@.len(),
                n == other@.len(),
                0 <= i <= n,
                forall|k: int| 0 <= k < i ==> self@[k] == other@[k],
            decreases n - i,
        {
            if self.indices[i] != other.indices[i] {
                return false;
            }
            i = i + 1;
        }
        assert(self@ =~= other@);
        true
    }

    pub fn copy(&self) -> (r: Tag)
        ensures
            r@ == self@,
    {
        Tag { indices: self.indices.clone() }
    }
}

/// Accumulated completion progress of a scope: the set of upstream
/// contributors that have confirmed its end.
#[derive(Debug)]
pub struct Weight {
    pub contributors: Vec<u64>,
}

impl View for Weight {
    type V = Set<u64>;

    open spec fn view(&self) -> Set<u64> {
        Set::new(|x: u64| self.contributors@.contains(x))
    }
}

impl Weight {
    pub fn empty() -> (r: Weight)
        ensures
            r@ == Set::<u64>::empty(),
    {
        let r = Weight { contributors: Vec::new() };
        assert(r@ =~= Set::<u64>::empty());
        r
    }

    pub fn single(id: u64) -> (r: Weight)
        ensures
            r@ == Set::<u64>::empty().insert(id),
    {
        let mut v: Vec<u64> = Vec::new();
        v.push(id);
        let r = Weight { contributors: v };
        assert(r.contributors@[0] == id);
        assert(r@ =~= Set::<u64>::empty().insert(id));
        r
    }

    pub fn contains(&self, id: u64) -> (r: bool)
        ensures
            r == self@.contains(id),
    {
        let mut i: usize = 0;
        while i < self.contributors.len()
            invariant
                0 <= i <= self.contributors@.len(),
                forall|k: int| 0 <= k < i ==> self.contributors@[k] != id,
            decreases self.contributors@.len() - i,
        {
            if self.contributors[i] == id {
                assert(self.contributors@.contains(id));
                return true;
            }
            i = i + 1;
        }
        assert(!self.contributors@.contains(id));
        false
    }

    /// Folds the contributions of `other` into `self`.
    pub fn merge(&mut self, other: &Weight)
        ensures
            final(self)@ == old(self)@.union(other@),
    {
        let mut i: usize = 0;
        while i < other.contributors.len()
            invariant
                0 <= i <= other.contributors@.len(),
                forall|x: u64|
                    self.contributors@.contains(x) <==> (old(self).contributors@.contains(x) || exists|k: int|
                        0 <= k < i && other.contributors@[k] == x),
            decreases other.contributors@.len() - i,
        {
            let id = other.contributors[i];
            let ghost before = self.contributors@;
            if !self.contains(id) {
                self.contributors.push(id);
                assert forall|x: u64| self.contributors@.contains(x) <==> (before.contains(x) || x == id) by {
                    if self.contributors@.contains(x) {
                        let j = choose|j: int| 0 <= j < self.contributors@.len() && self.contributors@[j] == x;
                        if j < before.len() {
                            assert(before[j] == x);
                        }
                    }
                    if before.contains(x) {
                        let j = choose|j: int| 0 <= j < before.len() && before[j] == x;
                        assert(self.contributors@[j] == x);
                    }
                    if x == id {
                        assert(self.contributors@[before.len() as int] == x);
                    }
                }
            }
            assert forall|x: u64|
                #![trigger self.contributors@.contains(x)]
                (exists|k: int| 0 <= k < i + 1 && other.contributors@[k] == x) <==> ((exists|k: int|
                    0 <= k < i && other.contributors@[k] == x) || x == id) by {
                if x == id {
                    assert(other.contributors@[i as int] == x);
                }
            }
            i = i + 1;
        }
        assert(self@ =~= old(self)@.union(other@)) by {
            assert forall|x: u64| other.contributors@.contains(x) <==> (exists|k: int|
                0 <= k < other.contributors@.len() && other.contributors@[k] == x) by {
                if other.contributors@.contains(x) {
                    let k = choose|k: int| 0 <= k < other.contributors@.len() && other.contributors@[k] == x;
                }
            }
        }
    }

    pub fn copy(&self) -> (r: Weight)
        ensures
            r@ == self@,
    {
        Weight { contributors: self.contributors.clone() }
    }
}

/// Merging weights is commutative.
pub proof fn lemma_merge_commutative(a: Set<u64>, b: Set<u64>)
    ensures
        a.union(b) == b.union(a),
{
    assert(a.union(b) =~= b.union(a));
}

/// Merging weights is associative.
pub proof fn lemma_merge_associative(a: Set<u64>, b: Set<u64>, c: Set<u64>)
    ensures
        a.union(b).union(c) == a.union(b.union(c)),
{
    assert(a.union(b).union(c) =~= a.union(b.union(c)));
}

} // verus!
