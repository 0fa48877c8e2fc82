//! Dense, consecutive indices for resource identifiers.

use std::collections::HashMap;
use vstd::prelude::*;

verus! {

broadcast use vstd::std_specs::hash::group_hash_axioms;

/// The position of `k` in a list of keys.
pub open spec fn index_of(s: Seq<u64>, k: u64) -> usize {
    (choose|i: int| 0 <= i < s.len() && s[i] == k) as usize
}

/// The keys after `k` is registered: appended where it is new.
pub open spec fn registered(s: Seq<u64>, k: u64) -> Seq<u64> {
    if s.contains(k) {
        s
    } else {
        s.push(k)
    }
}

/// Assigns new, consecutive PDF-internal indices to identifiers, in the
/// order in which they were first inserted.
pub struct Remapper {
    /// Forwards from the identifiers to the PDF indices.
    to_pdf: HashMap<u64, usize>,
    /// Backwards from the PDF indices to the identifiers.
    to_layout: Vec<u64>,
}

impl View for Remapper {
    type V = Seq<u64>;

    /// The identifiers in insertion order: the key at position `i` has PDF
    /// index `i`.
    closed spec fn view(&self) -> Seq<u64> {
        self.to_layout@
    }
}

impl Remapper {
    /// The two directions of the mapping agree.
    pub closed spec fn wf(&self) -> bool {
        &&& forall|i: int|
            0 <= i < self.to_layout@.len() ==> #[trigger] self.to_pdf@.contains_key(
                self.to_layout@[i],
            ) && self.to_pdf@[self.to_layout@[i]] == i
        &&& forall|k: u64|
            #[trigger] self.to_pdf@.contains_key(k) ==> self.to_pdf@[k] < self.to_layout@.len()
                && self.to_layout@[self.to_pdf@[k] as int] == k
    }

    /// An empty remapper.
    pub fn new() -> (r: Remapper)
        ensures
            r.wf(),
            r@ == Seq::<u64>::empty(),
    {
        Remapper { to_pdf: HashMap::new(), to_layout: Vec::new() }
    }

    /// Registers `index`; a key seen before keeps its PDF index.
    pub fn insert(&mut self, index: u64)
        requires
            old(self).wf(),
        ensures
            final(self).wf(),
            final(self)@.contains(index),
            final(self)@ == registered(old(self)@, index),
    {
        proof {
            self.lemma_contains(index);
        }
        if !self.to_pdf.contains_key(&index) {
            let pdf_index = self.to_layout.len();
            self.to_layout.push(index);
            self.to_pdf.insert(index, pdf_index);
            assert forall|k: u64| #[trigger] self.to_pdf@.contains_key(k) implies self.to_pdf@[k]
                < self.to_layout@.len() && self.to_layout@[self.to_pdf@[k] as int] == k by {
                if k != index {
                    assert(old(self).to_pdf@.contains_key(k));
                }
            }
            assert(self@[self@.len() - 1] == index);
        }
    }

    /// The PDF index of a key.
    pub open spec fn spec_index_of(&self, k: u64) -> usize {
        index_of(self@, k)
    }

    /// The PDF index of a key that was inserted.
    pub fn map(&self, index: u64) -> (r: usize)
        requires
            self.wf(),
            self@.contains(index),
        ensures
            r < self@.len(),
            self@[r as int] == index,
            r == self.spec_index_of(index),
    {
        proof {
            self.lemma_contains(index);
            self.lemma_unique();
            let c = choose|i: int| 0 <= i < self@.len() && self@[i] == index;
            assert(self@[self.to_pdf@[index] as int] == index);
        }
        *self.to_pdf.get(&index).unwrap()
    }

    /// The number of keys.
    pub fn len(&self) -> (r: usize)
        ensures
            r == self@.len(),
    {
        self.to_layout.len()
    }

    /// The keys in insertion order.
    pub fn layout_indices(&self) -> (r: Vec<u64>)
        ensures
            r@ == self@,
    {
        self.to_layout.clone()
    }

    /// Pairs each of the caller's references, given in PDF-index order, with
    /// its PDF index.
    pub fn pdf_indices<R: Copy>(&self, refs: &Vec<R>) -> (r: Vec<(R, usize)>)
        ensures
            r@.len() == if refs@.len() < self@.len() {
                refs@.len()
            } else {
                self@.len()
            },
            forall|i: int| 0 <= i < r@.len() ==> #[trigger] r@[i] == (refs@[i], i as usize),
    {
        let n = self.to_layout.len();
        let mut out: Vec<(R, usize)> = Vec::new();
        let mut i: usize = 0;
        while i < n && i < refs.len()
            invariant
                n == self@.len(),
                i <= n,
                i <= refs@.len(),
                out@.len() == i,
                forall|j: int| 0 <= j < i ==> #[trigger] out@[j] == (refs@[j], j as usize),
            decreases n - i,
        {
            out.push((refs[i], i));
            i += 1;
        }
        out
    }

    /// Under the invariant, a key is in the view exactly when it has an index.
    proof fn lemma_contains(&self, k: u64)
        requires
            self.wf(),
        ensures
            self@.contains(k) <==> self.to_pdf@.contains_key(k),
    {
        if self@.contains(k) {
            let i = choose|i: int| 0 <= i < self@.len() && self@[i] == k;
            assert(self.to_pdf@.contains_key(self.to_layout@[i]));
        }
        if self.to_pdf@.contains_key(k) {
            assert(self@[self.to_pdf@[k] as int] == k);
        }
    }

    /// No key is stored twice.
    pub proof fn lemma_unique(&self)
        requires
            self.wf(),
        ensures
            self@.no_duplicates(),
    {
        assert forall|i: int, j: int|
            0 <= i < self@.len() && 0 <= j < self@.len() && i != j implies self@[i] != self@[j] by {
            assert(self.to_pdf@.contains_key(self.to_layout@[i]));
            assert(self.to_pdf@.contains_key(self.to_layout@[j]));
        }
    }
}

} // verus!
