//! Index descriptions for walking array elements: a single position, a
//! stepped range, or an explicit list of positions, and a `Traverser` that
//! chains such indexers over a conceptual flat array.

use vstd::prelude::*;
use std::rc::Rc;
use crate::indexing::range::{iabs, range_len_spec, Range};

pub mod range;

verus! {

/// Used for indexing into one axis.
#[derive(Debug, PartialEq, Clone)]
pub enum Indexer {
    Scalar(usize),
    Slice(Range),
    Indices(Vec<usize>),
}

/// An indexer that does not fit the axis it was applied to.
pub struct IndexError {
    pub dim_length: usize,
    pub indexer: Indexer,
}

impl Indexer {
    pub fn scalar(k: usize) -> (r: Self)
        ensures
            r == Indexer::Scalar(k),
    {
        Indexer::Scalar(k)
    }

    /// A range indexer; an invalid bound/step combination falls back to the
    /// empty range.
    pub fn slice(start: isize, stop: isize, step: Option<isize>) -> (r: Self)
        requires
            iabs(stop - start) <= isize::MAX,
            step matches Some(s) ==> s != isize::MIN,
        ensures
            ({
                &&& r matches Indexer::Slice(rg)
                &&& rg.wf()
                &&& if match step {
                    Some(s) => s != 0 && (start == stop || ((start < stop) <==> (s > 0))),
                    None => true,
                } {
                    rg.start_spec() == start && rg.stop_spec() == stop
                } else {
                    rg.start_spec() == 0 && rg.stop_spec() == 0 && rg.step_spec() == 1
                }
            }),
    {
        match Range::new(start, stop, step) {
            Ok(rg) => Indexer::Slice(rg),
            Err(_) => Indexer::Slice(Range::empty()),
        }
    }

    pub fn indices(i: Vec<usize>) -> (r: Self)
        ensures
            r == Indexer::Indices(i),
    {
        Indexer::Indices(i)
    }

    /// How many positions the indexer selects.
    pub fn len(&self) -> (l: usize)
        requires
            self matches Indexer::Slice(rg) ==> rg.wf(),
        ensures
            match self {
                Indexer::Scalar(_) => l == 1,
                Indexer::Slice(rg) => l == range_len_spec(
                    rg.start_spec(),
                    rg.stop_spec(),
                    rg.step_spec(),
                ),
                Indexer::Indices(v) => l == v@.len(),
            },
    {
        match self {
            Indexer::Scalar(_) => 1,
            Indexer::Slice(rg) => rg.len(),
            Indexer::Indices(v) => v.len(),
        }
    }
}

/// Relies on `Rc::clone`: the returned handle shares the same value.
#[verifier::external_body]
fn rc_clone<T>(rc: &Rc<T>) -> (r: Rc<T>)
    ensures
        r == *rc,
{
    Rc::clone(rc)
}

/// A chain of indexers over a conceptual flat array: each link narrows the
/// one below it.
#[derive(Debug, Clone)]
pub struct Traverser {
    len: usize,
    indexer: Indexer,
    base: Option<Rc<Traverser>>,
}

impl Traverser {
    /// How many positions this link selects.
    pub closed spec fn len_spec(&self) -> usize {
        self.len
    }

    pub closed spec fn indexer_spec(&self) -> Indexer {
        self.indexer
    }

    pub closed spec fn base_spec(&self) -> Option<Rc<Traverser>> {
        self.base
    }

    /// The root traverser: every position of a length-`len` array.
    pub fn new(len: usize) -> (t: Rc<Self>)
        requires
            len <= isize::MAX,
        ensures
            t.len_spec() == len,
            t.base_spec() is None,
            ({
                &&& t.indexer_spec() matches Indexer::Slice(rg)
                &&& rg.start_spec() == 0
                &&& rg.stop_spec() == len
            }),
    {
        Rc::new(Traverser { len, indexer: Indexer::slice(0, len as isize, None), base: None })
    }

    /// A traverser that selects nothing.
    pub fn empty() -> (t: Rc<Self>)
        ensures
            t.len_spec() == 0,
            t.base_spec() is None,
            t.indexer_spec() matches Indexer::Slice(rg),
    {
        Rc::new(Traverser { len: 0, indexer: Indexer::slice(0, 0, None), base: None })
    }

    /// Narrows this traverser by one more indexer.
    pub fn slice(self: &Rc<Self>, indexer: Indexer) -> (t: Rc<Self>)
        requires
            indexer matches Indexer::Slice(rg) ==> rg.wf(),
        ensures
            t.indexer_spec() == indexer,
            match indexer {
                Indexer::Scalar(_) => t.len_spec() == 1,
                Indexer::Slice(rg) => t.len_spec() == range_len_spec(
                    rg.start_spec(),
                    rg.stop_spec(),
                    rg.step_spec(),
                ),
                Indexer::Indices(v) => t.len_spec() == v@.len(),
            },
            t.base_spec() matches Some(b) && b == *self,
    {
        let len = indexer.len();
        Rc::new(Traverser { len, indexer, base: Some(rc_clone(self)) })
    }

    /// Resolving a position through the chain; nothing is resolved yet.
    pub fn index(&self, i: isize) -> (r: Option<isize>)
        ensures
            r is None,
    {
        None
    }
}

} // verus!
