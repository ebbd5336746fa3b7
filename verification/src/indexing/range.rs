//! A signed stepped range with a validated direction: `start` toward
//! `stop` by `step`, which must point the right way. Its length counts the
//! positions visited.

use vstd::prelude::*;

verus! {

/// Absolute value of a mathematical integer.
pub open spec fn iabs(x: int) -> int {
    if x >= 0 {
        x
    } else {
        -x
    }
}

/// How many positions a validated range spans.
pub open spec fn range_len_spec(start: int, stop: int, step: int) -> int {
    let dist = iabs(stop - start);
    if dist == 0 {
        0
    } else {
        (dist - 1) / iabs(step) + 1
    }
}

#[derive(Debug, PartialEq, Clone)]
pub struct RawRange {
    pub start: isize,
    pub stop: isize,
    pub step: isize,
}

#[derive(Debug, PartialEq, Clone)]
pub struct Range {
    raw: RawRange,
    len: usize,
}

#[derive(Debug, PartialEq)]
pub enum RangeError {
    NonConverging(RawRange),
    ZeroStep,
}

pub type RangeResult = Result<Range, RangeError>;

impl Range {
    pub closed spec fn start_spec(&self) -> int {
        self.raw.start as int
    }

    pub closed spec fn stop_spec(&self) -> int {
        self.raw.stop as int
    }

    pub closed spec fn step_spec(&self) -> int {
        self.raw.step as int
    }

    pub closed spec fn wf(&self) -> bool {
        &&& self.raw.step != 0
        &&& self.raw.step != isize::MIN
        &&& iabs(self.stop_spec() - self.start_spec()) <= isize::MAX
        &&& (self.raw.start == self.raw.stop || ((self.raw.start < self.raw.stop) <==> (
        self.raw.step > 0)))
        &&& self.len == range_len_spec(self.start_spec(), self.stop_spec(), self.step_spec())
    }

    /// Builds a validated range without direction checks; callers must have
    /// made them.
    pub fn validated_new(start: isize, stop: isize, step: isize) -> (r: Range)
        requires
            step != 0,
            step != isize::MIN,
            iabs(stop - start) <= isize::MAX,
            start == stop || ((start < stop) <==> (step > 0)),
        ensures
            r.wf(),
            r.start_spec() == start,
            r.stop_spec() == stop,
            r.step_spec() == step,
    {
        let raw = RawRange { start, stop, step };
        let dist: usize = if stop >= start {
            (stop - start) as usize
        } else {
            (start - stop) as usize
        };
        let astep: usize = if step >= 0 {
            step as usize
        } else {
            (-step) as usize
        };
        let len: usize = if dist != 0 {
            (dist - 1) / astep + 1
        } else {
            0
        };
        proof {
            if dist != 0 {
                vstd::arithmetic::div_mod::lemma_div_nonincreasing(dist - 1, astep as int);
            }
        }
        Range { raw, len }
    }

    /// Builds a range, validating the step: a zero step is rejected, and an
    /// explicit step must point from `start` toward `stop`. With no step
    /// given, a unit step in the right direction is chosen.
    pub fn new(start: isize, stop: isize, step: Option<isize>) -> (r: RangeResult)
        requires
            iabs(stop - start) <= isize::MAX,
            step matches Some(s) ==> s != isize::MIN,
        ensures
            match r {
                Ok(range) => {
                    &&& range.wf()
                    &&& range.start_spec() == start
                    &&& range.stop_spec() == stop
                    &&& match step {
                        Some(s) => {
                            &&& s != 0
                            &&& (start == stop || ((start < stop) <==> (s > 0)))
                            &&& range.step_spec() == s
                        },
                        None => range.step_spec() == (if start > stop {
                            -1int
                        } else {
                            1int
                        }),
                    }
                },
                Err(e) => match step {
                    Some(s) => if s == 0 {
                        e == RangeError::ZeroStep
                    } else {
                        &&& !(start == stop || ((start < stop) <==> (s > 0)))
                        &&& e == RangeError::NonConverging(RawRange { start, stop, step: s })
                    },
                    None => false,
                },
            },
    {
        match step {
            Some(s) => {
                if s == 0 {
                    Err(RangeError::ZeroStep)
                } else if start == stop || ((start < stop) == (s > 0)) {
                    Ok(Self::validated_new(start, stop, s))
                } else {
                    Err(RangeError::NonConverging(RawRange { start, stop, step: s }))
                }
            },
            None => {
                let s: isize = if start > stop {
                    -1
                } else {
                    1
                };
                Ok(Self::validated_new(start, stop, s))
            },
        }
    }

    /// The empty range.
    pub fn empty() -> (r: Range)
        ensures
            r.wf(),
            r.start_spec() == 0,
            r.stop_spec() == 0,
            r.step_spec() == 1,
    {
        Self::validated_new(0, 0, 1)
    }

    /// The raw `(start, stop, step)` triple.
    pub fn bounds(&self) -> (b: (isize, isize, isize))
        ensures
            b.0 == self.start_spec(),
            b.1 == self.stop_spec(),
            b.2 == self.step_spec(),
    {
        (self.raw.start, self.raw.stop, self.raw.step)
    }

    /// How many positions the range spans.
    pub fn len(&self) -> (l: usize)
        requires
            self.wf(),
        ensures
            l == range_len_spec(self.start_spec(), self.stop_spec(), self.step_spec()),
    {
        self.len
    }

    /// A walker over the range's positions past the first.
    pub fn iter(&self) -> (it: RangeIterator<'_>)
        requires
            self.wf(),
        ensures
            it.wf(),
            it.pos_spec() == 0,
            it.range_start() == self.start_spec(),
            it.range_stop() == self.stop_spec(),
            it.range_step() == self.step_spec(),
    {
        RangeIterator { range: self, index: self.raw.start, pos: 0 }
    }
}

/// Walks a range's positions, yielding `start + step`, `start + 2*step`,
/// and so on: one value per position after the first, as many as leaves
/// the range's length uncrossed.
pub struct RangeIterator<'a> {
    range: &'a Range,
    index: isize,
    pos: usize,
}

impl<'a> RangeIterator<'a> {
    pub closed spec fn pos_spec(&self) -> int {
        self.pos as int
    }

    pub closed spec fn range_start(&self) -> int {
        self.range.start_spec()
    }

    pub closed spec fn range_stop(&self) -> int {
        self.range.stop_spec()
    }

    pub closed spec fn range_step(&self) -> int {
        self.range.step_spec()
    }

    pub closed spec fn range_len(&self) -> int {
        range_len_spec(self.range.start_spec(), self.range.stop_spec(), self.range.step_spec())
    }

    pub closed spec fn wf(&self) -> bool {
        &&& self.range.wf()
        &&& 0 <= self.pos <= self.range_len()
        &&& self.index == self.range_start() + self.pos * self.range_step()
    }

    /// The next position's value, or nothing once the length is reached.
    pub fn next(&mut self) -> (r: Option<isize>)
        requires
            old(self).wf(),
        ensures
            final(self).wf(),
            final(self).range_start() == old(self).range_start(),
            final(self).range_stop() == old(self).range_stop(),
            final(self).range_step() == old(self).range_step(),
            match r {
                Some(v) => {
                    &&& old(self).pos_spec() + 1 < old(self).range_len()
                    &&& final(self).pos_spec() == old(self).pos_spec() + 1
                    &&& v == old(self).range_start() + final(self).pos_spec() * old(
                        self,
                    ).range_step()
                },
                None => {
                    &&& old(self).pos_spec() + 1 >= old(self).range_len()
                    &&& final(self).pos_spec() == old(self).pos_spec()
                },
            },
    {
        let len = self.range.len();
        if self.pos + 1 < len {
            proof {
                self.lemma_step_in_bounds();
            }
            self.pos = self.pos + 1;
            self.index = self.index + self.range.raw.step;
            Some(self.index)
        } else {
            None
        }
    }

    /// Every position short of the length stays between the bounds, so
    /// stepping cannot overflow.
    proof fn lemma_step_in_bounds(&self)
        requires
            self.wf(),
            self.pos_spec() + 1 < self.range_len(),
        ensures
            isize::MIN <= self.index + self.range.raw.step <= isize::MAX,
            ({
                let next_index = self.range_start() + (self.pos_spec() + 1) * self.range_step();
                self.index + self.range.raw.step == next_index
            }),
    {
        let start = self.range_start();
        let stop = self.range_stop();
        let step = self.range_step();
        let p = self.pos_spec() + 1;
        let dist = iabs(stop - start);
        let astep = iabs(step);
        vstd::arithmetic::mul::lemma_mul_is_distributive_add_other_way(step, self.pos_spec(), 1);
        // p <= (dist - 1) / astep, so p * astep <= dist - 1
        vstd::arithmetic::div_mod::lemma_fundamental_div_mod(dist - 1, astep);
        vstd::arithmetic::div_mod::lemma_mod_bound(dist - 1, astep);
        vstd::arithmetic::mul::lemma_mul_inequality(p, (dist - 1) / astep, astep);
        vstd::arithmetic::mul::lemma_mul_is_commutative((dist - 1) / astep, astep);
        if step > 0 {
            assert(p * step <= dist - 1);
        } else {
            assert(p * astep <= dist - 1);
            assert(p * step == -(p * astep)) by {
                vstd::arithmetic::mul::lemma_mul_unary_negation(p, astep);
            }
        }
    }
}

} // verus!
