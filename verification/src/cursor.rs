//! A basic immutable cursor over an array's element buffer: a borrowed
//! buffer plus a signed position that can be set or moved.

use vstd::prelude::*;
use crate::types::ArrType;

verus! {

pub struct ArrayCursor<'a, T: ArrType> {
    inner: &'a Vec<T>,
    pos: isize,
}

impl<'a, T: ArrType> ArrayCursor<'a, T> {
    /// The buffer the cursor walks.
    pub closed spec fn inner_seq(&self) -> Seq<T> {
        self.inner@
    }

    /// The current position.
    pub closed spec fn pos_spec(&self) -> int {
        self.pos as int
    }

    pub fn new(inner: &'a Vec<T>) -> (c: Self)
        ensures
            c.inner_seq() == inner@,
            c.pos_spec() == 0,
    {
        ArrayCursor { inner, pos: 0 }
    }

    pub fn get_pos(&self) -> (p: isize)
        ensures
            p == self.pos_spec(),
    {
        self.pos
    }

    pub fn set_pos(&mut self, pos: isize)
        ensures
            final(self).pos_spec() == pos,
            final(self).inner_seq() == old(self).inner_seq(),
    {
        self.pos = pos
    }

    pub fn move_pos(&mut self, offset: isize)
        requires
            isize::MIN <= old(self).pos_spec() + offset <= isize::MAX,
        ensures
            final(self).pos_spec() == old(self).pos_spec() + offset,
            final(self).inner_seq() == old(self).inner_seq(),
    {
        let pos = self.pos + offset;
        self.set_pos(pos)
    }

    /// Reads the element under the cursor, which must be in bounds.
    pub fn read(&self) -> (v: T)
        requires
            0 <= self.pos_spec() < self.inner_seq().len(),
        ensures
            v == self.inner_seq()[self.pos_spec()],
    {
        self.inner[self.pos as usize]
    }
}

} // verus!
