use vstd::prelude::*;

verus! {

/// A source of code units with a read position.
///
/// Decoders peek at units ahead of the position and advance it only once a
/// whole character has been recognised, so a failed attempt leaves the
/// position where it was.
pub struct Cursor<T> {
    units: Vec<T>,
    pos: usize,
}

impl<T: Copy> Cursor<T> {
    /// All units of the source, consumed or not.
    pub closed spec fn units(&self) -> Seq<T> {
        self.units@
    }

    /// How many units have been consumed.
    pub closed spec fn pos(&self) -> int {
        self.pos as int
    }

    /// The position never passes the end of the units.
    pub open spec fn wf(&self) -> bool {
        0 <= self.pos() <= self.units().len()
    }

    /// The units that are left to read.
    pub open spec fn rest(&self) -> Seq<T> {
        self.units().skip(self.pos())
    }

    /// A cursor at the start of `units`.
    pub fn new(units: Vec<T>) -> (r: Cursor<T>)
        ensures
            r.wf(),
            r.units() == units@,
            r.pos() == 0,
    {
        Cursor { units, pos: 0 }
    }

    /// The number of units consumed so far.
    pub fn position(&self) -> (r: usize)
        ensures
            r == self.pos(),
    {
        self.pos
    }

    /// True when every unit has been consumed.
    pub fn is_at_end(&self) -> (r: bool)
        requires
            self.wf(),
        ensures
            r == (self.rest().len() == 0),
    {
        self.pos == self.units.len()
    }

    /// The unit `k` places after the position, without consuming anything.
    pub fn peek(&self, k: usize) -> (r: Option<T>)
        requires
            self.wf(),
        ensures
            k < self.rest().len() ==> r == Some(self.rest()[k as int]),
            k >= self.rest().len() ==> r is None,
    {
        if k < self.units.len() - self.pos {
            Some(self.units[self.pos + k])
        } else {
            None
        }
    }

    /// Consumes `n` units.
    pub fn advance(&mut self, n: usize)
        requires
            old(self).wf(),
            n <= old(self).rest().len(),
        ensures
            final(self).wf(),
            final(self).units() == old(self).units(),
            final(self).pos() == old(self).pos() + n,
    {
        let len = self.units.len();
        assert(n <= len - self.pos);
        self.pos = self.pos + n;
    }

    /// Moves the position back (or forward) to `p`, as saved by `position`.
    pub fn set_position(&mut self, p: usize)
        requires
            p <= old(self).units().len(),
        ensures
            final(self).wf(),
            final(self).units() == old(self).units(),
            final(self).pos() == p,
    {
        self.pos = p;
    }
}

} // verus!
