use vstd::prelude::*;

verus! {

/// Relies on rand::random: draws a value from the thread-local generator;
/// nothing is promised about which value comes out.
pub assume_specification<T>[ rand::random::<T> ]() -> (r: T)
    where
        rand::distributions::Standard: rand::distributions::Distribution<T>,
;

/// The state of one cell: whether it is occupied and whether the user marked it.
#[derive(Clone, Copy, Debug, PartialEq, Eq, Structural)]
pub struct UnitData {
    pub inhabited: bool,
    pub marked: bool,
}

/// The base colour class of a cell, before the mark overlay is blended in.
#[derive(Clone, Copy, Debug, PartialEq, Eq, Structural)]
pub enum Shade {
    /// An occupied cell.
    Life,
    /// An empty pentagonal cell.
    PentagonGround,
    /// An empty hexagonal cell.
    Ground,
}

impl UnitData {
    /// An empty, unmarked cell.
    pub fn new() -> (r: Self)
        ensures
            r == (UnitData { inhabited: false, marked: false }),
    {
        Self::empty()
    }

    /// An empty, unmarked cell.
    pub fn empty() -> (r: Self)
        ensures
            r == (UnitData { inhabited: false, marked: false }),
    {
        UnitData { inhabited: false, marked: false }
    }

    pub fn with_added_life(self) -> (r: Self)
        ensures
            r == (UnitData { inhabited: true, ..self }),
    {
        self.with_set_life(true)
    }

    pub fn with_removed_life(self) -> (r: Self)
        ensures
            r == (UnitData { inhabited: false, ..self }),
    {
        self.with_set_life(false)
    }

    pub fn add_life(&mut self)
        ensures
            *final(self) == (UnitData { inhabited: true, ..*old(self) }),
    {
        self.inhabited = true;
    }

    pub fn remove_life(&mut self)
        ensures
            *final(self) == (UnitData { inhabited: false, ..*old(self) }),
    {
        self.inhabited = false;
    }

    pub fn with_set_life(self, inh: bool) -> (r: Self)
        ensures
            r == (UnitData { inhabited: inh, ..self }),
    {
        UnitData { inhabited: inh, marked: self.marked }
    }

    pub fn with_mark(self) -> (r: Self)
        ensures
            r == (UnitData { marked: true, ..self }),
    {
        UnitData { inhabited: self.inhabited, marked: true }
    }

    pub fn with_removed_marked(self) -> (r: Self)
        ensures
            r == (UnitData { marked: false, ..self }),
    {
        UnitData { inhabited: self.inhabited, marked: false }
    }

    pub fn mark(&mut self)
        ensures
            *final(self) == (UnitData { marked: true, ..*old(self) }),
    {
        self.marked = true;
    }

    pub fn unmark(&mut self)
        ensures
            *final(self) == (UnitData { marked: false, ..*old(self) }),
    {
        self.marked = false;
    }

    /// The occupancy that a uniform draw gives at `percent` per cent: the cell
    /// is occupied when the draw, taken modulo 100, falls below `percent`.
    pub fn with_drawn_life(self, draw: u32, percent: u32) -> (r: Self)
        ensures
            r == (UnitData { inhabited: draw % 100 < percent, ..self }),
    {
        self.with_set_life(draw % 100 < percent)
    }

    /// Occupies the cell with a chance of `percent` per cent; a `percent` of
    /// 100 or more always occupies it, 0 never does. The mark is kept.
    pub fn randomize_life(&mut self, percent: u32)
        ensures
            final(self).marked == old(self).marked,
            percent == 0 ==> !final(self).inhabited,
            percent >= 100 ==> final(self).inhabited,
    {
        let draw: u32 = rand::random::<u32>();
        *self = self.with_drawn_life(draw, percent);
    }

    /// The base colour class: occupied cells share one, empty cells are told
    /// apart by whether they are pentagons.
    pub fn shade(&self, is_penta: bool) -> (r: Shade)
        ensures
            r == (if self.inhabited {
                Shade::Life
            } else if is_penta {
                Shade::PentagonGround
            } else {
                Shade::Ground
            }),
    {
        if self.inhabited {
            Shade::Life
        } else if is_penta {
            Shade::PentagonGround
        } else {
            Shade::Ground
        }
    }
}

impl Default for UnitData {
    fn default() -> (r: Self)
        ensures
            r == (UnitData { inhabited: false, marked: false }),
    {
        Self::new()
    }
}

} // verus!
