use vstd::prelude::*;

verus! {

/// The number of entries of a rule table: live-neighbour counts 0 through 6.
pub const RULE_TABLE_LEN: usize = 7;

/// A birth/survival rule table indexed by the number of live neighbours.
pub struct SimpleRules {
    /// `survives[n]`: an occupied cell with `n` live neighbours stays occupied.
    pub survives: [bool; 7],
    /// `emerges[n]`: an empty cell with `n` live neighbours becomes occupied.
    pub emerges: [bool; 7],
}

impl SimpleRules {
    /// The next occupancy of a cell with `n` live neighbours, or `None` when
    /// `n` lies outside the table.
    pub open spec fn spec_apply(&self, n: int, alive: bool) -> Option<bool> {
        if 0 <= n < RULE_TABLE_LEN {
            Some(
                if alive {
                    self.survives@[n]
                } else {
                    self.emerges@[n]
                },
            )
        } else {
            None
        }
    }

    /// Looks up the next occupancy of a cell with `n` live neighbours that is
    /// currently occupied (`alive`) or empty.
    pub fn apply(&self, n: usize, alive: bool) -> (r: Option<bool>)
        ensures
            r == self.spec_apply(n as int, alive),
    {
        if n < RULE_TABLE_LEN {
            if alive {
                Some(self.survives[n])
            } else {
                Some(self.emerges[n])
            }
        } else {
            None
        }
    }
}

impl Default for SimpleRules {
    /// Survival at three or five live neighbours, birth at two.
    fn default() -> (r: Self)
        ensures
            forall|n: int| 0 <= n < RULE_TABLE_LEN ==> r.survives@[n] == (n == 3 || n == 5),
            forall|n: int| 0 <= n < RULE_TABLE_LEN ==> r.emerges@[n] == (n == 2),
    {
        SimpleRules {
            survives: [false, false, false, true, false, true, false],
            emerges: [false, false, true, false, false, false, false],
        }
    }
}

} // verus!
