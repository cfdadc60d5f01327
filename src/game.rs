//! The simulation engine: two generations of cell states over the active
//! tessellation, the neighbour count and the tick between them.
use std::collections::HashMap;
use vstd::prelude::*;
use crate::grid::{
    as_number, cell_level, children, children_of, dec_resolution, disk_of, grid_disk,
    inc_resolution, level_of, root_cell, root_cells, Resolution, ROOT_CELL_COUNT,
};
use crate::pattern::Pattern;
use crate::rules::SimpleRules;
use crate::unit::UnitData;

verus! {

broadcast use vstd::std_specs::hash::group_hash_axioms;

/// The cell states of one generation, keyed by H3 cell index.
pub struct Field(pub HashMap<u64, UnitData>);

impl View for Field {
    type V = Map<u64, UnitData>;

    open spec fn view(&self) -> Map<u64, UnitData> {
        self.0@
    }
}

/// The cells of level `level` that subdivide the root cells.
pub open spec fn subdivision(level: u8) -> Set<u64> {
    Set::new(
        |c: u64|
            exists|k: int| 0 <= k < ROOT_CELL_COUNT && #[trigger] children_of(root_cell(k), level).contains(c),
    )
}

/// The number of occupied cells of `field` among the cells of `disk` other
/// than `center`; cells absent from `field` are not counted.
pub open spec fn live_count(field: Map<u64, UnitData>, center: u64, disk: Seq<u64>) -> nat
    decreases disk.len(),
{
    if disk.len() == 0 {
        0
    } else {
        let c = disk.last();
        live_count(field, center, disk.drop_last()) + if c != center && field.contains_key(c)
            && field[c].inhabited {
            1nat
        } else {
            0nat
        }
    }
}

/// The states of the cells of `disk` other than `center` that `field` holds,
/// in the order of `disk`.
pub open spec fn neighbour_units(field: Map<u64, UnitData>, center: u64, disk: Seq<u64>) -> Seq<
    UnitData,
>
    decreases disk.len(),
{
    if disk.len() == 0 {
        Seq::empty()
    } else {
        let c = disk.last();
        let rest = neighbour_units(field, center, disk.drop_last());
        if c != center && field.contains_key(c) {
            rest.push(field[c])
        } else {
            rest
        }
    }
}

/// The state that `rules` give `data` with `n` live neighbours, or `None`
/// when `n` lies outside the rule table.
pub open spec fn stepped(rules: SimpleRules, data: UnitData, n: int) -> Option<UnitData> {
    match rules.spec_apply(n, data.inhabited) {
        Some(b) => Some(UnitData { inhabited: b, ..data }),
        None => None,
    }
}

/// The live-neighbour count of cell `c` of `present` in its 1-ring.
pub open spec fn ring_count(present: Map<u64, UnitData>, c: u64) -> nat {
    live_count(present, c, disk_of(c))
}

/// The state of cell `c` of `present` one generation later.
pub open spec fn next_unit(rules: SimpleRules, present: Map<u64, UnitData>, c: u64) -> UnitData {
    match stepped(rules, present[c], ring_count(present, c) as int) {
        Some(u) => u,
        None => present[c],
    }
}

/// Every cell of `cells` has a live-neighbour count inside the rule table.
pub open spec fn fits_rules(present: Map<u64, UnitData>, cells: Seq<u64>) -> bool {
    forall|i: int|
        0 <= i < cells.len() ==> #[trigger] ring_count(present, cells[i])
            < crate::rules::RULE_TABLE_LEN
}

/// `future` after the next state of each cell of `order` was written into
/// it, one cell after the other in that order.
pub open spec fn tick_in_order(
    rules: SimpleRules,
    present: Map<u64, UnitData>,
    future: Map<u64, UnitData>,
    order: Seq<u64>,
) -> Map<u64, UnitData>
    decreases order.len(),
{
    if order.len() == 0 {
        future
    } else {
        let c = order.last();
        tick_in_order(rules, present, future, order.drop_last()).insert(
            c,
            next_unit(rules, present, c),
        )
    }
}

/// What writing the cells of `order` in turn leaves at each cell.
pub proof fn lemma_tick_in_order_at(
    rules: SimpleRules,
    present: Map<u64, UnitData>,
    future: Map<u64, UnitData>,
    order: Seq<u64>,
    c: u64,
)
    ensures
        tick_in_order(rules, present, future, order).contains_key(c) <==> (future.contains_key(c)
            || order.contains(c)),
        order.contains(c) ==> tick_in_order(rules, present, future, order)[c] == next_unit(
            rules,
            present,
            c,
        ),
        !order.contains(c) && future.contains_key(c) ==> tick_in_order(
            rules,
            present,
            future,
            order,
        )[c] == future[c],
    decreases order.len(),
{
    if order.len() > 0 {
        let rest = order.drop_last();
        lemma_tick_in_order_at(rules, present, future, rest, c);
        if order.contains(c) && c != order.last() {
            let j = choose|j: int| 0 <= j < order.len() && order[j] == c;
            assert(rest[j] == c);
        }
        if rest.contains(c) {
            let j = choose|j: int| 0 <= j < rest.len() && rest[j] == c;
            assert(order[j] == c);
        }
        assert(order[order.len() - 1] == order.last());
    }
}

/// A tick does not depend on the order in which the cells are visited: two
/// orders over the same cells leave the same future generation.
pub proof fn lemma_tick_order_independent(
    rules: SimpleRules,
    present: Map<u64, UnitData>,
    future: Map<u64, UnitData>,
    order_a: Seq<u64>,
    order_b: Seq<u64>,
)
    requires
        order_a.to_set() == order_b.to_set(),
    ensures
        tick_in_order(rules, present, future, order_a) == tick_in_order(
            rules,
            present,
            future,
            order_b,
        ),
{
    let ta = tick_in_order(rules, present, future, order_a);
    let tb = tick_in_order(rules, present, future, order_b);
    assert forall|c: u64| #[trigger] ta.contains_key(c) == tb.contains_key(c) by {
        lemma_tick_in_order_at(rules, present, future, order_a, c);
        lemma_tick_in_order_at(rules, present, future, order_b, c);
        assert(order_a.to_set().contains(c) == order_a.contains(c));
        assert(order_b.to_set().contains(c) == order_b.contains(c));
    }
    assert forall|c: u64| #[trigger] ta.contains_key(c) implies ta[c] == tb[c] by {
        lemma_tick_in_order_at(rules, present, future, order_a, c);
        lemma_tick_in_order_at(rules, present, future, order_b, c);
        assert(order_a.to_set().contains(c) == order_a.contains(c));
        assert(order_b.to_set().contains(c) == order_b.contains(c));
    }
    assert(ta =~= tb);
}

impl Field {
    /// The number of occupied cells of this field among the cells of `disk`
    /// other than `center`; cells that the field does not hold are skipped.
    pub fn count_live_neighbours(&self, center: u64, disk: &Vec<u64>) -> (n: usize)
        ensures
            n == live_count(self@, center, disk@),
    {
        let mut n: usize = 0;
        for i in 0..disk.len()
            invariant
                n == live_count(self@, center, disk@.take(i as int)),
                n <= i,
        {
            let c = disk[i];
            proof {
                assert(disk@.take(i + 1).drop_last() == disk@.take(i as int));
            }
            if c != center {
                match self.0.get(&c) {
                    Some(u) => {
                        if u.inhabited {
                            n = n + 1;
                        }
                    },
                    None => {},
                }
            }
        }
        proof {
            assert(disk@.take(disk@.len() as int) == disk@);
        }
        n
    }
}

/// One cell of a field, seen together with the field it belongs to.
pub struct Unit<'a> {
    pub backref: &'a Field,
    pub idx: u64,
    pub data: UnitData,
}

impl<'a> Unit<'a> {
    /// The cell states of the field that the cell belongs to.
    pub open spec fn field(&self) -> Map<u64, UnitData> {
        self.backref@
    }

    /// The states of the cell's neighbours that the field holds, in the
    /// order of the 1-ring enumeration.
    pub fn get_neighbours(&self) -> (r: Vec<UnitData>)
        ensures
            r@ == neighbour_units(self.field(), self.idx, disk_of(self.idx)),
    {
        let disk = grid_disk(self.idx);
        let mut r: Vec<UnitData> = Vec::new();
        for i in 0..disk.len()
            invariant
                disk@ == disk_of(self.idx),
                r@ == neighbour_units(self.field(), self.idx, disk@.take(i as int)),
        {
            let c = disk[i];
            proof {
                assert(disk@.take(i + 1).drop_last() == disk@.take(i as int));
            }
            if c != self.idx {
                match self.backref.0.get(&c) {
                    Some(u) => r.push(*u),
                    None => {},
                }
            }
        }
        proof {
            assert(disk@.take(disk@.len() as int) == disk@);
        }
        r
    }

    /// The cell's state one generation later under `rules`, or `None` when
    /// its live-neighbour count lies outside the rule table.
    pub fn transform(&self, rules: &SimpleRules) -> (r: Option<UnitData>)
        ensures
            r == stepped(*rules, self.data, live_count(self.field(), self.idx, disk_of(self.idx)) as int),
    {
        let disk = grid_disk(self.idx);
        let n = self.backref.count_live_neighbours(self.idx, &disk);
        match rules.apply(n, self.data.inhabited) {
            Some(b) => Some(self.data.with_set_life(b)),
            None => None,
        }
    }
}

/// The abstract state of a game.
pub struct GameView {
    pub present: Map<u64, UnitData>,
    pub future: Map<u64, UnitData>,
    pub cells: Seq<u64>,
    pub resolution: Resolution,
}

impl GameView {
    /// Both generations hold exactly the active cells, which are listed once
    /// each and all lie at the game's resolution.
    pub open spec fn wf(self) -> bool {
        &&& self.present.dom() == self.cells.to_set()
        &&& self.future.dom() == self.cells.to_set()
        &&& self.cells.no_duplicates()
        &&& forall|i: int|
            0 <= i < self.cells.len() ==> cell_level(#[trigger] self.cells[i]) == level_of(
                self.resolution,
            )
    }

    /// The two generations exchanged.
    pub open spec fn swapped(self) -> GameView {
        GameView {
            present: self.future,
            future: self.present,
            cells: self.cells,
            resolution: self.resolution,
        }
    }

    /// Every present cell emptied, its mark kept.
    pub open spec fn killed(self) -> GameView {
        GameView {
            present: Map::new(
                |c: u64| self.present.contains_key(c),
                |c: u64| UnitData { inhabited: false, ..self.present[c] },
            ),
            ..self
        }
    }

    /// Every present cell unmarked, its occupancy kept.
    pub open spec fn unmarked(self) -> GameView {
        GameView {
            present: Map::new(
                |c: u64| self.present.contains_key(c),
                |c: u64| UnitData { marked: false, ..self.present[c] },
            ),
            ..self
        }
    }

    /// The present state of cell `c` replaced by `u`.
    pub open spec fn updated(self, c: u64, u: UnitData) -> GameView {
        GameView { present: self.present.insert(c, u), ..self }
    }

    /// The next generation under `rules` written into the future one, cell
    /// after cell in the order of the active cells.
    pub open spec fn ticked(self, rules: SimpleRules) -> GameView {
        GameView { future: tick_in_order(rules, self.present, self.future, self.cells), ..self }
    }

    /// The cells of the present generation that are occupied.
    pub open spec fn occupied(self) -> Set<u64> {
        self.present.dom().filter(|c: u64| self.present[c].inhabited)
    }

    /// Every present cell listed in `cells` occupied, its mark kept.
    pub open spec fn stamped(self, cells: Seq<u64>) -> GameView {
        GameView {
            present: Map::new(
                |c: u64| self.present.contains_key(c),
                |c: u64|
                    if cells.contains(c) {
                        UnitData { inhabited: true, ..self.present[c] }
                    } else {
                        self.present[c]
                    },
            ),
            ..self
        }
    }

    /// Both generations hold the same unmarked states, drawn at `percent`
    /// per cent: all empty at 0, all occupied at 100 or more.
    pub open spec fn is_seeded(self, percent: u32) -> bool {
        forall|c: u64| #[trigger]
            self.present.contains_key(c) ==> {
                &&& self.future[c] == self.present[c]
                &&& !self.present[c].marked
                &&& percent == 0 ==> !self.present[c].inhabited
                &&& percent >= 100 ==> self.present[c].inhabited
            }
    }

    /// A game rebuilt at `resolution`: every cell of the subdivision, with
    /// states drawn at `percent` per cent.
    pub open spec fn is_rebuilt(self, resolution: Resolution, percent: u32) -> bool {
        &&& self.wf()
        &&& self.resolution == resolution
        &&& self.cells.to_set() == subdivision(level_of(resolution) as u8)
        &&& self.is_seeded(percent)
    }

    /// A fresh game at `resolution`: every cell of the subdivision, empty and
    /// unmarked in both generations.
    pub open spec fn is_fresh(self, resolution: Resolution) -> bool {
        &&& self.wf()
        &&& self.resolution == resolution
        &&& self.cells.to_set() == subdivision(level_of(resolution) as u8)
        &&& forall|c: u64| #[trigger]
            self.present.contains_key(c) ==> self.present[c] == UnitData {
                inhabited: false,
                marked: false,
            }
        &&& forall|c: u64| #[trigger]
            self.future.contains_key(c) ==> self.future[c] == UnitData {
                inhabited: false,
                marked: false,
            }
    }
}

/// The chance, in per cent, with which a reseeded cell is occupied.
pub const LIFE_PERCENT: u32 = 50;

/// Two consecutive swaps of the generations restore the game.
pub proof fn lemma_swap_twice(v: GameView)
    ensures
        v.swapped().swapped() == v,
{
}

/// Emptying every cell twice leaves the game as emptying it once does: all
/// cells empty, the marks and the future generation untouched.
pub proof fn lemma_kill_idempotent(v: GameView)
    ensures
        v.killed().killed() == v.killed(),
        v.killed().present.dom() == v.present.dom(),
        forall|c: u64| #[trigger]
            v.killed().present.contains_key(c) ==> !v.killed().present[c].inhabited
                && v.killed().present[c].marked == v.present[c].marked,
        v.killed().future == v.future,
{
    assert(v.killed().killed().present =~= v.killed().present);
}

/// Stamping cells onto an emptied game occupies exactly the stamped cells
/// that the game holds.
pub proof fn lemma_stamp_round_trip(v: GameView, cells: Seq<u64>)
    ensures
        v.killed().stamped(cells).occupied() == cells.to_set().intersect(v.present.dom()),
{
    assert forall|c: u64| #[trigger] v.killed().stamped(cells).occupied().contains(c)
        == cells.to_set().intersect(v.present.dom()).contains(c) by {
        assert(cells.to_set().contains(c) == cells.contains(c));
    }
    assert(v.killed().stamped(cells).occupied() =~= cells.to_set().intersect(v.present.dom()));
}

/// Stamping a pattern at `center` onto an emptied game, then reading back
/// the occupied cells, gives exactly the pattern's footprint moved onto
/// `center`, when that footprint lies inside the active field.
pub proof fn lemma_pattern_stamp_round_trip(v: GameView, pattern: Pattern, center: u64)
    requires
        pattern.spec_cells(center).to_set().subset_of(v.present.dom()),
    ensures
        v.killed().stamped(pattern.spec_cells(center)).occupied() == pattern.spec_cells(
            center,
        ).to_set(),
{
    let cells = pattern.spec_cells(center);
    lemma_stamp_round_trip(v, cells);
    assert(cells.to_set().intersect(v.present.dom()) =~= cells.to_set());
}

/// After a change of resolution no cell of the former field remains, and
/// the new field holds one cell for each cell of the subdivision.
pub proof fn lemma_resolution_change_resets(before: GameView, after: GameView)
    requires
        before.wf(),
        after.wf(),
        after.cells.to_set() == subdivision(level_of(after.resolution) as u8),
        after.resolution != before.resolution,
    ensures
        forall|c: u64| #[trigger] before.present.contains_key(c) ==> !after.present.contains_key(c),
        after.present.dom().len() == after.cells.len(),
        after.cells.len() == subdivision(level_of(after.resolution) as u8).len(),
{
    assert forall|c: u64| #[trigger] before.present.contains_key(c) implies !after.present.contains_key(c) by {
        assert(before.cells.to_set().contains(c));
        let i = choose|i: int| 0 <= i < before.cells.len() && before.cells[i] == c;
        if after.present.contains_key(c) {
            assert(after.cells.to_set().contains(c));
            let j = choose|j: int| 0 <= j < after.cells.len() && after.cells[j] == c;
            assert(cell_level(before.cells[i]) == level_of(before.resolution));
            assert(cell_level(after.cells[j]) == level_of(after.resolution));
        }
    }
    after.cells.unique_seq_to_set();
}

/// The first `i + 1` items of `s` hold `c` when the first `i` do or item `i` is `c`.
proof fn lemma_take_one_more(s: Seq<u64>, i: int, c: u64)
    requires
        0 <= i < s.len(),
    ensures
        s.take(i + 1).contains(c) <==> (s.take(i).contains(c) || s[i] == c),
{
    assert(s.take(i + 1) == s.take(i).push(s[i]));
    if s.take(i + 1).contains(c) && s[i] != c {
        let j = choose|j: int| 0 <= j < i + 1 && #[trigger] s.take(i + 1)[j] == c;
        assert(s.take(i)[j] == c);
    }
    if s.take(i).contains(c) {
        let j = choose|j: int| 0 <= j < i && #[trigger] s.take(i)[j] == c;
        assert(s.take(i + 1)[j] == c);
    }
    if s[i] == c {
        assert(s.take(i + 1)[i] == c);
    }
}

/// The simulation: the present generation, the future one that a tick
/// fills, the active cells and their resolution.
pub struct Game {
    present: Field,
    future: Field,
    indecies: Vec<u64>,
    resolution: Resolution,
}

impl View for Game {
    type V = GameView;

    closed spec fn view(&self) -> GameView {
        GameView {
            present: self.present@,
            future: self.future@,
            cells: self.indecies@,
            resolution: self.resolution,
        }
    }
}

impl Game {
    /// A game over every cell at `resolution`, all of them empty and unmarked.
    pub fn new(resolution: &Resolution) -> (g: Game)
        ensures
            g@.is_fresh(*resolution),
    {
        let roots = root_cells();
        let level = as_number(resolution) as u8;
        let mut present: HashMap<u64, UnitData> = HashMap::new();
        let mut future: HashMap<u64, UnitData> = HashMap::new();
        let mut cells: Vec<u64> = Vec::new();
        let ghost empty = UnitData { inhabited: false, marked: false };
        for k in 0..roots.len()
            invariant
                roots@ == Seq::new(ROOT_CELL_COUNT as nat, |k: int| root_cell(k)),
                level == level_of(*resolution),
                empty == (UnitData { inhabited: false, marked: false }),
                present@.dom() == cells@.to_set(),
                future@.dom() == cells@.to_set(),
                cells@.no_duplicates(),
                forall|i: int| 0 <= i < cells@.len() ==> cell_level(#[trigger] cells@[i]) == level,
                forall|c: u64| #[trigger] present@.contains_key(c) ==> present@[c] == empty,
                forall|c: u64| #[trigger] future@.contains_key(c) ==> future@[c] == empty,
                forall|c: u64| cells@.contains(c) ==> subdivision(level).contains(c),
                forall|kk: int, c: u64|
                    0 <= kk < k && #[trigger] children_of(root_cell(kk), level).contains(c)
                        ==> cells@.contains(c),
        {
            let kids = children(roots[k], level);
            for m in 0..kids.len()
                invariant
                    roots@ == Seq::new(ROOT_CELL_COUNT as nat, |k: int| root_cell(k)),
                    0 <= k < roots@.len(),
                    kids@ == children_of(root_cell(k as int), level),
                    forall|i: int| 0 <= i < kids@.len() ==> cell_level(#[trigger] kids@[i]) == level,
                    level == level_of(*resolution),
                    empty == (UnitData { inhabited: false, marked: false }),
                    present@.dom() == cells@.to_set(),
                    future@.dom() == cells@.to_set(),
                    cells@.no_duplicates(),
                    forall|i: int| 0 <= i < cells@.len() ==> cell_level(#[trigger] cells@[i]) == level,
                    forall|c: u64| #[trigger] present@.contains_key(c) ==> present@[c] == empty,
                    forall|c: u64| #[trigger] future@.contains_key(c) ==> future@[c] == empty,
                    forall|c: u64| cells@.contains(c) ==> subdivision(level).contains(c),
                    forall|kk: int, c: u64|
                        0 <= kk < k && #[trigger] children_of(root_cell(kk), level).contains(c)
                            ==> cells@.contains(c),
                    forall|mm: int| 0 <= mm < m ==> cells@.contains(#[trigger] kids@[mm]),
            {
                let c = kids[m];
                proof {
                    assert(children_of(root_cell(k as int), level).contains(c));
                    assert(subdivision(level).contains(c));
                }
                if !present.contains_key(&c) {
                    let ghost (present_before, future_before) = (present@, future@);
                    let fresh = UnitData::new();
                    present.insert(c, fresh);
                    future.insert(c, fresh);
                    proof {
                        assert forall|x: u64| #[trigger] present@.contains_key(x) implies present@[x] == empty by {
                            if x != c {
                                assert(present_before.contains_key(x));
                            }
                        }
                        assert forall|x: u64| #[trigger] future@.contains_key(x) implies future@[x] == empty by {
                            if x != c {
                                assert(future_before.contains_key(x));
                            }
                        }
                    }
                    let ghost before = cells@;
                    proof {
                        cells@.lemma_push_to_set_commute(c);
                        assert(!cells@.contains(c));
                    }
                    cells.push(c);
                    proof {
                        assert(cells@ == before.push(c));
                        assert forall|x: u64| before.contains(x) implies cells@.contains(x) by {
                            let j = choose|j: int| 0 <= j < before.len() && before[j] == x;
                            assert(cells@[j] == x);
                        }
                        assert forall|x: u64| cells@.contains(x) implies subdivision(level).contains(x) by {
                            if x != c {
                                let j = choose|j: int| 0 <= j < cells@.len() && cells@[j] == x;
                                assert(before[j] == x);
                            }
                        }
                        assert(cells@[cells@.len() - 1] == c);
                    }
                } else {
                    assert(cells@.to_set().contains(c));
                }
            }
            proof {
                assert forall|kk: int, c: u64|
                    0 <= kk < k + 1 && #[trigger] children_of(root_cell(kk), level).contains(c)
                    implies cells@.contains(c) by {
                    if kk == k {
                        let j = choose|j: int| 0 <= j < kids@.len() && kids@[j] == c;
                        assert(cells@.contains(kids@[j]));
                    }
                }
            }
        }
        proof {
            assert forall|c: u64| subdivision(level).contains(c) implies cells@.to_set().contains(c) by {
                let kk = choose|kk: int| 0 <= kk < ROOT_CELL_COUNT && #[trigger] children_of(root_cell(kk), level).contains(c);
                assert(cells@.contains(c));
            }
            assert(cells@.to_set() =~= subdivision(level));
        }
        Game {
            present: Field(present),
            future: Field(future),
            indecies: cells,
            resolution: *resolution,
        }
    }

    /// The active cells, each listed once.
    pub fn indecies(&self) -> (r: &Vec<u64>)
        ensures
            r@ == self@.cells,
    {
        &self.indecies
    }

    /// The resolution of the active cells.
    pub fn resolution(&self) -> (r: Resolution)
        ensures
            r == self@.resolution,
    {
        self.resolution
    }

    /// Reseeds the game: every cell, in both generations, is replaced by an
    /// unmarked cell that is occupied with a chance of `percent` per cent.
    pub fn spawn_life(&mut self, percent: u32)
        requires
            old(self)@.wf(),
        ensures
            final(self)@.wf(),
            final(self)@.cells == old(self)@.cells,
            final(self)@.resolution == old(self)@.resolution,
            final(self)@.is_seeded(percent),
    {
        let n_cells = self.indecies.len();
        for i in 0..n_cells
            invariant
                n_cells == old(self)@.cells.len(),
                old(self)@.wf(),
                self@.cells == old(self)@.cells,
                self@.resolution == old(self)@.resolution,
                self@.present.dom() == old(self)@.present.dom(),
                self@.future.dom() == old(self)@.future.dom(),
                forall|c: u64| #[trigger] self@.present.contains_key(c)
                    && old(self)@.cells.take(i as int).contains(c) ==> {
                        &&& self@.future[c] == self@.present[c]
                        &&& !self@.present[c].marked
                        &&& percent == 0 ==> !self@.present[c].inhabited
                        &&& percent >= 100 ==> self@.present[c].inhabited
                    },
        {
            let c = self.indecies[i];
            proof {
                assert(old(self)@.cells.to_set().contains(c));
            }
            let mut u = UnitData::new();
            u.randomize_life(percent);
            let ghost (present_before, future_before) = (self@.present, self@.future);
            self.present.0.insert(c, u);
            self.future.0.insert(c, u);
            proof {
                assert forall|x: u64| #[trigger] self@.present.contains_key(x)
                    && old(self)@.cells.take(i + 1).contains(x) implies {
                        &&& self@.future[x] == self@.present[x]
                        &&& !self@.present[x].marked
                        &&& percent == 0 ==> !self@.present[x].inhabited
                        &&& percent >= 100 ==> self@.present[x].inhabited
                    } by {
                    lemma_take_one_more(old(self)@.cells, i as int, x);
                    if x != c {
                        assert(present_before.contains_key(x));
                    }
                }
                assert(self@.present.dom() =~= old(self)@.present.dom());
                assert(self@.future.dom() =~= old(self)@.future.dom());
            }
        }
        proof {
            assert(old(self)@.cells.take(n_cells as int) == old(self)@.cells);
            assert forall|c: u64| #[trigger] self@.present.contains_key(c) implies old(self)@.cells.contains(c) by {
                assert(old(self)@.cells.to_set().contains(c));
            }
        }
    }

    /// The game reseeded with cells occupied at `LIFE_PERCENT` per cent.
    pub fn with_spawned_life(self) -> (g: Self)
        requires
            self@.wf(),
        ensures
            g@.wf(),
            g@.cells == self@.cells,
            g@.resolution == self@.resolution,
            g@.is_seeded(LIFE_PERCENT),
    {
        let mut g = self;
        g.spawn_life(LIFE_PERCENT);
        g
    }

    /// Discards the game and rebuilds it over every cell at `resolution`,
    /// reseeded at `LIFE_PERCENT` per cent.
    pub fn set_resolution(&mut self, resolution: &Resolution)
        ensures
            final(self)@.is_rebuilt(*resolution, LIFE_PERCENT),
    {
        *self = Game::new(resolution).with_spawned_life();
    }

    /// Rebuilds the game at the next coarser resolution; at the coarsest
    /// resolution nothing changes.
    pub fn decrease_fineness(&mut self)
        ensures
            level_of(old(self)@.resolution) == 0 ==> final(self)@ == old(self)@,
            level_of(old(self)@.resolution) > 0 ==> final(self)@.is_rebuilt(
                final(self)@.resolution,
                LIFE_PERCENT,
            ) && level_of(final(self)@.resolution) + 1 == level_of(old(self)@.resolution),
    {
        if let Some(resolution) = dec_resolution(&self.resolution) {
            self.set_resolution(&resolution);
        }
    }

    /// Rebuilds the game at the next finer resolution; at the finest
    /// resolution nothing changes.
    pub fn increase_fineness(&mut self)
        ensures
            level_of(old(self)@.resolution) == crate::grid::MAX_LEVEL ==> final(self)@ == old(self)@,
            level_of(old(self)@.resolution) < crate::grid::MAX_LEVEL ==> final(self)@.is_rebuilt(
                final(self)@.resolution,
                LIFE_PERCENT,
            ) && level_of(final(self)@.resolution) == level_of(old(self)@.resolution) + 1,
    {
        if let Some(resolution) = inc_resolution(&self.resolution) {
            self.set_resolution(&resolution);
        }
    }

    /// Occupies every cell of `cells` that the present generation holds;
    /// cells outside the active field are skipped.
    pub fn stamp(&mut self, cells: &Vec<u64>)
        requires
            old(self)@.wf(),
        ensures
            final(self)@ == old(self)@.stamped(cells@),
            final(self)@.wf(),
    {
        for i in 0..cells.len()
            invariant
                old(self)@.wf(),
                self@.cells == old(self)@.cells,
                self@.future == old(self)@.future,
                self@.resolution == old(self)@.resolution,
                self@.present.dom() == old(self)@.present.dom(),
                forall|c: u64| #[trigger] self@.present.contains_key(c) ==> self@.present[c] == (
                    if cells@.take(i as int).contains(c) {
                        UnitData { inhabited: true, ..old(self)@.present[c] }
                    } else {
                        old(self)@.present[c]
                    }),
        {
            let c = cells[i];
            let ghost before = self@.present;
            match self.present.0.get(&c) {
                Some(u) => {
                    let v = u.with_added_life();
                    self.present.0.insert(c, v);
                },
                None => {},
            }
            proof {
                assert forall|x: u64| #[trigger] self@.present.contains_key(x) implies self@.present[x] == (
                    if cells@.take(i + 1).contains(x) {
                        UnitData { inhabited: true, ..old(self)@.present[x] }
                    } else {
                        old(self)@.present[x]
                    }) by {
                    lemma_take_one_more(cells@, i as int, x);
                    if x != c {
                        assert(before.contains_key(x));
                    } else {
                        assert(cells@.take(i + 1).contains(x));
                    }
                }
                assert(self@.present.dom() =~= old(self)@.present.dom());
            }
        }
        proof {
            assert(cells@.take(cells@.len() as int) == cells@);
            assert(self@.present =~= old(self)@.stamped(cells@).present);
        }
    }

    /// Stamps `pattern` centred on `center`: every cell of its footprint there
    /// that the present generation holds becomes occupied.
    pub fn stamp_pattern(&mut self, pattern: &Pattern, center: u64)
        requires
            old(self)@.wf(),
        ensures
            final(self)@ == old(self)@.stamped(pattern.spec_cells(center)),
            final(self)@.wf(),
    {
        let cells = pattern.as_cells(center);
        self.stamp(&cells);
    }

    /// Computes the next generation from the present one into the future one.
    /// Each cell's state is taken from the present generation alone, so the
    /// order in which cells are visited does not matter. When some cell's
    /// live-neighbour count lies outside the rule table, nothing is written
    /// and `false` is returned.
    pub fn next_tick(&mut self, rules: &SimpleRules) -> (done: bool)
        requires
            old(self)@.wf(),
        ensures
            final(self)@.wf(),
            done == fits_rules(old(self)@.present, old(self)@.cells),
            done ==> final(self)@ == old(self)@.ticked(*rules),
            done ==> forall|c: u64| #[trigger]
                old(self)@.present.contains_key(c) ==> {
                    &&& final(self)@.future[c] == next_unit(*rules, old(self)@.present, c)
                    &&& rules.spec_apply(
                        ring_count(old(self)@.present, c) as int,
                        old(self)@.present[c].inhabited,
                    ) == Some(final(self)@.future[c].inhabited)
                    &&& final(self)@.future[c].marked == old(self)@.present[c].marked
                },
            !done ==> final(self)@ == old(self)@,
    {
        let n_cells = self.indecies.len();
        let mut next: Vec<UnitData> = Vec::new();
        for i in 0..n_cells
            invariant
                n_cells == self@.cells.len(),
                self@ == old(self)@,
                self@.wf(),
                next@.len() == i,
                forall|j: int| 0 <= j < i ==> ring_count(self@.present, #[trigger] self@.cells[j]) < crate::rules::RULE_TABLE_LEN,
                forall|j: int| 0 <= j < i ==> #[trigger] next@[j] == next_unit(*rules, self@.present, self@.cells[j]),
        {
            let c = self.indecies[i];
            proof {
                assert(self@.cells.to_set().contains(c));
            }
            let data = *self.present.0.get(&c).unwrap();
            let unit = Unit { backref: &self.present, idx: c, data };
            match unit.transform(rules) {
                Some(u) => next.push(u),
                None => {
                    return false;
                },
            }
        }
        let ghost start = self@;
        for i in 0..n_cells
            invariant
                n_cells == self@.cells.len(),
                start == old(self)@,
                start.wf(),
                next@.len() == n_cells,
                forall|j: int| 0 <= j < n_cells ==> #[trigger] next@[j] == next_unit(*rules, start.present, start.cells[j]),
                self@.present == start.present,
                self@.cells == start.cells,
                self@.resolution == start.resolution,
                self@.future == tick_in_order(*rules, start.present, start.future, start.cells.take(i as int)),
        {
            let c = self.indecies[i];
            proof {
                assert(start.cells.take(i + 1).drop_last() == start.cells.take(i as int));
                assert(start.cells.take(i + 1).last() == c);
            }
            self.future.0.insert(c, next[i]);
        }
        proof {
            assert(start.cells.take(n_cells as int) == start.cells);
            assert(self@ == old(self)@.ticked(*rules));
            assert forall|c: u64| #[trigger] self@.future.contains_key(c) == start.cells.to_set().contains(c) by {
                lemma_tick_in_order_at(*rules, start.present, start.future, start.cells, c);
            }
            assert(self@.future.dom() =~= start.cells.to_set());
            assert forall|c: u64| #[trigger] start.present.contains_key(c) implies {
                &&& self@.future[c] == next_unit(*rules, start.present, c)
                &&& rules.spec_apply(ring_count(start.present, c) as int, start.present[c].inhabited)
                    == Some(self@.future[c].inhabited)
                &&& self@.future[c].marked == start.present[c].marked
            } by {
                lemma_tick_in_order_at(*rules, start.present, start.future, start.cells, c);
                assert(start.cells.to_set().contains(c));
                let j = choose|j: int| 0 <= j < start.cells.len() && start.cells[j] == c;
                assert(ring_count(start.present, start.cells[j]) < crate::rules::RULE_TABLE_LEN);
            }
        }
        true
    }

    /// Exchanges the present and the future generation.
    pub fn swap_buffers(&mut self)
        requires
            old(self)@.wf(),
        ensures
            final(self)@ == old(self)@.swapped(),
            final(self)@.wf(),
    {
        std::mem::swap(&mut self.present, &mut self.future);
    }

    /// Empties every present cell; marks, the future generation and the
    /// resolution are left as they are.
    pub fn kill_everything(&mut self)
        requires
            old(self)@.wf(),
        ensures
            final(self)@ == old(self)@.killed(),
            final(self)@.wf(),
    {
        let n_cells = self.indecies.len();
        for i in 0..n_cells
            invariant
                n_cells == old(self)@.cells.len(),
                old(self)@.wf(),
                self@.cells == old(self)@.cells,
                self@.future == old(self)@.future,
                self@.resolution == old(self)@.resolution,
                self@.present.dom() == old(self)@.present.dom(),
                forall|c: u64| #[trigger] self@.present.contains_key(c) ==> self@.present[c] == (
                    if old(self)@.cells.take(i as int).contains(c) {
                        UnitData { inhabited: false, ..old(self)@.present[c] }
                    } else {
                        old(self)@.present[c]
                    }),
        {
            let c = self.indecies[i];
            proof {
                assert(old(self)@.cells.to_set().contains(c));
            }
            let u = *self.present.0.get(&c).unwrap();
            let ghost before = self@.present;
            self.present.0.insert(c, u.with_removed_life());
            proof {
                assert forall|x: u64| #[trigger] self@.present.contains_key(x) implies self@.present[x] == (
                    if old(self)@.cells.take(i + 1).contains(x) {
                        UnitData { inhabited: false, ..old(self)@.present[x] }
                    } else {
                        old(self)@.present[x]
                    }) by {
                    lemma_take_one_more(old(self)@.cells, i as int, x);
                    if x != c {
                        assert(before.contains_key(x));
                    } else {
                        assert(old(self)@.cells.take(i + 1).contains(x));
                    }
                }
                assert(self@.present.dom() =~= old(self)@.present.dom());
            }
        }
        proof {
            assert(old(self)@.cells.take(n_cells as int) == old(self)@.cells);
            assert forall|c: u64| #[trigger] self@.present.contains_key(c) implies old(self)@.cells.contains(c) by {
                assert(old(self)@.cells.to_set().contains(c));
            }
            assert(self@.present =~= old(self)@.killed().present);
        }
    }

    /// Unmarks every present cell; occupancy is left as it is.
    pub fn remove_marks(&mut self)
        requires
            old(self)@.wf(),
        ensures
            final(self)@ == old(self)@.unmarked(),
            final(self)@.wf(),
    {
        let n_cells = self.indecies.len();
        for i in 0..n_cells
            invariant
                n_cells == old(self)@.cells.len(),
                old(self)@.wf(),
                self@.cells == old(self)@.cells,
                self@.future == old(self)@.future,
                self@.resolution == old(self)@.resolution,
                self@.present.dom() == old(self)@.present.dom(),
                forall|c: u64| #[trigger] self@.present.contains_key(c) ==> self@.present[c] == (
                    if old(self)@.cells.take(i as int).contains(c) {
                        UnitData { marked: false, ..old(self)@.present[c] }
                    } else {
                        old(self)@.present[c]
                    }),
        {
            let c = self.indecies[i];
            proof {
                assert(old(self)@.cells.to_set().contains(c));
            }
            let u = *self.present.0.get(&c).unwrap();
            let ghost before = self@.present;
            self.present.0.insert(c, u.with_removed_marked());
            proof {
                assert forall|x: u64| #[trigger] self@.present.contains_key(x) implies self@.present[x] == (
                    if old(self)@.cells.take(i + 1).contains(x) {
                        UnitData { marked: false, ..old(self)@.present[x] }
                    } else {
                        old(self)@.present[x]
                    }) by {
                    lemma_take_one_more(old(self)@.cells, i as int, x);
                    if x != c {
                        assert(before.contains_key(x));
                    } else {
                        assert(old(self)@.cells.take(i + 1).contains(x));
                    }
                }
                assert(self@.present.dom() =~= old(self)@.present.dom());
            }
        }
        proof {
            assert(old(self)@.cells.take(n_cells as int) == old(self)@.cells);
            assert forall|c: u64| #[trigger] self@.present.contains_key(c) implies old(self)@.cells.contains(c) by {
                assert(old(self)@.cells.to_set().contains(c));
            }
            assert(self@.present =~= old(self)@.unmarked().present);
        }
    }

    /// Unmarks cell `index`; a cell outside the active field is ignored.
    pub fn unmark_unit(&mut self, index: u64)
        requires
            old(self)@.wf(),
        ensures
            final(self)@.wf(),
            old(self)@.present.contains_key(index) ==> final(self)@ == old(self)@.updated(
                index,
                UnitData { marked: false, ..old(self)@.present[index] },
            ),
            !old(self)@.present.contains_key(index) ==> final(self)@ == old(self)@,
    {
        match self.present.0.get(&index) {
            Some(u) => {
                let v = u.with_removed_marked();
                self.present.0.insert(index, v);
                proof {
                    assert(self@.present.dom() =~= old(self)@.present.dom());
                }
            },
            None => {},
        }
    }

    /// Marks cell `index`; a cell outside the active field is ignored.
    pub fn mark_unit(&mut self, index: u64)
        requires
            old(self)@.wf(),
        ensures
            final(self)@.wf(),
            old(self)@.present.contains_key(index) ==> final(self)@ == old(self)@.updated(
                index,
                UnitData { marked: true, ..old(self)@.present[index] },
            ),
            !old(self)@.present.contains_key(index) ==> final(self)@ == old(self)@,
    {
        match self.present.0.get(&index) {
            Some(u) => {
                let v = u.with_mark();
                self.present.0.insert(index, v);
                proof {
                    assert(self@.present.dom() =~= old(self)@.present.dom());
                }
            },
            None => {},
        }
    }

    /// The present state of cell `index`, or `None` for a cell outside the
    /// active field.
    pub fn get_unit(&self, index: u64) -> (r: Option<&UnitData>)
        ensures
            match r {
                Some(u) => self@.present.contains_key(index) && *u == self@.present[index],
                None => !self@.present.contains_key(index),
            },
    {
        self.present.0.get(&index)
    }

    /// The present state of cell `index` for editing in place, or `None` for
    /// a cell outside the active field.
    pub fn get_mut_unit(&mut self, index: &u64) -> (r: Option<&mut UnitData>)
        ensures
            match r {
                Some(u) => {
                    &&& old(self)@.present.contains_key(*index)
                    &&& *u == old(self)@.present[*index]
                    &&& final(self)@ == old(self)@.updated(*index, *final(u))
                },
                None => !old(self)@.present.contains_key(*index) && final(self)@ == old(self)@,
            },
    {
        match self.present.0.entry(*index) {
            std::collections::hash_map::Entry::Occupied(e) => Some(e.into_mut()),
            std::collections::hash_map::Entry::Vacant(_) => {
                proof {
                    assert(old(self)@.present.remove(*index) =~= old(self)@.present);
                }
                None
            },
        }
    }
}

impl Default for Game {
    /// A fresh game at resolution two.
    fn default() -> (g: Self)
        ensures
            g@.is_fresh(Resolution::Two),
    {
        Self::new(&Resolution::Two)
    }
}

} // verus!
