//! Named cell shapes that can be stamped onto the grid around any cell.
//!
//! A fixed shape is captured once as a list of cells around an anchor cell;
//! stamping it at a target cell moves the list through the local IJ frames of
//! the anchor and of the target. The local frame is affine only near its
//! anchor, so shapes are kept small; a cell that the target's frame cannot
//! place is left out of the stamp.
use vstd::prelude::*;
use vstd::multiset::Multiset;
use vstd::string::StringSliceAdditionalSpecFns;
use crate::grid::{cell_at_local_ij, cell_from_local_ij, disk_of, grid_disk, local_ij, local_ij_of};

verus! {

/// A stampable shape.
pub enum Pattern {
    /// The target cell alone.
    SingleCell,
    /// The six (or five) neighbours of the target cell.
    Star,
    /// A fixed list of cells captured around `anchor`, moved so that
    /// `anchor` lands on the target; `size` is the footprint used to order
    /// the catalogue.
    Shape { anchor: u64, cells: Vec<u64>, size: usize },
}

/// The abstract form of a pattern.
pub enum PatternView {
    SingleCell,
    Star,
    Shape { anchor: u64, cells: Seq<u64>, size: usize },
}

impl View for Pattern {
    type V = PatternView;

    open spec fn view(&self) -> PatternView {
        match self {
            Pattern::SingleCell => PatternView::SingleCell,
            Pattern::Star => PatternView::Star,
            Pattern::Shape { anchor, cells, size } => PatternView::Shape {
                anchor: *anchor,
                cells: cells@,
                size: *size,
            },
        }
    }
}

/// The cells of `s` other than `x`, in order.
pub open spec fn without(s: Seq<u64>, x: u64) -> Seq<u64>
    decreases s.len(),
{
    if s.len() == 0 {
        Seq::empty()
    } else if s.last() == x {
        without(s.drop_last(), x)
    } else {
        without(s.drop_last(), x).push(s.last())
    }
}

/// Local coordinates `cell_ij` moved by the offset from `src_ij` to
/// `dst_ij`, or `None` where the sum leaves the 32-bit range.
pub open spec fn shifted(cell_ij: (i32, i32), src_ij: (i32, i32), dst_ij: (i32, i32)) -> Option<
    (i32, i32),
> {
    let i = cell_ij.0 + (dst_ij.0 - src_ij.0);
    let j = cell_ij.1 + (dst_ij.1 - src_ij.1);
    if i32::MIN <= i <= i32::MAX && i32::MIN <= j <= i32::MAX {
        Some((i as i32, j as i32))
    } else {
        None
    }
}

/// Where `cell`, taken in the frame of `src`, lands in the frame of `dst`,
/// given the coordinates of `src` and `dst` in their own frames.
pub open spec fn placed(src: u64, dst: u64, src_ij: (i32, i32), dst_ij: (i32, i32), cell: u64) -> Option<u64> {
    match local_ij_of(cell, src) {
        Some(ij) => match shifted(ij, src_ij, dst_ij) {
            Some(t) => cell_at_local_ij(dst, t.0, t.1),
            None => None,
        },
        None => None,
    }
}

/// The cells of `pattern` that land somewhere, moved, in order.
pub open spec fn placed_all(
    src: u64,
    dst: u64,
    src_ij: (i32, i32),
    dst_ij: (i32, i32),
    pattern: Seq<u64>,
) -> Seq<u64>
    decreases pattern.len(),
{
    if pattern.len() == 0 {
        Seq::empty()
    } else {
        let rest = placed_all(src, dst, src_ij, dst_ij, pattern.drop_last());
        match placed(src, dst, src_ij, dst_ij, pattern.last()) {
            Some(c) => rest.push(c),
            None => rest,
        }
    }
}

/// `pattern`, captured around `src`, moved onto `dst`; empty when either
/// cell has no coordinates in its own frame.
pub open spec fn transposed(src: u64, dst: u64, pattern: Seq<u64>) -> Seq<u64> {
    match (local_ij_of(src, src), local_ij_of(dst, dst)) {
        (Some(s), Some(d)) => placed_all(src, dst, s, d, pattern),
        _ => Seq::empty(),
    }
}

/// Moves local coordinates `cell_ij` by the offset from `src_ij` to
/// `dst_ij`; `None` where the result leaves the 32-bit range.
pub fn shift_ij(cell_ij: (i32, i32), src_ij: (i32, i32), dst_ij: (i32, i32)) -> (r: Option<(i32, i32)>)
    ensures
        r == shifted(cell_ij, src_ij, dst_ij),
{
    let i: i64 = cell_ij.0 as i64 + (dst_ij.0 as i64 - src_ij.0 as i64);
    let j: i64 = cell_ij.1 as i64 + (dst_ij.1 as i64 - src_ij.1 as i64);
    if i32::MIN as i64 <= i && i <= i32::MAX as i64 && i32::MIN as i64 <= j && j <= i32::MAX as i64 {
        Some((i as i32, j as i32))
    } else {
        None
    }
}

/// Moves `pattern`, captured around `src`, onto `dst`. A cell whose
/// coordinates cannot be taken or rebuilt is dropped; when `src` or `dst`
/// has no coordinates in its own frame the result is empty.
pub fn transpose_pattern(src: u64, dst: u64, pattern: &Vec<u64>) -> (r: Vec<u64>)
    ensures
        r@ == transposed(src, dst, pattern@),
{
    match (local_ij(src, src), local_ij(dst, dst)) {
        (Some(src_ij), Some(dst_ij)) => {
            let mut r: Vec<u64> = Vec::new();
            for k in 0..pattern.len()
                invariant
                    local_ij_of(src, src) == Some(src_ij),
                    local_ij_of(dst, dst) == Some(dst_ij),
                    r@ == placed_all(src, dst, src_ij, dst_ij, pattern@.take(k as int)),
            {
                let cell = pattern[k];
                proof {
                    assert(pattern@.take(k + 1).drop_last() == pattern@.take(k as int));
                }
                match local_ij(cell, src) {
                    Some(ij) => match shift_ij(ij, src_ij, dst_ij) {
                        Some(t) => match cell_from_local_ij(dst, t.0, t.1) {
                            Some(c) => r.push(c),
                            None => {},
                        },
                        None => {},
                    },
                    None => {},
                }
            }
            proof {
                assert(pattern@.take(pattern@.len() as int) == pattern@);
            }
            r
        },
        _ => Vec::new(),
    }
}

impl Pattern {
    /// The cells that stamping this pattern at `center` brings to life.
    pub open spec fn spec_cells(&self, center: u64) -> Seq<u64> {
        match self {
            Pattern::SingleCell => seq![center],
            Pattern::Star => without(disk_of(center), center),
            Pattern::Shape { anchor, cells, size } => transposed(*anchor, center, cells@),
        }
    }

    /// The footprint used to order the catalogue.
    pub open spec fn spec_size(&self) -> usize {
        match self {
            Pattern::SingleCell => 1,
            Pattern::Star => 7,
            Pattern::Shape { anchor, cells, size } => *size,
        }
    }

    /// The cells that stamping this pattern at `center` brings to life.
    pub fn as_cells(&self, center: u64) -> (r: Vec<u64>)
        ensures
            r@ == self.spec_cells(center),
    {
        match self {
            Pattern::SingleCell => {
                let mut r: Vec<u64> = Vec::new();
                r.push(center);
                r
            },
            Pattern::Star => {
                let disk = grid_disk(center);
                let mut r: Vec<u64> = Vec::new();
                for k in 0..disk.len()
                    invariant
                        disk@ == disk_of(center),
                        r@ == without(disk@.take(k as int), center),
                {
                    proof {
                        assert(disk@.take(k + 1).drop_last() == disk@.take(k as int));
                    }
                    if disk[k] != center {
                        r.push(disk[k]);
                    }
                }
                proof {
                    assert(disk@.take(disk@.len() as int) == disk@);
                }
                r
            },
            Pattern::Shape { anchor, cells, size } => transpose_pattern(*anchor, center, cells),
        }
    }

    /// The footprint used to order the catalogue.
    pub fn size(&self) -> (r: usize)
        ensures
            r == self.spec_size(),
    {
        match self {
            Pattern::SingleCell => 1,
            Pattern::Star => 7,
            Pattern::Shape { anchor, cells, size } => *size,
        }
    }
}

impl Pattern {
    /// Three cells that flip between two phases.
    pub fn small_pulsar() -> (p: Pattern)
        ensures
            p@ == (PatternView::Shape {
                anchor: 0x8201a7fffffffff,
                cells: seq![0x8201a7fffffffffu64, 0x8201affffffffff, 0x820117fffffffff],
                size: 3,
            }),
    {
        let cells: Vec<u64> = vec![0x8201a7fffffffff, 0x8201affffffffff, 0x820117fffffffff];
        Pattern::Shape { anchor: 0x8201a7fffffffff, cells, size: 3 }
    }

    /// Four cells in a bent row.
    pub fn medium_wiggler() -> (p: Pattern)
        ensures
            p@ == (PatternView::Shape {
                anchor: 0x827c67fffffffff,
                cells: seq![
                    0x827c67fffffffffu64,
                    0x827c77fffffffff,
                    0x827c57fffffffff,
                    0x827c5ffffffffff,
                ],
                size: 4,
            }),
    {
        let cells: Vec<u64> = vec![
            0x827c67fffffffff,
            0x827c77fffffffff,
            0x827c57fffffffff,
            0x827c5ffffffffff,
        ];
        Pattern::Shape { anchor: 0x827c67fffffffff, cells, size: 4 }
    }

    /// Two neighbouring cells.
    pub fn small_flicker() -> (p: Pattern)
        ensures
            p@ == (PatternView::Shape {
                anchor: 0x8208a7fffffffff,
                cells: seq![0x8208a7fffffffffu64, 0x820837fffffffff],
                size: 2,
            }),
    {
        let cells: Vec<u64> = vec![0x8208a7fffffffff, 0x820837fffffffff];
        Pattern::Shape { anchor: 0x8208a7fffffffff, cells, size: 2 }
    }

    /// Three cells around an empty centre.
    pub fn rotating_trio() -> (p: Pattern)
        ensures
            p@ == (PatternView::Shape {
                anchor: 0x821317fffffffff,
                cells: seq![0x8213a7fffffffffu64, 0x82131ffffffffff, 0x821337fffffffff],
                size: 3,
            }),
    {
        let cells: Vec<u64> = vec![0x8213a7fffffffff, 0x82131ffffffffff, 0x821337fffffffff];
        Pattern::Shape { anchor: 0x821317fffffffff, cells, size: 3 }
    }

    /// Six cells around an empty centre.
    pub fn blob() -> (p: Pattern)
        ensures
            p@ == (PatternView::Shape {
                anchor: 0x82c067fffffffff,
                cells: seq![
                    0x82c147fffffffffu64,
                    0x82c14ffffffffff,
                    0x82ad6ffffffffff,
                    0x82c077fffffffff,
                    0x82c047fffffffff,
                    0x82d137fffffffff,
                ],
                size: 6,
            }),
    {
        let cells: Vec<u64> = vec![
            0x82c147fffffffff,
            0x82c14ffffffffff,
            0x82ad6ffffffffff,
            0x82c077fffffffff,
            0x82c047fffffffff,
            0x82d137fffffffff,
        ];
        Pattern::Shape { anchor: 0x82c067fffffffff, cells, size: 6 }
    }

    /// Four cells around an empty centre.
    pub fn little_blob() -> (p: Pattern)
        ensures
            p@ == (PatternView::Shape {
                anchor: 0x82a627fffffffff,
                cells: seq![
                    0x82a62ffffffffffu64,
                    0x82a777fffffffff,
                    0x82a71ffffffffff,
                    0x82a637fffffffff,
                ],
                size: 4,
            }),
    {
        let cells: Vec<u64> = vec![
            0x82a62ffffffffff,
            0x82a777fffffffff,
            0x82a71ffffffffff,
            0x82a637fffffffff,
        ];
        Pattern::Shape { anchor: 0x82a627fffffffff, cells, size: 4 }
    }

    /// Ten cells that travel across the grid.
    pub fn glider() -> (p: Pattern)
        ensures
            p@ == (PatternView::Shape {
                anchor: 0x82130ffffffffff,
                cells: seq![
                    0x821327fffffffffu64,
                    0x8202dffffffffff,
                    0x821347fffffffff,
                    0x82122ffffffffff,
                    0x821237fffffffff,
                    0x821317fffffffff,
                    0x8212affffffffff,
                    0x8212e7fffffffff,
                    0x821267fffffffff,
                    0x821387fffffffff,
                ],
                size: 10,
            }),
    {
        let cells: Vec<u64> = vec![
            0x821327fffffffff,
            0x8202dffffffffff,
            0x821347fffffffff,
            0x82122ffffffffff,
            0x821237fffffffff,
            0x821317fffffffff,
            0x8212affffffffff,
            0x8212e7fffffffff,
            0x821267fffffffff,
            0x821387fffffffff,
        ];
        Pattern::Shape { anchor: 0x82130ffffffffff, cells, size: 10 }
    }
}

/// Byte strings in lexicographic order, a prefix first.
pub open spec fn bytes_le(a: Seq<u8>, b: Seq<u8>) -> bool
    decreases a.len(),
{
    if a.len() == 0 {
        true
    } else if b.len() == 0 {
        false
    } else if a[0] != b[0] {
        a[0] < b[0]
    } else {
        bytes_le(a.skip(1), b.skip(1))
    }
}

proof fn lemma_bytes_le_total(a: Seq<u8>, b: Seq<u8>)
    ensures
        bytes_le(a, b) || bytes_le(b, a),
    decreases a.len(),
{
    if a.len() > 0 && b.len() > 0 && a[0] == b[0] {
        lemma_bytes_le_total(a.skip(1), b.skip(1));
    }
}

proof fn lemma_bytes_le_transitive(a: Seq<u8>, b: Seq<u8>, c: Seq<u8>)
    requires
        bytes_le(a, b),
        bytes_le(b, c),
    ensures
        bytes_le(a, c),
    decreases a.len(),
{
    if a.len() > 0 && b.len() > 0 && c.len() > 0 && a[0] == b[0] && b[0] == c[0] {
        lemma_bytes_le_transitive(a.skip(1), b.skip(1), c.skip(1));
    }
}

/// A named pattern of the catalogue.
pub type Entry = (&'static str, Pattern);

/// The abstract form of a catalogue entry.
pub open spec fn entry_view(e: Entry) -> (Seq<char>, PatternView) {
    (e.0@, e.1@)
}

/// Catalogue order: by footprint, then by name.
pub open spec fn entry_le(a: Entry, b: Entry) -> bool {
    ||| a.1.spec_size() < b.1.spec_size()
    ||| a.1.spec_size() == b.1.spec_size() && bytes_le(a.0.spec_bytes(), b.0.spec_bytes())
}

proof fn lemma_entry_le_total(a: Entry, b: Entry)
    ensures
        entry_le(a, b) || entry_le(b, a),
{
    lemma_bytes_le_total(a.0.spec_bytes(), b.0.spec_bytes());
}

proof fn lemma_entry_le_transitive(a: Entry, b: Entry, c: Entry)
    requires
        entry_le(a, b),
        entry_le(b, c),
    ensures
        entry_le(a, c),
{
    if a.1.spec_size() == b.1.spec_size() && b.1.spec_size() == c.1.spec_size() {
        lemma_bytes_le_transitive(a.0.spec_bytes(), b.0.spec_bytes(), c.0.spec_bytes());
    }
}

/// Whether `a` comes no later than `b` in lexicographic byte order.
fn name_le(a: &str, b: &str) -> (r: bool)
    ensures
        r == bytes_le(a.spec_bytes(), b.spec_bytes()),
{
    let x = a.as_bytes();
    let y = b.as_bytes();
    let mut k: usize = 0;
    proof {
        assert(x@.skip(0) == x@);
        assert(y@.skip(0) == y@);
    }
    while k < x.len() && k < y.len() && x[k] == y[k]
        invariant
            x@ == a.spec_bytes(),
            y@ == b.spec_bytes(),
            k <= x@.len(),
            k <= y@.len(),
            bytes_le(x@, y@) == bytes_le(x@.skip(k as int), y@.skip(k as int)),
        decreases x@.len() - k,
    {
        proof {
            assert(x@.skip(k as int).skip(1) == x@.skip(k + 1));
            assert(y@.skip(k as int).skip(1) == y@.skip(k + 1));
        }
        k = k + 1;
    }
    if k == x.len() {
        true
    } else if k == y.len() {
        false
    } else {
        x[k] < y[k]
    }
}

/// Whether `a` comes no later than `b` in the catalogue.
fn entry_le_exec(a: &Entry, b: &Entry) -> (r: bool)
    ensures
        r == entry_le(*a, *b),
{
    let sa = a.1.size();
    let sb = b.1.size();
    if sa != sb {
        sa < sb
    } else {
        name_le(a.0, b.0)
    }
}

/// The catalogue, unordered.
pub open spec fn catalog_view() -> Seq<(Seq<char>, PatternView)> {
    seq![
        ("Single cell"@, PatternView::SingleCell),
        ("Star"@, PatternView::Star),
        ("Small pulsar"@, PatternView::Shape {
            anchor: 0x8201a7fffffffff,
            cells: seq![0x8201a7fffffffffu64, 0x8201affffffffff, 0x820117fffffffff],
            size: 3,
        }),
        ("Small flicker"@, PatternView::Shape {
            anchor: 0x8208a7fffffffff,
            cells: seq![0x8208a7fffffffffu64, 0x820837fffffffff],
            size: 2,
        }),
        ("Rotating trio"@, PatternView::Shape {
            anchor: 0x821317fffffffff,
            cells: seq![0x8213a7fffffffffu64, 0x82131ffffffffff, 0x821337fffffffff],
            size: 3,
        }),
        ("Medium wiggler"@, PatternView::Shape {
            anchor: 0x827c67fffffffff,
            cells: seq![
                0x827c67fffffffffu64,
                0x827c77fffffffff,
                0x827c57fffffffff,
                0x827c5ffffffffff,
            ],
            size: 4,
        }),
        ("Blob"@, PatternView::Shape {
            anchor: 0x82c067fffffffff,
            cells: seq![
                0x82c147fffffffffu64,
                0x82c14ffffffffff,
                0x82ad6ffffffffff,
                0x82c077fffffffff,
                0x82c047fffffffff,
                0x82d137fffffffff,
            ],
            size: 6,
        }),
        ("Little blob"@, PatternView::Shape {
            anchor: 0x82a627fffffffff,
            cells: seq![
                0x82a62ffffffffffu64,
                0x82a777fffffffff,
                0x82a71ffffffffff,
                0x82a637fffffffff,
            ],
            size: 4,
        }),
        ("Glider"@, PatternView::Shape {
            anchor: 0x82130ffffffffff,
            cells: seq![
                0x821327fffffffffu64,
                0x8202dffffffffff,
                0x821347fffffffff,
                0x82122ffffffffff,
                0x821237fffffffff,
                0x821317fffffffff,
                0x8212affffffffff,
                0x8212e7fffffffff,
                0x821267fffffffff,
                0x821387fffffffff,
            ],
            size: 10,
        }),
    ]
}

/// The catalogue entries, unordered.
fn catalog() -> (r: Vec<Entry>)
    ensures
        r@.map_values(|e: Entry| entry_view(e)) == catalog_view(),
{
    let mut r: Vec<Entry> = Vec::new();
    r.push(("Single cell", Pattern::SingleCell));
    r.push(("Star", Pattern::Star));
    r.push(("Small pulsar", Pattern::small_pulsar()));
    r.push(("Small flicker", Pattern::small_flicker()));
    r.push(("Rotating trio", Pattern::rotating_trio()));
    r.push(("Medium wiggler", Pattern::medium_wiggler()));
    r.push(("Blob", Pattern::blob()));
    r.push(("Little blob", Pattern::little_blob()));
    r.push(("Glider", Pattern::glider()));
    assert(r@.map_values(|e: Entry| entry_view(e)) =~= catalog_view());
    r
}

/// The catalogue of named patterns, ordered by footprint and then by name.
pub fn create_pattern_map() -> (r: Vec<Entry>)
    ensures
        r@.map_values(|e: Entry| entry_view(e)).to_multiset() == catalog_view().to_multiset(),
        forall|i: int, j: int| 0 <= i < j < r@.len() ==> entry_le(#[trigger] r@[i], #[trigger] r@[j]),
{
    broadcast use vstd::seq_lib::group_to_multiset_ensures;

    let mut entries = catalog();
    let mut sorted: Vec<Entry> = Vec::new();
    proof {
        let none = sorted@.map_values(|e: Entry| entry_view(e));
        assert(none.len() == 0);
        assert(none.to_multiset() =~= Multiset::empty());
        assert(none.to_multiset().add(entries@.map_values(|e: Entry| entry_view(e)).to_multiset())
            =~= catalog_view().to_multiset());
    }
    while entries.len() > 0
        invariant
            sorted@.map_values(|e: Entry| entry_view(e)).to_multiset().add(
                entries@.map_values(|e: Entry| entry_view(e)).to_multiset(),
            ) == catalog_view().to_multiset(),
            forall|i: int, j: int|
                0 <= i < j < sorted@.len() ==> entry_le(#[trigger] sorted@[i], #[trigger] sorted@[j]),
        decreases entries@.len(),
    {
        let ghost before = entries@;
        let x = entries.pop().unwrap();
        proof {
            assert(before =~= entries@.push(x));
            assert(before.map_values(|e: Entry| entry_view(e)) =~= entries@.map_values(
                |e: Entry| entry_view(e),
            ).push(entry_view(x)));
            vstd::seq_lib::to_multiset_build(
                entries@.map_values(|e: Entry| entry_view(e)),
                entry_view(x),
            );
        }
        let mut p: usize = 0;
        while p < sorted.len() && entry_le_exec(&sorted[p], &x)
            invariant
                p <= sorted@.len(),
                forall|i: int| 0 <= i < p ==> entry_le(#[trigger] sorted@[i], x),
            decreases sorted@.len() - p,
        {
            p = p + 1;
        }
        let ghost old_sorted = sorted@;
        sorted.insert(p, x);
        proof {
            if p < old_sorted.len() {
                lemma_entry_le_total(old_sorted[p as int], x);
            }
            assert forall|i: int, j: int| 0 <= i < j < sorted@.len() implies entry_le(
                #[trigger] sorted@[i],
                #[trigger] sorted@[j],
            ) by {
                if j == p {
                    assert(entry_le(old_sorted[i], x));
                } else if i == p {
                    assert(entry_le(x, old_sorted[p as int]));
                    if j - 1 > p {
                        assert(entry_le(old_sorted[p as int], old_sorted[j - 1]));
                        lemma_entry_le_transitive(x, old_sorted[p as int], old_sorted[j - 1]);
                    }
                } else if i < p && j > p {
                    assert(entry_le(old_sorted[i], old_sorted[j - 1]));
                } else if i > p {
                    assert(entry_le(old_sorted[i - 1], old_sorted[j - 1]));
                } else {
                    assert(entry_le(old_sorted[i], old_sorted[j]));
                }
            }
            assert(sorted@.map_values(|e: Entry| entry_view(e)) =~= old_sorted.map_values(
                |e: Entry| entry_view(e),
            ).insert(p as int, entry_view(x)));
            vstd::seq_lib::to_multiset_insert(
                old_sorted.map_values(|e: Entry| entry_view(e)),
                p as int,
                entry_view(x),
            );
            assert(sorted@.map_values(|e: Entry| entry_view(e)).to_multiset().add(
                entries@.map_values(|e: Entry| entry_view(e)).to_multiset(),
            ) =~= old_sorted.map_values(|e: Entry| entry_view(e)).to_multiset().add(
                before.map_values(|e: Entry| entry_view(e)).to_multiset(),
            ));
        }
    }
    proof {
        let none = entries@.map_values(|e: Entry| entry_view(e));
        assert(none.len() == 0);
        assert(none.to_multiset() =~= Multiset::empty());
        assert(sorted@.map_values(|e: Entry| entry_view(e)).to_multiset().add(Multiset::empty())
            =~= sorted@.map_values(|e: Entry| entry_view(e)).to_multiset());
    }
    sorted
}

} // verus!
