//! The constraint grid and the matching algorithm.
//!
//! A [`Filter`] is a 6-row by 5-column grid of cells. Each cell optionally
//! holds a letter together with a [`CellColor`] classification of the
//! feedback for that letter at that position. [`Filter::matches`] decides
//! whether a candidate five-letter word is consistent with every signal
//! accumulated in the grid.

use vstd::prelude::*;

verus! {

/// Number of guess rows in a grid.
pub const ROWS: usize = 6;

/// Number of letters per word, and so of columns per row.
pub const COLS: usize = 5;

/// Total number of cells in a grid.
pub const CELLS: usize = 30;

/// The feedback signal for a letter at one cell.
#[derive(Clone, Copy, Debug, PartialEq, Eq, Structural)]
pub enum CellColor {
    /// The letter does not occupy this cell ("absent").
    Gray,
    /// The letter is present in the solution, but not at this cell.
    Yellow,
    /// The letter is present in the solution exactly at this cell.
    Green,
}

impl CellColor {
    /// The next classification in the cycle gray -> yellow -> green -> gray,
    /// as a front end cycles through them on repeated clicks.
    pub fn next(&self) -> (r: CellColor)
        ensures
            r == (match self {
                CellColor::Gray => CellColor::Yellow,
                CellColor::Yellow => CellColor::Green,
                CellColor::Green => CellColor::Gray,
            }),
    {
        match self {
            CellColor::Gray => CellColor::Yellow,
            CellColor::Yellow => CellColor::Green,
            CellColor::Green => CellColor::Gray,
        }
    }
}

/// One slot of the grid: an optional letter and its classification.
///
/// A cell whose `character` is `None` carries no constraint, whatever its
/// `color` field holds.
#[derive(Clone, Copy, Debug)]
pub struct GridCell {
    pub character: Option<char>,
    pub color: CellColor,
}

impl Default for GridCell {
    /// An empty gray cell: the state every cell has in a fresh grid.
    fn default() -> (r: GridCell)
        ensures
            r.character is None,
            r.color == CellColor::Gray,
    {
        GridCell { character: None, color: CellColor::Gray }
    }
}

/// Does this cell carry a constraint of the given classification?
pub open spec fn filled_with(cell: GridCell, color: CellColor) -> bool {
    cell.character is Some && cell.color == color
}

/// The cell of `g` at `row`, `col`, with the grid flattened row-major.
pub open spec fn cell_at(g: Seq<GridCell>, row: int, col: int) -> GridCell {
    g[row * 5 + col]
}

/// No cell of the grid holds a letter, so no constraint is imposed.
pub open spec fn is_clear(g: Seq<GridCell>) -> bool {
    g.len() == 30 && forall|k: int| 0 <= k < 30 ==> (#[trigger] g[k]).character is None
}

/// The green letter recorded for `pos` after scanning the first `n` cells
/// of the flattened grid: the letter of the last green cell in column `pos`
/// among them, if any. A later row overwrites an earlier one, as the grid
/// records one confirmed letter per position.
pub open spec fn green_up_to(g: Seq<GridCell>, pos: int, n: int) -> Option<char>
    decreases n,
{
    if n <= 0 {
        None
    } else if (n - 1) % 5 == pos && filled_with(g[n - 1], CellColor::Green) {
        g[n - 1].character
    } else {
        green_up_to(g, pos, n - 1)
    }
}

/// The letter confirmed at position `pos` by the whole grid, if any.
pub open spec fn confirmed_at(g: Seq<GridCell>, pos: int) -> Option<char> {
    green_up_to(g, pos, 30)
}

/// Does the word contain the letter anywhere?
pub open spec fn word_has(w: Seq<char>, c: char) -> bool {
    exists|i: int| 0 <= i < w.len() && w[i] == c
}

/// Is the letter known to be used by the solution: confirmed at some
/// position, or marked misplaced in some cell?
pub open spec fn known_used(g: Seq<GridCell>, c: char) -> bool {
    (exists|p: int| 0 <= p < 5 && #[trigger] confirmed_at(g, p) == Some(c)) || (exists|k: int|
        0 <= k < 30 && filled_with(#[trigger] g[k], CellColor::Yellow) && g[k].character == Some(
            c,
        ))
}

/// Every position with a confirmed letter holds that letter in the word.
pub open spec fn greens_ok(g: Seq<GridCell>, w: Seq<char>) -> bool {
    forall|p: int|
        0 <= p < 5 ==> (match #[trigger] confirmed_at(g, p) {
            Some(c) => w[p] == c,
            None => true,
        })
}

/// Every misplaced cell's letter is somewhere in the word, but not at the
/// cell's own position.
pub open spec fn yellows_ok(g: Seq<GridCell>, w: Seq<char>) -> bool {
    forall|k: int|
        0 <= k < 30 && filled_with(#[trigger] g[k], CellColor::Yellow) ==> w[k % 5]
            != g[k].character->Some_0 && word_has(w, g[k].character->Some_0)
}

/// Every absent cell's letter is missing from the cell's own position; and,
/// where the letter is not otherwise known to be used, it is missing from
/// the whole word.
pub open spec fn grays_ok(g: Seq<GridCell>, w: Seq<char>) -> bool {
    forall|k: int|
        0 <= k < 30 && filled_with(#[trigger] g[k], CellColor::Gray) ==> w[k % 5]
            != g[k].character->Some_0 && (known_used(g, g[k].character->Some_0) || !word_has(
            w,
            g[k].character->Some_0,
        ))
}

/// A candidate word is consistent with the grid: it violates no confirmed,
/// misplaced or absent constraint.
pub open spec fn spec_matches(g: Seq<GridCell>, w: Seq<char>) -> bool {
    greens_ok(g, w) && yellows_ok(g, w) && grays_ok(g, w)
}

/// The constraint grid: six guess rows of five cells, flattened row-major.
#[derive(Clone, Debug)]
pub struct Filter {
    cells: Vec<GridCell>,
}

impl View for Filter {
    type V = Seq<GridCell>;

    closed spec fn view(&self) -> Seq<GridCell> {
        self.cells@
    }
}

impl Filter {
    /// The grid is fully allocated: exactly 30 cells, empty or not.
    pub open spec fn wf(&self) -> bool {
        self@.len() == 30
    }

    /// A fresh grid: every cell empty, classified gray.
    pub fn new() -> (r: Filter)
        ensures
            r.wf(),
            is_clear(r@),
            forall|k: int| 0 <= k < 30 ==> (#[trigger] r@[k]).color == CellColor::Gray,
    {
        let mut cells: Vec<GridCell> = Vec::new();
        let mut i: usize = 0;
        while i < CELLS
            invariant
                i <= 30,
                cells@.len() == i,
                forall|k: int|
                    0 <= k < i ==> (#[trigger] cells@[k]).character is None
                        && cells@[k].color == CellColor::Gray,
            decreases 30 - i,
        {
            cells.push(GridCell { character: None, color: CellColor::Gray });
            i += 1;
        }
        Filter { cells }
    }

    /// Overwrite the cell at `row`, `col` with the given letter and
    /// classification; every other cell keeps its value. Out-of-range
    /// indices are a caller error, excluded by the precondition.
    pub fn set(&mut self, row: usize, col: usize, c: char, color: CellColor)
        requires
            old(self).wf(),
            row < ROWS,
            col < COLS,
        ensures
            final(self).wf(),
            final(self)@ == old(self)@.update(
                row as int * 5 + col as int,
                (GridCell { character: Some(c), color }),
            ),
    {
        let idx: usize = row * 5 + col;
        self.cells[idx] = GridCell { character: Some(c), color };
    }

    /// Read the cell at `row`, `col`.
    pub fn get(&self, row: usize, col: usize) -> (r: GridCell)
        requires
            self.wf(),
            row < ROWS,
            col < COLS,
        ensures
            r == cell_at(self@, row as int, col as int),
    {
        self.cells[row * 5 + col]
    }

    /// The letter confirmed at position `pos`, scanning the rows so that a
    /// later row's green cell overwrites an earlier one.
    fn confirmed_letter(&self, pos: usize) -> (r: Option<char>)
        requires
            self.wf(),
            pos < 5,
        ensures
            r == confirmed_at(self@, pos as int),
    {
        let mut res: Option<char> = None;
        let mut k: usize = 0;
        while k < CELLS
            invariant
                self.wf(),
                pos < 5,
                k <= 30,
                res == green_up_to(self@, pos as int, k as int),
            decreases 30 - k,
        {
            let cell = self.cells[k];
            if k % 5 == pos && cell.character.is_some() && cell.color == CellColor::Green {
                res = cell.character;
            }
            k += 1;
        }
        res
    }

    /// Is the letter known to be used by the solution, per the grid: confirmed
    /// somewhere, or marked misplaced somewhere?
    fn is_known_used(&self, c: char) -> (r: bool)
        requires
            self.wf(),
        ensures
            r == known_used(self@, c),
    {
        let mut p: usize = 0;
        while p < COLS
            invariant
                self.wf(),
                p <= 5,
                forall|q: int| 0 <= q < p ==> #[trigger] confirmed_at(self@, q) != Some(c),
            decreases 5 - p,
        {
            if let Some(x) = self.confirmed_letter(p) {
                if x == c {
                    return true;
                }
            }
            p += 1;
        }
        let mut k: usize = 0;
        while k < CELLS
            invariant
                self.wf(),
                k <= 30,
                forall|q: int| 0 <= q < 5 ==> #[trigger] confirmed_at(self@, q) != Some(c),
                forall|j: int|
                    0 <= j < k ==> !(filled_with(#[trigger] self@[j], CellColor::Yellow)
                        && self@[j].character == Some(c)),
            decreases 30 - k,
        {
            let cell = self.cells[k];
            if let Some(x) = cell.character {
                if x == c && cell.color == CellColor::Yellow {
                    return true;
                }
            }
            k += 1;
        }
        false
    }

    /// Decide whether the candidate word is consistent with every constraint
    /// accumulated in the grid.
    pub fn matches(&self, word: &Vec<char>) -> (r: bool)
        requires
            self.wf(),
            word@.len() == 5,
        ensures
            r == spec_matches(self@, word@),
    {
        let mut p: usize = 0;
        while p < COLS
            invariant
                self.wf(),
                word@.len() == 5,
                p <= 5,
                forall|q: int|
                    0 <= q < p ==> (match #[trigger] confirmed_at(self@, q) {
                        Some(c) => word@[q] == c,
                        None => true,
                    }),
            decreases 5 - p,
        {
            if let Some(c) = self.confirmed_letter(p) {
                if word[p] != c {
                    proof {
                        assert(confirmed_at(self@, p as int) == Some(c));
                        assert(!greens_ok(self@, word@));
                    }
                    return false;
                }
            }
            p += 1;
        }
        assert(greens_ok(self@, word@));
        let mut k: usize = 0;
        while k < CELLS
            invariant
                self.wf(),
                word@.len() == 5,
                k <= 30,
                greens_ok(self@, word@),
                forall|j: int|
                    0 <= j < k && filled_with(#[trigger] self@[j], CellColor::Yellow) ==> word@[j
                        % 5] != self@[j].character->Some_0 && word_has(
                        word@,
                        self@[j].character->Some_0,
                    ),
                forall|j: int|
                    0 <= j < k && filled_with(#[trigger] self@[j], CellColor::Gray) ==> word@[j % 5]
                        != self@[j].character->Some_0 && (known_used(
                        self@,
                        self@[j].character->Some_0,
                    ) || !word_has(word@, self@[j].character->Some_0)),
            decreases 30 - k,
        {
            let cell = self.cells[k];
            if let Some(c) = cell.character {
                let pos_letter = word[k % 5];
                match cell.color {
                    CellColor::Green => {},
                    CellColor::Yellow => {
                        if pos_letter == c || !contains_char(word, c) {
                            proof {
                                assert(filled_with(self@[k as int], CellColor::Yellow));
                                assert(!yellows_ok(self@, word@));
                            }
                            return false;
                        }
                    },
                    CellColor::Gray => {
                        if pos_letter == c {
                            proof {
                                assert(filled_with(self@[k as int], CellColor::Gray));
                                assert(!grays_ok(self@, word@));
                            }
                            return false;
                        }
                        if !self.is_known_used(c) && contains_char(word, c) {
                            proof {
                                assert(filled_with(self@[k as int], CellColor::Gray));
                                assert(!grays_ok(self@, word@));
                            }
                            return false;
                        }
                    },
                }
            }
            k += 1;
        }
        true
    }

    /// Clear every cell, restoring the state of a fresh grid.
    pub fn reset(&mut self)
        ensures
            final(self).wf(),
            is_clear(final(self)@),
            forall|k: int| 0 <= k < 30 ==> (#[trigger] final(self)@[k]).color == CellColor::Gray,
    {
        *self = Filter::new();
    }
}

/// Among the first `n` cells, none in column `pos` is a filled green cell,
/// so no letter is confirmed there.
proof fn lemma_green_up_to_none(g: Seq<GridCell>, pos: int, n: int)
    requires
        forall|k: int| 0 <= k < n && k % 5 == pos ==> !filled_with(#[trigger] g[k], CellColor::Green),
    ensures
        green_up_to(g, pos, n) is None,
    decreases n,
{
    if n > 0 {
        lemma_green_up_to_none(g, pos, n - 1);
    }
}

/// A grid with no letters set imposes no constraint: every word matches.
pub proof fn lemma_clear_matches_all(g: Seq<GridCell>, w: Seq<char>)
    requires
        is_clear(g),
    ensures
        spec_matches(g, w),
{
    assert forall|p: int| 0 <= p < 5 implies #[trigger] confirmed_at(g, p) is None by {
        lemma_green_up_to_none(g, p, 30);
    }
}

/// A word whose letter at a confirmed position differs from the confirmed
/// letter never matches.
pub proof fn lemma_confirmed_mismatch(g: Seq<GridCell>, w: Seq<char>, p: int, c: char)
    requires
        0 <= p < 5,
        confirmed_at(g, p) == Some(c),
        w[p] != c,
    ensures
        !spec_matches(g, w),
{
}

/// A word that repeats a misplaced letter at its forbidden position, or
/// misses that letter entirely, never matches.
pub proof fn lemma_misplaced_violated(g: Seq<GridCell>, w: Seq<char>, row: int, col: int, c: char)
    requires
        0 <= row < 6,
        0 <= col < 5,
        cell_at(g, row, col).character == Some(c),
        cell_at(g, row, col).color == CellColor::Yellow,
        w[col] == c || !word_has(w, c),
    ensures
        !spec_matches(g, w),
{
    let k = row * 5 + col;
    assert(filled_with(g[k], CellColor::Yellow));
    assert(k % 5 == col);
}

/// A grid whose one constraint is a single absent cell rejects exactly the
/// words that contain that cell's letter anywhere: the letter is not
/// otherwise known to be used, so its absence is total.
pub proof fn lemma_single_absent(g: Seq<GridCell>, w: Seq<char>, row: int, col: int, c: char)
    requires
        g.len() == 30,
        w.len() == 5,
        0 <= row < 6,
        0 <= col < 5,
        cell_at(g, row, col).character == Some(c),
        cell_at(g, row, col).color == CellColor::Gray,
        forall|k: int| 0 <= k < 30 && k != row * 5 + col ==> (#[trigger] g[k]).character is None,
    ensures
        spec_matches(g, w) <==> !word_has(w, c),
{
    let idx = row * 5 + col;
    assert(0 <= idx < 30);
    assert forall|p: int| 0 <= p < 5 implies #[trigger] confirmed_at(g, p) is None by {
        lemma_green_up_to_none(g, p, 30);
    }
    assert(!known_used(g, c));
    assert(filled_with(g[idx], CellColor::Gray));
    if word_has(w, c) {
        assert(!grays_ok(g, w));
    } else {
        assert(yellows_ok(g, w));
        assert forall|k: int|
            0 <= k < 30 && filled_with(#[trigger] g[k], CellColor::Gray) implies w[k % 5]
            != g[k].character->Some_0 && (known_used(g, g[k].character->Some_0) || !word_has(
            w,
            g[k].character->Some_0,
        )) by {
            assert(k == idx);
            assert(forall|i: int| 0 <= i < w.len() ==> w[i] != c);
        }
    }
}

/// Does the word contain the letter anywhere?
fn contains_char(word: &Vec<char>, c: char) -> (r: bool)
    ensures
        r == word_has(word@, c),
{
    let mut i: usize = 0;
    while i < word.len()
        invariant
            i <= word@.len(),
            forall|j: int| 0 <= j < i ==> word@[j] != c,
        decreases word@.len() - i,
    {
        if word[i] == c {
            return true;
        }
        i += 1;
    }
    false
}

} // verus!
