//! Matching a pattern against the grid, and writing a pattern into it.

use vstd::prelude::*;
use vstd::arithmetic::div_mod::{lemma_fundamental_div_mod, lemma_fundamental_div_mod_converse};
use crate::grid::{lemma_offset_in_range, GenericGrid, GridView};
use crate::pattern::Pattern;
use crate::point::Point;
use crate::symbol::Symbol;

verus! {

impl GridView<Symbol> {
    /// The pattern, put with its top left cell at `at`, lies inside the grid.
    pub open spec fn fits(self, pattern: GridView<Option<Symbol>>, at: Point) -> bool {
        pattern.width + at.x <= self.width && pattern.height + at.y <= self.height
    }

    /// The pattern matches at `at`: each of its cells that is no wildcard
    /// equals the grid cell that it covers.
    pub open spec fn matches_at(self, pattern: GridView<Option<Symbol>>, at: Point) -> bool {
        forall|px: int, py: int|
            pattern.has(px, py) && (#[trigger] pattern.at(px, py)) is Some ==> self.at(
                px + at.x,
                py + at.y,
            ) == pattern.at(px, py).unwrap()
    }

    /// The cell with storage index `i` once the pattern cells that come before
    /// `(done_x, done_y)`, column by column, have been written at `at`.
    pub open spec fn stamped_cell(
        self,
        pattern: GridView<Option<Symbol>>,
        at: Point,
        i: int,
        done_x: int,
        done_y: int,
    ) -> Symbol {
        let px = i % (self.width as int) - at.x;
        let py = i / (self.width as int) - at.y;
        if pattern.has(px, py) && (px < done_x || (px == done_x && py < done_y)) && pattern.at(
            px,
            py,
        ) is Some {
            pattern.at(px, py).unwrap()
        } else {
            self.cells[i]
        }
    }

    /// The grid after the pattern has been written at `at`: a cell covered by
    /// a pattern cell that is no wildcard takes its symbol, every other cell
    /// stays.
    pub open spec fn applied(self, pattern: GridView<Option<Symbol>>, at: Point) -> GridView<
        Symbol,
    > {
        GridView {
            width: self.width,
            height: self.height,
            cells: Seq::new(
                self.cells.len(),
                |i: int| self.stamped_cell(pattern, at, i, pattern.width as int, 0),
            ),
        }
    }

    /// The number of columns in which the pattern can be put.
    pub open spec fn scan_width(self, pattern: GridView<Option<Symbol>>) -> nat {
        if pattern.width <= self.width && pattern.height <= self.height {
            (self.width - pattern.width + 1) as nat
        } else {
            0
        }
    }

    /// The number of rows in which the pattern can be put.
    pub open spec fn scan_height(self, pattern: GridView<Option<Symbol>>) -> nat {
        if pattern.width <= self.width && pattern.height <= self.height {
            (self.height - pattern.height + 1) as nat
        } else {
            0
        }
    }

    /// Every position at which the pattern fits, column by column: `x` moves
    /// slowest.
    pub open spec fn candidates(self, pattern: GridView<Option<Symbol>>) -> Seq<Point> {
        let rows = self.scan_height(pattern) as int;
        Seq::new(
            self.scan_width(pattern) * self.scan_height(pattern),
            |i: int| Point { x: (i / rows) as usize, y: (i % rows) as usize },
        )
    }

    /// The positions at which the pattern matches, in the order of the scan.
    pub open spec fn matches_of(self, pattern: GridView<Option<Symbol>>) -> Seq<Point> {
        self.candidates(pattern).filter(|at: Point| self.matches_at(pattern, at))
    }
}

impl GenericGrid<Symbol> {
    /// Tells whether the pattern, put at `at`, lies inside the grid.
    pub fn pattern_fits(&self, pattern: &Pattern, at: Point) -> (inside: bool)
        ensures
            inside == self@.fits(pattern@, at),
    {
        at.x <= self.width && pattern.width <= self.width - at.x && at.y <= self.height
            && pattern.height <= self.height - at.y
    }

    /// States that the pattern, put at `at`, lies inside the grid.
    pub fn assert_pattern_fit(&self, pattern: &Pattern, at: Point)
        requires
            self@.fits(pattern@, at),
    {
    }

    /// Tests whether the pattern matches at `at`.
    pub fn test_match(&self, pattern: &Pattern, at: Point) -> (matched: bool)
        requires
            self@.wf(),
            pattern@.wf(),
            self@.fits(pattern@, at),
        ensures
            matched == self@.matches_at(pattern@, at),
    {
        let mut x: usize = 0;
        while x < pattern.width
            invariant
                self@.wf(),
                pattern@.wf(),
                self@.fits(pattern@, at),
                x <= pattern.width,
                forall|px: int, py: int|
                    pattern@.has(px, py) && px < x && (#[trigger] pattern@.at(px, py)) is Some
                        ==> self@.at(px + at.x, py + at.y) == pattern@.at(px, py).unwrap(),
            decreases pattern.width - x,
        {
            let mut y: usize = 0;
            while y < pattern.height
                invariant
                    self@.wf(),
                    pattern@.wf(),
                    self@.fits(pattern@, at),
                    x < pattern.width,
                    y <= pattern.height,
                    forall|px: int, py: int|
                        pattern@.has(px, py) && (px < x || (px == x && py < y))
                            && (#[trigger] pattern@.at(px, py)) is Some ==> self@.at(
                            px + at.x,
                            py + at.y,
                        ) == pattern@.at(px, py).unwrap(),
                decreases pattern.height - y,
            {
                let test_pt = Point { x, y };
                match pattern[test_pt] {
                    Some(expected) => {
                        let grid_pt = test_pt + at;
                        if expected != self[grid_pt] {
                            assert(pattern@.has(x as int, y as int));
                            return false;
                        }
                    },
                    None => {},
                }
                y += 1;
            }
            x += 1;
        }
        true
    }

    /// Writes the pattern into the grid at `at`; wildcard cells write nothing.
    pub fn apply_pattern(&mut self, pattern: &Pattern, at: Point)
        requires
            old(self)@.wf(),
            pattern@.wf(),
            old(self)@.fits(pattern@, at),
        ensures
            final(self)@ == old(self)@.applied(pattern@, at),
            final(self)@.wf(),
    {
        let ghost before = self@;
        let mut x: usize = 0;
        while x < pattern.width
            invariant
                before.wf(),
                pattern@.wf(),
                before.fits(pattern@, at),
                x <= pattern.width,
                self.width == before.width,
                self.height == before.height,
                self@.cells.len() == before.cells.len(),
                forall|i: int|
                    0 <= i < before.cells.len() ==> #[trigger] self@.cells[i]
                        == before.stamped_cell(pattern@, at, i, x as int, 0),
            decreases pattern.width - x,
        {
            let mut y: usize = 0;
            while y < pattern.height
                invariant
                    before.wf(),
                    pattern@.wf(),
                    before.fits(pattern@, at),
                    x < pattern.width,
                    y <= pattern.height,
                    self.width == before.width,
                    self.height == before.height,
                    self@.cells.len() == before.cells.len(),
                    forall|i: int|
                        0 <= i < before.cells.len() ==> #[trigger] self@.cells[i]
                            == before.stamped_cell(pattern@, at, i, x as int, y as int),
                decreases pattern.height - y,
            {
                let test_pt = Point { x, y };
                let ghost width = before.width as int;
                let ghost target = (y + at.y) * width + (x + at.x);
                proof {
                    lemma_offset_in_range(
                        width,
                        before.height as int,
                        x + at.x,
                        y + at.y,
                    );
                }
                match pattern[test_pt] {
                    Some(new_symbol) => {
                        let grid_pt = test_pt + at;
                        self.set(grid_pt, new_symbol);
                    },
                    None => {},
                }
                proof {
                    assert forall|i: int| 0 <= i < before.cells.len() implies #[trigger] self@.cells[i]
                        == before.stamped_cell(pattern@, at, i, x as int, y + 1) by {
                        lemma_fundamental_div_mod(i, width);
                        if i % width - at.x == x && i / width - at.y == y {
                            assert(i == target) by (nonlinear_arith)
                                requires
                                    i == width * (i / width) + i % width,
                                    i % width == x + at.x,
                                    i / width == y + at.y,
                                    target == (y + at.y) * width + (x + at.x),
                            ;
                        }
                    }
                }
                y += 1;
            }
            x += 1;
        }
        assert(self@.cells =~= before.applied(pattern@, at).cells);
    }

    /// Finds every position at which the pattern matches. The scan visits
    /// each position at which the pattern fits, the last column and row
    /// included, column by column; a pattern larger than the grid matches
    /// nowhere.
    pub fn find_matches(&self, pattern: &Pattern) -> (found: Vec<Point>)
        requires
            self@.wf(),
            pattern@.wf(),
        ensures
            found@ == self@.matches_of(pattern@),
    {
        let mut found: Vec<Point> = Vec::new();
        let ghost all = self@.candidates(pattern@);
        let ghost pred = |at: Point| self@.matches_at(pattern@, at);
        proof {
            reveal(Seq::filter);
        }
        if pattern.width > self.width || pattern.height > self.height {
            assert(all.len() == 0);
            return found;
        }
        let last_x: usize = self.width - pattern.width;
        let last_y: usize = self.height - pattern.height;
        let ghost rows: int = last_y + 1;
        assert(all.len() == (last_x + 1) * rows);
        let mut x: usize = 0;
        loop
            invariant_except_break
                x <= last_x,
                found@ == all.subrange(0, x * rows).filter(pred),
            invariant
                self@.wf(),
                pattern@.wf(),
                last_x == self.width - pattern.width,
                last_y == self.height - pattern.height,
                pattern.width <= self.width,
                pattern.height <= self.height,
                rows == last_y + 1,
                all == self@.candidates(pattern@),
                all.len() == (last_x + 1) * rows,
                pred == (|at: Point| self@.matches_at(pattern@, at)),
            ensures
                found@ == all.filter(pred),
            decreases last_x - x,
        {
            let mut y: usize = 0;
            loop
                invariant_except_break
                    y <= last_y,
                    found@ == all.subrange(0, x * rows + y).filter(pred),
                invariant
                    self@.wf(),
                    pattern@.wf(),
                    x <= last_x,
                    last_x == self.width - pattern.width,
                    last_y == self.height - pattern.height,
                    pattern.width <= self.width,
                    pattern.height <= self.height,
                    rows == last_y + 1,
                    all == self@.candidates(pattern@),
                    all.len() == (last_x + 1) * rows,
                    pred == (|at: Point| self@.matches_at(pattern@, at)),
                ensures
                    found@ == all.subrange(0, (x + 1) * rows).filter(pred),
                decreases last_y - y,
            {
                let test_pt = Point { x, y };
                let ghost k: int = x * rows + y;
                proof {
                    assert(0 <= x * rows) by (nonlinear_arith)
                        requires
                            x >= 0,
                            rows > 0,
                    ;
                    assert(k < (last_x + 1) * rows) by (nonlinear_arith)
                        requires
                            k == x * rows + y,
                            0 <= y < rows,
                            0 <= x <= last_x,
                    ;
                    lemma_fundamental_div_mod_converse(k, rows, x as int, y as int);
                    assert(all[k] == test_pt);
                    assert(all.subrange(0, k + 1).drop_last() =~= all.subrange(0, k));
                    assert(all.subrange(0, k + 1).last() == test_pt);
                    reveal(Seq::filter);
                }
                if self.test_match(pattern, test_pt) {
                    found.push(test_pt);
                }
                if y == last_y {
                    assert((x + 1) * rows == x * rows + rows) by (nonlinear_arith);
                    break ;
                }
                y += 1;
            }
            if x == last_x {
                assert(all.subrange(0, all.len() as int) =~= all);
                break ;
            }
            x += 1;
        }
        found
    }
}

/// A pattern in which every cell is a wildcard.
pub open spec fn all_wildcards(pattern: GridView<Option<Symbol>>) -> bool {
    forall|i: int| 0 <= i < pattern.cells.len() ==> (#[trigger] pattern.cells[i]) is None
}

/// A position found by the scan is one at which the pattern fits and matches.
pub proof fn lemma_found_fits(
    grid: GridView<Symbol>,
    pattern: GridView<Option<Symbol>>,
    at: Point,
)
    requires
        grid.matches_of(pattern).contains(at),
    ensures
        grid.fits(pattern, at),
        grid.matches_at(pattern, at),
        grid.candidates(pattern).contains(at),
{
    let all = grid.candidates(pattern);
    let pred = |p: Point| grid.matches_at(pattern, p);
    broadcast use vstd::seq_lib::group_filter_ensures;
    all.lemma_filter_contains_rev(pred, at);
    let k = choose|k: int| 0 <= k < all.len() && all[k] == at;
    let columns = grid.scan_width(pattern) as int;
    let rows = grid.scan_height(pattern) as int;
    assert(rows > 0 && columns > 0) by (nonlinear_arith)
        requires
            0 <= k < columns * rows,
            rows >= 0,
            columns >= 0,
    ;
    lemma_fundamental_div_mod(k, rows);
    assert(k / rows < columns) by (nonlinear_arith)
        requires
            0 <= k < columns * rows,
            k == rows * (k / rows) + k % rows,
            0 <= k % rows < rows,
    ;
    assert(0 <= k / rows) by (nonlinear_arith)
        requires
            0 <= k,
            k == rows * (k / rows) + k % rows,
            0 <= k % rows < rows,
    ;
}

/// A position at which the pattern fits and matches is found by the scan.
pub proof fn lemma_match_is_found(
    grid: GridView<Symbol>,
    pattern: GridView<Option<Symbol>>,
    at: Point,
)
    requires
        grid.fits(pattern, at),
        grid.matches_at(pattern, at),
    ensures
        grid.matches_of(pattern).contains(at),
{
    let all = grid.candidates(pattern);
    let pred = |p: Point| grid.matches_at(pattern, p);
    let columns = grid.scan_width(pattern) as int;
    let rows = grid.scan_height(pattern) as int;
    let k = at.x * rows + at.y;
    assert(0 <= at.x * rows) by (nonlinear_arith)
        requires
            at.x >= 0,
            rows > 0,
    ;
    assert(k < columns * rows) by (nonlinear_arith)
        requires
            k == at.x * rows + at.y,
            0 <= at.y < rows,
            0 <= at.x < columns,
    ;
    lemma_fundamental_div_mod_converse(k, rows, at.x as int, at.y as int);
    assert(all[k] == at);
    broadcast use vstd::seq_lib::group_filter_ensures;
    assert(pred(all[k]));
}

/// A pattern made of wildcards alone matches wherever it is put, and the
/// scan finds every position at which it fits.
pub proof fn lemma_wildcards_match_everywhere(
    grid: GridView<Symbol>,
    pattern: GridView<Option<Symbol>>,
)
    requires
        grid.wf(),
        pattern.wf(),
        all_wildcards(pattern),
    ensures
        forall|at: Point| #[trigger] grid.matches_at(pattern, at),
        grid.matches_of(pattern) == grid.candidates(pattern),
{
    assert forall|at: Point| #[trigger] grid.matches_at(pattern, at) by {
        assert forall|px: int, py: int|
            pattern.has(px, py) && (#[trigger] pattern.at(px, py)) is Some implies grid.at(
            px + at.x,
            py + at.y,
        ) == pattern.at(px, py).unwrap() by {
            lemma_offset_in_range(pattern.width as int, pattern.height as int, px, py);
        }
    }
    let all = grid.candidates(pattern);
    let pred = |p: Point| grid.matches_at(pattern, p);
    lemma_filter_keeps_all(all, pred);
}

/// A filter that every item passes keeps the sequence as it is.
pub proof fn lemma_filter_keeps_all<A>(s: Seq<A>, pred: spec_fn(A) -> bool)
    requires
        forall|i: int| 0 <= i < s.len() ==> pred(#[trigger] s[i]),
    ensures
        s.filter(pred) == s,
    decreases s.len(),
{
    reveal(Seq::filter);
    if s.len() > 0 {
        lemma_filter_keeps_all(s.drop_last(), pred);
        assert(s.drop_last().push(s.last()) =~= s);
    }
}

/// Writing a pattern made of wildcards alone leaves the grid as it was.
pub proof fn lemma_wildcards_change_nothing(
    grid: GridView<Symbol>,
    pattern: GridView<Option<Symbol>>,
    at: Point,
)
    requires
        pattern.wf(),
        all_wildcards(pattern),
    ensures
        grid.applied(pattern, at) == grid,
{
    let after = grid.applied(pattern, at);
    assert forall|i: int| 0 <= i < grid.cells.len() implies after.cells[i] == grid.cells[i] by {
        let px = i % (grid.width as int) - at.x;
        let py = i / (grid.width as int) - at.y;
        if pattern.has(px, py) {
            lemma_offset_in_range(pattern.width as int, pattern.height as int, px, py);
        }
    }
    assert(after.cells =~= grid.cells);
}

} // verus!
