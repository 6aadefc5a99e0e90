//! A fixed-size, row-major grid of cells, and its quarter turn.

use vstd::prelude::*;
use vstd::slice::slice_to_vec;
use crate::point::Point;

verus! {

/// The mathematical content of a grid: its extents and its cells, row by row.
pub struct GridView<T> {
    pub width: nat,
    pub height: nat,
    pub cells: Seq<T>,
}

impl<T> GridView<T> {
    /// There is exactly one cell for each position.
    pub open spec fn wf(self) -> bool {
        self.cells.len() == self.width * self.height
    }

    /// `(x, y)` names a cell of the grid.
    pub open spec fn has(self, x: int, y: int) -> bool {
        0 <= x < self.width && 0 <= y < self.height
    }

    /// The cell in column `x` of row `y`.
    pub open spec fn at(self, x: int, y: int) -> T {
        self.cells[y * self.width + x]
    }

    /// The grid turned by a quarter clockwise: the extents are exchanged, and
    /// the cell in column `x` of row `y` is the one that stood in column `y` of
    /// row `height - 1 - x`.
    pub open spec fn rotated(self) -> GridView<T> {
        GridView {
            width: self.height,
            height: self.width,
            cells: Seq::new(
                self.width * self.height,
                |i: int| self.at(i / (self.height as int), self.height - 1 - i % (self.height as int)),
            ),
        }
    }
}

/// A grid of `width * height` cells stored row by row, so that the cell in
/// column `x` of row `y` is `grid[y * width + x]`.
#[derive(Debug, PartialEq, Eq)]
pub struct GenericGrid<T> {
    pub width: usize,
    pub height: usize,
    pub grid: Vec<T>,
}

impl<T> View for GenericGrid<T> {
    type V = GridView<T>;

    open spec fn view(&self) -> GridView<T> {
        GridView { width: self.width as nat, height: self.height as nat, cells: self.grid@ }
    }
}

/// Row-major offsets stay below the number of cells.
pub proof fn lemma_offset_in_range(width: int, height: int, x: int, y: int)
    requires
        0 <= x < width,
        0 <= y < height,
    ensures
        0 <= y * width + x < width * height,
        (y * width + x) / width == y,
        (y * width + x) % width == x,
{
    assert(y * width + x < width * height) by (nonlinear_arith)
        requires
            0 <= x < width,
            0 <= y < height,
    ;
    assert(0 <= y * width) by (nonlinear_arith)
        requires
            0 <= y,
            0 < width,
    ;
    vstd::arithmetic::div_mod::lemma_fundamental_div_mod_converse(y * width + x, width, y, x);
}

impl<T> GenericGrid<T> {
    /// Tells whether the grid holds exactly one cell for each position.
    pub fn well_formed(&self) -> (ok: bool)
        ensures
            ok == self@.wf(),
    {
        let product = self.width.checked_mul(self.height);
        assert(self.grid@.len() == self.grid.len());
        match product {
            Some(count) => self.grid.len() == count,
            None => false,
        }
    }

    /// Tells whether a position names a cell of the grid.
    pub fn contains(&self, at: Point) -> (inside: bool)
        ensures
            inside == self@.has(at.x as int, at.y as int),
    {
        at.x < self.width && at.y < self.height
    }

    /// The place of a cell in the row-major storage.
    pub fn find_offset(&self, at: Point) -> (offset: usize)
        requires
            self@.wf(),
            self@.has(at.x as int, at.y as int),
        ensures
            offset == at.y * self.width + at.x,
            offset < self.grid@.len(),
    {
        proof {
            lemma_offset_in_range(self.width as int, self.height as int, at.x as int, at.y as int);
            assert(0 <= at.y * self.width) by (nonlinear_arith);
            assert(self.grid@.len() == self.grid.len());
        }
        at.y * self.width + at.x
    }
}

impl<T> vstd::std_specs::core::IndexSpecImpl<Point> for GenericGrid<T> {
    open spec fn index_req(&self, index: &Point) -> bool {
        self@.wf() && self@.has(index.x as int, index.y as int)
    }
}

impl<T> std::ops::Index<Point> for GenericGrid<T> {
    type Output = T;

    /// The cell at a position of the grid.
    fn index(&self, index: Point) -> (cell: &T)
        ensures
            *cell == self@.at(index.x as int, index.y as int),
    {
        let offset: usize = self.find_offset(index);
        &self.grid[offset]
    }
}

impl<T> std::ops::IndexMut<Point> for GenericGrid<T> {
    /// The cell at a position of the grid, to be written.
    fn index_mut(&mut self, index: Point) -> (cell: &mut T)
        requires
            old(self)@.wf(),
            old(self)@.has(index.x as int, index.y as int),
        ensures
            *cell == old(self)@.at(index.x as int, index.y as int),
            final(self).width == old(self).width,
            final(self).height == old(self).height,
            final(self)@.cells == old(self)@.cells.update(
                index.y * old(self).width + index.x,
                *final(cell),
            ),
    {
        let offset: usize = self.find_offset(index);
        &mut self.grid[offset]
    }
}

impl<T: Copy + Default> GenericGrid<T> {
    /// A grid of the given extents in which every cell holds the default value.
    pub fn new(width: usize, height: usize) -> (fresh: Self)
        requires
            width * height <= usize::MAX,
        ensures
            fresh.width == width,
            fresh.height == height,
            fresh@.wf(),
            forall|i: int|
                0 <= i < fresh@.cells.len() ==> call_ensures(
                    T::default,
                    (),
                    #[trigger] fresh@.cells[i],
                ),
            forall|i: int, j: int|
                0 <= i < fresh@.cells.len() && 0 <= j < fresh@.cells.len() ==> fresh@.cells[i]
                    == fresh@.cells[j],
    {
        let count: usize = width * height;
        let filler: T = T::default();
        let mut grid: Vec<T> = Vec::with_capacity(count);
        let mut i: usize = 0;
        while i < count
            invariant
                i <= count,
                grid@.len() == i,
                call_ensures(T::default, (), filler),
                forall|j: int| 0 <= j < i ==> grid@[j] == filler,
            decreases count - i,
        {
            grid.push(filler);
            i += 1;
        }
        GenericGrid { grid, width, height }
    }
}

impl<T: Copy> GenericGrid<T> {
    /// A grid of one row that holds the given cells.
    pub fn from_string(string: &[T]) -> (row: Self)
        ensures
            row.width == string@.len(),
            row.height == 1,
            row@.cells == string@,
            row@.wf(),
    {
        let width: usize = string.len();
        let grid: Vec<T> = slice_to_vec(string);
        assert(width * 1 == width);
        GenericGrid { grid, width, height: 1 }
    }

    /// The cell at a position of the grid.
    pub fn get(&self, at: Point) -> (cell: T)
        requires
            self@.wf(),
            self@.has(at.x as int, at.y as int),
        ensures
            cell == self@.at(at.x as int, at.y as int),
    {
        let offset: usize = self.find_offset(at);
        self.grid[offset]
    }

    /// Puts a value into the cell at a position of the grid.
    pub fn set(&mut self, at: Point, value: T)
        requires
            old(self)@.wf(),
            old(self)@.has(at.x as int, at.y as int),
        ensures
            final(self).width == old(self).width,
            final(self).height == old(self).height,
            final(self)@.cells == old(self)@.cells.update(at.y * old(self).width + at.x, value),
            final(self)@.wf(),
    {
        let offset: usize = self.find_offset(at);
        self.grid.set(offset, value);
    }

    /// The grid turned by a quarter clockwise. The receiver stays as it is.
    pub fn rotate_cw(&self) -> (turned: Self)
        requires
            self@.wf(),
        ensures
            turned@ == self@.rotated(),
            turned@.wf(),
    {
        let ghost goal = self@.rotated();
        let mut grid: Vec<T> = Vec::with_capacity(self.grid.len());
        let mut x: usize = 0;
        while x < self.width
            invariant
                self@.wf(),
                goal == self@.rotated(),
                x <= self.width,
                grid@.len() == x * self.height,
                forall|i: int| 0 <= i < grid@.len() ==> grid@[i] == goal.cells[i],
            decreases self.width - x,
        {
            let mut done: usize = 0;
            while done < self.height
                invariant
                    self@.wf(),
                    goal == self@.rotated(),
                    x < self.width,
                    done <= self.height,
                    grid@.len() == x * self.height + done,
                    forall|i: int| 0 <= i < grid@.len() ==> grid@[i] == goal.cells[i],
                decreases self.height - done,
            {
                let y: usize = self.height - 1 - done;
                let cell: T = self.get(Point { x, y });
                proof {
                    lemma_offset_in_range(
                        self.height as int,
                        self.width as int,
                        done as int,
                        x as int,
                    );
                    assert(self.width * self.height == self.height * self.width)
                        by (nonlinear_arith);
                }
                grid.push(cell);
                done += 1;
            }
            assert((x + 1) * self.height == x * self.height + self.height) by (nonlinear_arith);
            x += 1;
        }
        let turned = GenericGrid { grid, width: self.height, height: self.width };
        proof {
            assert(self.width * self.height == self.height * self.width) by (nonlinear_arith);
            assert(turned@.cells =~= goal.cells);
        }
        turned
    }
}

impl<T: Copy> Clone for GenericGrid<T> {
    /// An independent copy with the same extents and cells.
    fn clone(&self) -> (copy: Self)
        ensures
            copy@ == self@,
    {
        let mut grid: Vec<T> = Vec::with_capacity(self.grid.len());
        let mut i: usize = 0;
        while i < self.grid.len()
            invariant
                i <= self.grid.len(),
                grid@.len() == i,
                forall|j: int| 0 <= j < i ==> grid@[j] == self.grid@[j],
            decreases self.grid.len() - i,
        {
            grid.push(self.grid[i]);
            i += 1;
        }
        assert(grid@ =~= self.grid@);
        GenericGrid { grid, width: self.width, height: self.height }
    }
}

/// The cell of a turned grid, named by where it came from.
pub proof fn lemma_rotated_at<T>(g: GridView<T>, x: int, y: int)
    requires
        g.wf(),
        g.rotated().has(x, y),
    ensures
        g.rotated().wf(),
        g.has(y, g.height - 1 - x),
        g.rotated().at(x, y) == g.at(y, g.height - 1 - x),
{
    lemma_offset_in_range(g.height as int, g.width as int, x, y);
    assert(g.width * g.height == g.height * g.width) by (nonlinear_arith);
}

/// Four quarter turns bring every grid back to itself.
pub proof fn lemma_rotate_round_trip<T>(g: GridView<T>)
    requires
        g.wf(),
    ensures
        g.rotated().rotated().rotated().rotated() == g,
{
    let r1 = g.rotated();
    let r2 = r1.rotated();
    let r3 = r2.rotated();
    let r4 = r3.rotated();
    assert(g.width * g.height == g.height * g.width) by (nonlinear_arith);
    assert(r1.wf() && r2.wf() && r3.wf() && r4.wf());
    assert forall|i: int| 0 <= i < r4.cells.len() implies r4.cells[i] == g.cells[i] by {
        let w = g.width as int;
        let h = g.height as int;
        assert(w > 0 && h > 0) by (nonlinear_arith)
            requires
                0 <= i < w * h,
                w >= 0,
                h >= 0,
        ;
        let x = i % w;
        let y = i / w;
        vstd::arithmetic::div_mod::lemma_fundamental_div_mod(i, w);
        vstd::arithmetic::div_mod::lemma_mod_bound(i, w);
        assert(0 <= y < h) by (nonlinear_arith)
            requires
                0 <= i < w * h,
                i == w * y + x,
                0 <= x < w,
        ;
        assert(y * w + x == i) by (nonlinear_arith)
            requires
                i == w * y + x,
        ;
        lemma_rotated_at(r3, x, y);
        lemma_rotated_at(r2, y, w - 1 - x);
        lemma_rotated_at(r1, w - 1 - x, h - 1 - y);
        lemma_rotated_at(g, h - 1 - y, x);
        assert(r4.at(x, y) == g.at(x, y));
    }
    assert(r4.cells =~= g.cells);
}

} // verus!
