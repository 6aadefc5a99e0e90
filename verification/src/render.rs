//! What the grid hands to a renderer: its text, its indexed pixels, and a
//! still frame.

use vstd::prelude::*;
use vstd::arithmetic::div_mod::{lemma_fundamental_div_mod, lemma_fundamental_div_mod_converse};
use crate::grid::{GenericGrid, GridView};
use crate::point::Point;
use crate::symbol::Symbol;

verus! {

/// A frame of the `gif` crate. Nothing of its content is modelled here.
#[verifier::external_type_specification]
#[verifier::external_body]
pub struct ExFrame<'a>(gif::Frame<'a>);

/// The frame that `gif::Frame::from_indexed_pixels` makes of the given
/// extents and pixels, with no transparent index.
pub uninterp spec fn indexed_frame(width: u16, height: u16, pixels: Seq<u8>) -> gif::Frame<'static>;

/// Makes a frame with `gif::Frame::from_indexed_pixels`, without a
/// transparent index. Assumed of it: the frame depends on the extents and
/// the pixels alone. The call panics unless there are `width * height`
/// pixels, so that is required.
#[verifier::external_body]
pub(crate) fn frame_of_pixels(width: u16, height: u16, pixels: &Vec<u8>) -> (frame: gif::Frame<
    'static,
>)
    requires
        pixels@.len() == width * height,
    ensures
        frame == indexed_frame(width, height, pixels@),
{
    gif::Frame::from_indexed_pixels(width, height, pixels, None)
}

/// Appends a character with `String::push`. Assumed of it: the text
/// afterwards is the text before with the character at its end.
#[verifier::external_body]
pub(crate) fn push_char(text: &mut String, c: char)
    ensures
        final(text)@ == old(text)@.push(c),
{
    text.push(c);
}

impl GridView<Symbol> {
    /// The grid as text: the letters of each row, and a line feed after
    /// each row.
    pub open spec fn text(self) -> Seq<char> {
        let stride = self.width + 1;
        Seq::new(
            self.height * stride,
            |i: int|
                if i % (stride as int) == self.width {
                    '\n'
                } else {
                    self.at(i % (stride as int), i / (stride as int)).letter_of()
                },
        )
    }

    /// The grid as indexed pixels, row by row: each cell becomes a square
    /// of `tile` by `tile` pixels that hold the palette index of its symbol.
    pub open spec fn pixels(self, tile: nat) -> Seq<u8> {
        let row = self.width * tile;
        Seq::new(
            row * (self.height * tile),
            |i: int| self.at((i % (row as int)) / (tile as int), (i / (row as int)) / (tile as int)).index_of(),
        )
    }
}

impl GenericGrid<Symbol> {
    /// The grid as text, one line per row.
    pub fn to_text(&self) -> (text: String)
        requires
            self@.wf(),
        ensures
            text@ == self@.text(),
    {
        let ghost goal = self@.text();
        let ghost stride: int = self.width + 1;
        let mut text = String::new();
        let mut y: usize = 0;
        while y < self.height
            invariant
                self@.wf(),
                goal == self@.text(),
                stride == self.width + 1,
                y <= self.height,
                text@.len() == y * stride,
                forall|i: int| 0 <= i < text@.len() ==> text@[i] == goal[i],
            decreases self.height - y,
        {
            proof {
                assert(0 <= y * stride) by (nonlinear_arith)
                    requires
                        y >= 0,
                        stride > 0,
                ;
                assert((y + 1) * stride <= self.height * stride) by (nonlinear_arith)
                    requires
                        y + 1 <= self.height,
                        stride > 0,
                ;
                assert((y + 1) * stride == y * stride + stride) by (nonlinear_arith);
            }
            let mut x: usize = 0;
            while x < self.width
                invariant
                    self@.wf(),
                    goal == self@.text(),
                    stride == self.width + 1,
                    y < self.height,
                    x <= self.width,
                    0 <= y * stride,
                    y * stride + stride <= self.height * stride,
                    text@.len() == y * stride + x,
                    forall|i: int| 0 <= i < text@.len() ==> text@[i] == goal[i],
                decreases self.width - x,
            {
                proof {
                    lemma_fundamental_div_mod_converse(
                        y * stride + x,
                        stride,
                        y as int,
                        x as int,
                    );
                }
                let symbol = self[Point { x, y }];
                push_char(&mut text, symbol.letter());
                x += 1;
            }
            proof {
                lemma_fundamental_div_mod_converse(
                    y * stride + self.width,
                    stride,
                    y as int,
                    self.width as int,
                );
            }
            push_char(&mut text, '\n');
            y += 1;
        }
        assert(text@ =~= goal);
        text
    }

    /// The grid as a flat buffer of indexed pixels for tiles of
    /// `tile_size` pixels a side.
    pub fn render_pixels(&self, tile_size: u16) -> (pixels: Vec<u8>)
        requires
            self@.wf(),
            self.width * tile_size <= u16::MAX,
            self.height * tile_size <= u16::MAX,
        ensures
            pixels@ == self@.pixels(tile_size as nat),
            pixels@.len() == (self.width * tile_size) * (self.height * tile_size),
    {
        let ghost goal = self@.pixels(tile_size as nat);
        let tile: usize = tile_size as usize;
        let row: usize = self.width * tile;
        let rows: usize = self.height * tile;
        let mut pixels: Vec<u8> = Vec::new();
        let mut py: usize = 0;
        while py < rows
            invariant
                self@.wf(),
                goal == self@.pixels(tile_size as nat),
                tile == tile_size,
                row == self.width * tile,
                rows == self.height * tile,
                py <= rows,
                pixels@.len() == py * row,
                forall|i: int| 0 <= i < pixels@.len() ==> pixels@[i] == goal[i],
            decreases rows - py,
        {
            proof {
                assert(0 <= py * row) by (nonlinear_arith)
                    requires
                        py >= 0,
                        row >= 0,
                ;
                assert((py + 1) * row == py * row + row) by (nonlinear_arith);
                assert((py + 1) * row <= rows * row) by (nonlinear_arith)
                    requires
                        py + 1 <= rows,
                        row >= 0,
                ;
                assert(rows * row == row * rows) by (nonlinear_arith);
            }
            let mut px: usize = 0;
            while px < row
                invariant
                    self@.wf(),
                    goal == self@.pixels(tile_size as nat),
                    tile == tile_size,
                    row == self.width * tile,
                    rows == self.height * tile,
                    py < rows,
                    px <= row,
                    0 <= py * row,
                    py * row + row <= row * rows,
                    pixels@.len() == py * row + px,
                    forall|i: int| 0 <= i < pixels@.len() ==> pixels@[i] == goal[i],
                decreases row - px,
            {
                proof {
                    lemma_fundamental_div_mod_converse(
                        py * row + px,
                        row as int,
                        py as int,
                        px as int,
                    );
                    assert(tile > 0) by (nonlinear_arith)
                        requires
                            px < self.width * tile,
                            px >= 0,
                    ;
                    lemma_fundamental_div_mod(px as int, tile as int);
                    lemma_fundamental_div_mod(py as int, tile as int);
                    assert(0 <= px / tile < self.width) by (nonlinear_arith)
                        requires
                            0 <= px < self.width * tile,
                            px == tile * (px / tile) + px % tile,
                            0 <= px % tile < tile,
                    ;
                    assert(0 <= py / tile < self.height) by (nonlinear_arith)
                        requires
                            0 <= py < self.height * tile,
                            py == tile * (py / tile) + py % tile,
                            0 <= py % tile < tile,
                    ;
                }
                let symbol = self[Point { x: px / tile, y: py / tile }];
                pixels.push(symbol.palette_index());
                px += 1;
            }
            py += 1;
        }
        proof {
            assert(py * row == row * rows) by (nonlinear_arith)
                requires
                    py == rows,
            ;
            assert(pixels@ =~= goal);
        }
        pixels
    }

    /// A still frame of the grid for tiles of `tile_size` pixels a side.
    pub fn render_gif_frame(&self, tile_size: u16) -> (frame: gif::Frame<'static>)
        requires
            self@.wf(),
            self.width * tile_size <= u16::MAX,
            self.height * tile_size <= u16::MAX,
        ensures
            frame == indexed_frame(
                (self.width * tile_size) as u16,
                (self.height * tile_size) as u16,
                self@.pixels(tile_size as nat),
            ),
    {
        let width: u16 = (self.width * (tile_size as usize)) as u16;
        let height: u16 = (self.height * (tile_size as usize)) as u16;
        let pixels = self.render_pixels(tile_size);
        frame_of_pixels(width, height, &pixels)
    }
}

} // verus!
