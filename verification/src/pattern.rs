//! Patterns: grids of optional symbols, written as text with `/` between rows.

use vstd::prelude::*;
use vstd::string::StrSliceExecFns;
use vstd::arithmetic::div_mod::lemma_fundamental_div_mod_converse;
use crate::grid::{GenericGrid, GridView};
use crate::symbol::Symbol;

verus! {

/// A template of optional symbols; a cell of `None` is a wildcard.
pub type Pattern = GenericGrid<Option<Symbol>>;

/// The canvas that rules rewrite.
pub type Grid = GenericGrid<Symbol>;

/// The number of characters before the first `/` of a text, or its length
/// where it has none: the width of its first row.
pub open spec fn row_width(text: Seq<char>) -> nat
    decreases text.len(),
{
    if text.len() == 0 || text[0] == '/' {
        0
    } else {
        1 + row_width(text.drop_first())
    }
}

/// The number of rows of a pattern text.
pub open spec fn row_count(text: Seq<char>) -> nat {
    ((text.len() + 1) as int / (row_width(text) + 1) as int) as nat
}

/// A pattern text is made of rows of one width with a `/` between each two;
/// every other character is a symbol letter or the wildcard.
pub open spec fn is_pattern_text(text: Seq<char>) -> bool {
    let stride: int = (row_width(text) + 1) as int;
    &&& (text.len() + 1) as int % stride == 0
    &&& forall|i: int|
        0 <= i < text.len() ==> if i % stride == stride - 1 {
            #[trigger] text[i] == '/'
        } else {
            Symbol::cell_of(text[i]) is Some
        }
}

/// A pattern text whose rows can be counted in `usize`: only such a text
/// can be held as a pattern.
pub open spec fn denotes_pattern(text: Seq<char>) -> bool {
    is_pattern_text(text) && row_count(text) <= usize::MAX
}

/// The pattern that a pattern text denotes: row `y` of the pattern is row `y`
/// of the text.
pub open spec fn pattern_of(text: Seq<char>) -> GridView<Option<Symbol>> {
    let width = row_width(text);
    let height = row_count(text);
    GridView {
        width,
        height,
        cells: Seq::new(
            width * height,
            |i: int|
                Symbol::cell_of(text[(i / (width as int)) * (width + 1) + i % (width as int)]).unwrap(),
        ),
    }
}

/// The first row ends at the first `/`.
pub proof fn lemma_row_width(text: Seq<char>, width: int)
    requires
        0 <= width <= text.len(),
        forall|k: int| 0 <= k < width ==> text[k] != '/',
        width == text.len() || text[width] == '/',
    ensures
        row_width(text) == width,
    decreases width,
{
    if width > 0 {
        let rest = text.drop_first();
        assert forall|k: int| 0 <= k < width - 1 implies rest[k] != '/' by {
            assert(rest[k] == text[k + 1]);
        }
        lemma_row_width(rest, width - 1);
    }
}

/// A text of symbol letters and wildcards alone is a pattern text of one
/// row, which holds the cells of the text.
pub proof fn lemma_one_row_text(text: Seq<char>)
    requires
        Symbol::recognizes(text),
    ensures
        denotes_pattern(text),
        pattern_of(text).width == text.len(),
        pattern_of(text).height == 1,
        pattern_of(text).cells == Symbol::cells_of(text),
{
    let n = text.len() as int;
    assert forall|k: int| 0 <= k < n implies text[k] != '/' by {
        assert(Symbol::cell_of(text[k]) is Some);
    }
    lemma_row_width(text, n);
    lemma_fundamental_div_mod_converse(n + 1, n + 1, 1, 0);
    assert forall|i: int| 0 <= i < n implies i % (n + 1) == i && (#[trigger] Symbol::cell_of(
        text[i],
    )) is Some by {
        lemma_fundamental_div_mod_converse(i, n + 1, 0, i);
    }
    assert(row_count(text) == 1);
    assert(n * 1 == n);
    assert(pattern_of(text).cells.len() == n);
    assert forall|i: int| 0 <= i < n implies #[trigger] pattern_of(text).cells[i]
        == Symbol::cells_of(text)[i] by {
        lemma_fundamental_div_mod_converse(i, n, 0, i);
        assert((i / n) * (n + 1) + i % n == i);
    }
    assert(pattern_of(text).cells =~= Symbol::cells_of(text));
}

impl GenericGrid<Option<Symbol>> {
    /// Reads a pattern text. The result is `None` exactly where the text
    /// denotes no pattern: a character is unknown, the rows differ in width,
    /// or there are more rows than `usize` can count.
    pub fn from_text(text: &str) -> (pattern: Option<Pattern>)
        ensures
            pattern is Some <==> denotes_pattern(text@),
            pattern is Some ==> pattern.unwrap()@ == pattern_of(text@) && pattern.unwrap()@.wf(),
    {
        let n: usize = text.unicode_len();
        let mut width: usize = 0;
        while width < n && text.get_char(width) != '/'
            invariant
                n == text@.len(),
                width <= n,
                forall|k: int| 0 <= k < width ==> text@[k] != '/',
            decreases n - width,
        {
            width += 1;
        }
        proof {
            lemma_row_width(text@, width as int);
        }
        let ghost stride: int = width + 1;
        let mut cells: Vec<Option<Symbol>> = Vec::new();
        let mut rows: usize = 0;
        let mut col: usize = 0;
        let mut i: usize = 0;
        while i < n
            invariant
                n == text@.len(),
                stride == width + 1,
                row_width(text@) == width,
                i <= n,
                col <= width,
                i == rows * stride + col,
                cells@.len() == rows * width + col,
                forall|j: int|
                    0 <= j < i ==> if j % stride == stride - 1 {
                        #[trigger] text@[j] == '/'
                    } else {
                        Symbol::cell_of(text@[j]) is Some
                    },
                forall|k: int|
                    0 <= k < cells@.len() ==> #[trigger] cells@[k] == Symbol::cell_of(
                        text@[(k / (width as int)) * stride + k % (width as int)],
                    ).unwrap(),
            decreases n - i,
        {
            let c: char = text.get_char(i);
            proof {
                assert(0 <= rows * stride) by (nonlinear_arith)
                    requires
                        rows >= 0,
                        stride > 0,
                ;
                lemma_fundamental_div_mod_converse(i as int, stride, rows as int, col as int);
            }
            if col == width {
                if c != '/' {
                    return None;
                }
                assert((rows + 1) * stride == rows * stride + stride) by (nonlinear_arith);
                assert((rows + 1) * width == rows * width + width) by (nonlinear_arith);
                assert(rows <= i) by (nonlinear_arith)
                    requires
                        i == rows * stride + col,
                        stride >= 1,
                        col == width,
                        stride == width + 1,
                        rows >= 0,
                ;
                rows += 1;
                col = 0;
            } else {
                match Symbol::from_char(c) {
                    None => {
                        return None;
                    },
                    Some(cell) => {
                        proof {
                            let k = cells@.len() as int;
                            assert(0 <= rows * width) by (nonlinear_arith)
                                requires
                                    rows >= 0,
                                    width >= 0,
                            ;
                            lemma_fundamental_div_mod_converse(
                                k,
                                width as int,
                                rows as int,
                                col as int,
                            );
                        }
                        cells.push(cell);
                        col += 1;
                    },
                }
            }
            i += 1;
        }
        proof {
            assert(0 <= rows * stride) by (nonlinear_arith)
                requires
                    rows >= 0,
                    stride > 0,
            ;
        }
        if col != width {
            proof {
                lemma_fundamental_div_mod_converse(n + 1, stride, rows as int, col + 1);
            }
            return None;
        }
        proof {
            assert((rows + 1) * stride == rows * stride + stride) by (nonlinear_arith);
            lemma_fundamental_div_mod_converse(n + 1, stride, rows + 1, 0);
            assert(width * (rows + 1) == rows * width + width) by (nonlinear_arith);
        }
        if rows == usize::MAX {
            return None;
        }
        let pattern = GenericGrid { grid: cells, width, height: rows + 1 };
        assert(pattern@.cells =~= pattern_of(text@).cells);
        Some(pattern)
    }
}

} // verus!
