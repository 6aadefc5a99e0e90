//! The six symbols a grid cell can hold, and their one-letter notation.

use vstd::prelude::*;
use vstd::string::StrSliceExecFns;

verus! {

/// One of the six tile values.
#[derive(Copy, Clone, Debug, PartialEq, Eq, Structural)]
pub enum Symbol {
    Black,
    White,
    Red,
    Green,
    Blue,
    Emerald,
}

impl Default for Symbol {
    /// New grids are filled with black.
    fn default() -> (symbol: Symbol)
        ensures
            symbol == Symbol::Black,
    {
        Symbol::Black
    }
}

impl Symbol {
    /// The colours of the six symbols: red, green and blue of each, in the
    /// order of their palette indices.
    pub const PALETTE: [u8; 18] = [
        0x00, 0x00, 0x00, 0xff, 0xf1, 0x38, 0xff, 0x00, 0x4D, 0x00, 0xe4, 0x36, 0x29, 0xad, 0xff,
        0x00, 0x87, 0x51,
    ];

    /// What a character of a pattern text stands for: `Some(Some(s))` for the
    /// letter of symbol `s`, `Some(None)` for the wildcard `*`, and `None` for
    /// a character that the notation does not know.
    pub open spec fn cell_of(c: char) -> Option<Option<Symbol>> {
        if c == 'B' {
            Some(Some(Symbol::Black))
        } else if c == 'W' {
            Some(Some(Symbol::White))
        } else if c == 'R' {
            Some(Some(Symbol::Red))
        } else if c == 'G' {
            Some(Some(Symbol::Green))
        } else if c == 'U' {
            Some(Some(Symbol::Blue))
        } else if c == 'E' {
            Some(Some(Symbol::Emerald))
        } else if c == '*' {
            Some(None)
        } else {
            None
        }
    }

    /// Every character of `text` is a symbol letter or the wildcard.
    pub open spec fn recognizes(text: Seq<char>) -> bool {
        forall|i: int| 0 <= i < text.len() ==> (#[trigger] Symbol::cell_of(text[i])) is Some
    }

    /// The cells that a recognized text denotes, one per character.
    pub open spec fn cells_of(text: Seq<char>) -> Seq<Option<Symbol>> {
        Seq::new(text.len(), |i: int| Symbol::cell_of(text[i]).unwrap())
    }

    /// The letter that stands for a symbol.
    pub open spec fn letter_of(self) -> char {
        match self {
            Symbol::Black => 'B',
            Symbol::White => 'W',
            Symbol::Red => 'R',
            Symbol::Green => 'G',
            Symbol::Blue => 'U',
            Symbol::Emerald => 'E',
        }
    }

    /// The position of a symbol in the palette.
    pub open spec fn index_of(self) -> u8 {
        match self {
            Symbol::Black => 0,
            Symbol::White => 1,
            Symbol::Red => 2,
            Symbol::Green => 3,
            Symbol::Blue => 4,
            Symbol::Emerald => 5,
        }
    }

    /// Reads one character of a pattern text.
    pub fn from_char(c: char) -> (cell: Option<Option<Symbol>>)
        ensures
            cell == Symbol::cell_of(c),
    {
        if c == 'B' {
            Some(Some(Symbol::Black))
        } else if c == 'W' {
            Some(Some(Symbol::White))
        } else if c == 'R' {
            Some(Some(Symbol::Red))
        } else if c == 'G' {
            Some(Some(Symbol::Green))
        } else if c == 'U' {
            Some(Some(Symbol::Blue))
        } else if c == 'E' {
            Some(Some(Symbol::Emerald))
        } else if c == '*' {
            Some(None)
        } else {
            None
        }
    }

    /// Tells whether `from_string` accepts a text.
    pub fn can_read(string: &str) -> (known: bool)
        ensures
            known == Symbol::recognizes(string@),
    {
        let n: usize = string.unicode_len();
        let mut i: usize = 0;
        while i < n
            invariant
                n == string@.len(),
                i <= n,
                forall|j: int| 0 <= j < i ==> (#[trigger] Symbol::cell_of(string@[j])) is Some,
            decreases n - i,
        {
            if Symbol::from_char(string.get_char(i)).is_none() {
                return false;
            }
            i += 1;
        }
        true
    }

    /// Reads a row of cells, one per character. The text must be recognized.
    pub fn from_string(string: &str) -> (cells: Vec<Option<Symbol>>)
        requires
            Symbol::recognizes(string@),
        ensures
            cells@ == Symbol::cells_of(string@),
    {
        let n: usize = string.unicode_len();
        let mut cells: Vec<Option<Symbol>> = Vec::new();
        let mut i: usize = 0;
        while i < n
            invariant
                n == string@.len(),
                i <= n,
                Symbol::recognizes(string@),
                cells@.len() == i,
                forall|j: int| 0 <= j < i ==> cells@[j] == Symbol::cell_of(string@[j]).unwrap(),
            decreases n - i,
        {
            let cell = Symbol::from_char(string.get_char(i));
            assert(Symbol::cell_of(string@[i as int]) is Some);
            match cell {
                Some(c) => cells.push(c),
                None => {},
            }
            i += 1;
        }
        assert(cells@ =~= Symbol::cells_of(string@));
        cells
    }

    /// The stable number by which a renderer looks a symbol up in the palette.
    pub fn palette_index(&self) -> (index: u8)
        ensures
            index == self.index_of(),
            index < 6,
    {
        match self {
            Symbol::Black => 0,
            Symbol::White => 1,
            Symbol::Red => 2,
            Symbol::Green => 3,
            Symbol::Blue => 4,
            Symbol::Emerald => 5,
        }
    }

    /// The letter that stands for this symbol in a text.
    pub fn letter(&self) -> (c: char)
        ensures
            c == self.letter_of(),
            Symbol::cell_of(c) == Some(Some(*self)),
    {
        match self {
            Symbol::Black => 'B',
            Symbol::White => 'W',
            Symbol::Red => 'R',
            Symbol::Green => 'G',
            Symbol::Blue => 'U',
            Symbol::Emerald => 'E',
        }
    }
}

} // verus!
