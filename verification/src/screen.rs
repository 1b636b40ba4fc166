//! The text screen: an 80x25 character grid, the data the display adapter
//! shows. Painting it is plain logic on the grid; handing the cells to the
//! adapter's memory is the display driver's business, outside this crate.

use vstd::prelude::*;

verus! {

pub const SCREEN_W: usize = 80;

pub const SCREEN_H: usize = 25;

/// All cells blank.
pub open spec fn blank_grid() -> Seq<char> {
    Seq::new(2000, |k: int| ' ')
}

/// The grid after writing string `s` on row `y` starting at column `x`;
/// what would fall past the right edge or off the screen is clipped.
pub open spec fn write_str(g: Seq<char>, x: int, y: int, s: Seq<char>) -> Seq<char> {
    Seq::new(
        g.len(),
        |k: int|
            {
                let row = k / 80;
                let col = k % 80;
                if row == y && x <= col < x + s.len() {
                    s[col - x]
                } else {
                    g[k]
                }
            },
    )
}

/// The grid after writing one character at column `x` of row `y`.
pub open spec fn write_char(g: Seq<char>, x: int, y: int, c: char) -> Seq<char> {
    Seq::new(
        g.len(),
        |k: int|
            {
                let row = k / 80;
                let col = k % 80;
                if row == y && col == x {
                    c
                } else {
                    g[k]
                }
            },
    )
}

/// The grid after drawing a `w` by `h` box frame whose top-left corner is
/// at (`x`, `y`): `+` corners, `-` top and bottom edges, `|` sides.
pub open spec fn write_box(g: Seq<char>, x: int, y: int, w: int, h: int) -> Seq<char> {
    Seq::new(
        g.len(),
        |k: int|
            {
                let row = k / 80;
                let col = k % 80;
                if (row == y || row == y + h - 1) && x <= col < x + w {
                    if col == x || col == x + w - 1 {
                        '+'
                    } else {
                        '-'
                    }
                } else if (col == x || col == x + w - 1) && y < row < y + h - 1 {
                    '|'
                } else {
                    g[k]
                }
            },
    )
}

/// The character-mode display: a fixed grid of cells.
pub struct Cga {
    pub cells: Vec<char>,
}

impl Cga {
    pub open spec fn wf(self) -> bool {
        self.cells@.len() == 2000
    }

    /// A fresh, blank screen.
    pub fn new() -> (r: Cga)
        ensures
            r.wf(),
            r.cells@ == blank_grid(),
    {
        let mut cells: Vec<char> = Vec::new();
        let mut k: usize = 0;
        while k < 2000
            invariant
                k <= 2000,
                cells@.len() == k,
                forall|j: int| 0 <= j < k ==> cells@[j] == ' ',
            decreases 2000 - k,
        {
            cells.push(' ');
            k = k + 1;
        }
        let r = Cga { cells };
        proof {
            assert(r.cells@ =~= blank_grid());
        }
        r
    }

    /// Clears the whole screen to blanks.
    pub fn blank(&mut self)
        requires
            old(self).wf(),
        ensures
            final(self).wf(),
            final(self).cells@ == blank_grid(),
    {
        let mut k: usize = 0;
        while k < 2000
            invariant
                k <= 2000,
                self.cells@.len() == 2000,
                forall|j: int| 0 <= j < k ==> self.cells@[j] == ' ',
            decreases 2000 - k,
        {
            self.cells[k] = ' ';
            k = k + 1;
        }
        proof {
            assert(self.cells@ =~= blank_grid());
        }
    }

    /// Writes `s` on row `y` from column `x`, clipping at the screen edge.
    pub fn put_string_at(&mut self, x: usize, y: usize, s: &str)
        requires
            old(self).wf(),
        ensures
            final(self).wf(),
            final(self).cells@ == write_str(old(self).cells@, x as int, y as int, s@),
    {
        let s_len = s.unicode_len();
        let ghost target = write_str(old(self).cells@, x as int, y as int, s@);
        let mut k: usize = 0;
        while k < 2000
            invariant
                k <= 2000,
                self.cells@.len() == 2000,
                old(self).cells@.len() == 2000,
                s_len == s@.len(),
                target == write_str(old(self).cells@, x as int, y as int, s@),
                forall|j: int| 0 <= j < k ==> self.cells@[j] == target[j],
                forall|j: int| k <= j < 2000 ==> self.cells@[j] == old(self).cells@[j],
            decreases 2000 - k,
        {
            let row = k / 80;
            let col = k % 80;
            if row == y && col >= x && col - x < s_len {
                let c = s.get_char(col - x);
                self.cells[k] = c;
            }
            k = k + 1;
        }
        proof {
            assert(self.cells@ =~= target);
        }
    }

    /// Writes one character at column `x` of row `y`; off-screen positions
    /// are clipped.
    pub fn put_char_at(&mut self, x: usize, y: usize, c: char)
        requires
            old(self).wf(),
        ensures
            final(self).wf(),
            final(self).cells@ == write_char(old(self).cells@, x as int, y as int, c),
    {
        let ghost target = write_char(old(self).cells@, x as int, y as int, c);
        let mut k: usize = 0;
        while k < 2000
            invariant
                k <= 2000,
                self.cells@.len() == 2000,
                old(self).cells@.len() == 2000,
                target == write_char(old(self).cells@, x as int, y as int, c),
                forall|j: int| 0 <= j < k ==> self.cells@[j] == target[j],
                forall|j: int| k <= j < 2000 ==> self.cells@[j] == old(self).cells@[j],
            decreases 2000 - k,
        {
            let row = k / 80;
            let col = k % 80;
            if row == y && col == x {
                self.cells[k] = c;
            }
            k = k + 1;
        }
        proof {
            assert(self.cells@ =~= target);
        }
    }

    /// Draws a box frame of width `w` and height `h` from (`x`, `y`).
    pub fn draw_box(&mut self, x: usize, y: usize, w: usize, h: usize)
        requires
            old(self).wf(),
            x + w <= usize::MAX,
            y + h <= usize::MAX,
        ensures
            final(self).wf(),
            final(self).cells@ == write_box(
                old(self).cells@,
                x as int,
                y as int,
                w as int,
                h as int,
            ),
    {
        let ghost target = write_box(old(self).cells@, x as int, y as int, w as int, h as int);
        let mut k: usize = 0;
        while k < 2000
            invariant
                k <= 2000,
                self.cells@.len() == 2000,
                old(self).cells@.len() == 2000,
                x + w <= usize::MAX,
                y + h <= usize::MAX,
                target == write_box(old(self).cells@, x as int, y as int, w as int, h as int),
                forall|j: int| 0 <= j < k ==> self.cells@[j] == target[j],
                forall|j: int| k <= j < 2000 ==> self.cells@[j] == old(self).cells@[j],
            decreases 2000 - k,
        {
            let row = k / 80;
            let col = k % 80;
            if (row == y || row + 1 == y + h) && col >= x && col < x + w {
                if col == x || col + 1 == x + w {
                    self.cells[k] = '+';
                } else {
                    self.cells[k] = '-';
                }
            } else if (col == x || col + 1 == x + w) && row > y && row + 1 < y + h {
                self.cells[k] = '|';
            }
            k = k + 1;
        }
        proof {
            assert(self.cells@ =~= target);
        }
    }
}

} // verus!
