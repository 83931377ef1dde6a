//! The radar view drawn as a 3×3 grid, row by row from the top.

use crate::radar_view::{Cell, Element, Entity, RadarView, WallState};
use vstd::prelude::*;

verus! {

/// What a square of the grid shows.
#[derive(Debug, Clone, Copy, PartialEq, Eq, Structural)]
pub enum GridCell {
    Unknown,
    Wall,
    Player,
    Open,
    Goal,
}

impl Cell {
    /// What the grid shows for this cell: nothing for a cell out of sight, the
    /// goal for a target, a player for an ally, else a free square.
    pub open spec fn shown(self) -> GridCell {
        match self {
            Cell::Invalid => GridCell::Unknown,
            Cell::Valid { element, entity } => {
                if element == Element::Target {
                    GridCell::Goal
                } else if entity == Entity::Ally {
                    GridCell::Player
                } else {
                    GridCell::Open
                }
            },
        }
    }

    /// Computes what the grid shows for this cell.
    pub fn to_grid_cell(&self) -> (shown: GridCell)
        ensures
            shown == self.shown(),
    {
        match self {
            Cell::Invalid => GridCell::Unknown,
            Cell::Valid { element, entity } => {
                if *element == Element::Target {
                    GridCell::Goal
                } else if *entity == Entity::Ally {
                    GridCell::Player
                } else {
                    GridCell::Open
                }
            },
        }
    }
}

impl GridCell {
    /// The character that is drawn for a square.
    pub open spec fn glyph(self) -> char {
        match self {
            GridCell::Unknown => '#',
            GridCell::Wall => '█',
            GridCell::Open => '.',
            GridCell::Player => 'P',
            GridCell::Goal => 'G',
        }
    }
}

/// The square in row `y` and column `x` of a grid.
pub open spec fn square(grid: [[GridCell; 3]; 3], y: int, x: int) -> GridCell {
    grid@[y]@[x]
}

/// The text of one row of a grid: each square as its character and a space,
/// then a line feed.
pub open spec fn row_text(grid: [[GridCell; 3]; 3], y: int) -> Seq<char> {
    seq![
        square(grid, y, 0).glyph(),
        ' ',
        square(grid, y, 1).glyph(),
        ' ',
        square(grid, y, 2).glyph(),
        ' ',
        '\n',
    ]
}

/// The text of a grid: its three rows from the top.
pub open spec fn grid_drawing(grid: [[GridCell; 3]; 3]) -> Seq<char> {
    row_text(grid, 0) + row_text(grid, 1) + row_text(grid, 2)
}

impl GridCell {
    /// Gives the character that is drawn for a square.
    pub fn to_char(&self) -> (c: char)
        ensures
            c == self.glyph(),
    {
        match self {
            GridCell::Unknown => '#',
            GridCell::Wall => '█',
            GridCell::Open => '.',
            GridCell::Player => 'P',
            GridCell::Goal => 'G',
        }
    }
}

impl RadarView {
    /// Writes a grid as three lines of text.
    pub fn grid_text(grid: &[[GridCell; 3]; 3]) -> (text: String)
        ensures
            text@ == grid_drawing(*grid),
    {
        let mut text = String::new();
        let mut y: usize = 0;
        while y < 3
            invariant
                y <= 3,
                text@ == (if y == 0 {
                    Seq::<char>::empty()
                } else if y == 1 {
                    row_text(*grid, 0)
                } else if y == 2 {
                    row_text(*grid, 0) + row_text(*grid, 1)
                } else {
                    grid_drawing(*grid)
                }),
            decreases 3 - y,
        {
            let ghost start = text@;
            let mut x: usize = 0;
            while x < 3
                invariant
                    y < 3,
                    x <= 3,
                    text@ == start + row_text(*grid, y as int).subrange(0, 2 * x),
                decreases 3 - x,
            {
                text.push(grid[y][x].to_char());
                text.push(' ');
                x += 1;
            }
            text.push('\n');
            y += 1;
        }
        text
    }

    /// Draws the cells on a grid, cell `i` in row `i / 3` and column `i % 3`.
    /// Squares without a cell stay unknown.
    pub fn radar_to_grid(&self) -> (grid: [[GridCell; 3]; 3])
        requires
            self.cells@.len() <= 9,
        ensures
            forall|y: int, x: int|
                0 <= y < 3 && 0 <= x < 3 ==> #[trigger] square(grid, y, x) == (if 3 * y + x
                    < self.cells@.len() {
                    self.cells@[3 * y + x].shown()
                } else {
                    GridCell::Unknown
                }),
    {
        let mut grid = [
            [GridCell::Unknown, GridCell::Unknown, GridCell::Unknown],
            [GridCell::Unknown, GridCell::Unknown, GridCell::Unknown],
            [GridCell::Unknown, GridCell::Unknown, GridCell::Unknown],
        ];
        let mut i: usize = 0;
        while i < self.cells.len()
            invariant
                i <= self.cells@.len() <= 9,
                forall|y: int, x: int|
                    0 <= y < 3 && 0 <= x < 3 ==> #[trigger] square(grid, y, x) == (if 3 * y + x
                        < i {
                        self.cells@[3 * y + x].shown()
                    } else {
                        GridCell::Unknown
                    }),
            decreases self.cells@.len() - i,
        {
            let x = i % 3;
            let y = i / 3;
            let ghost before = grid;
            grid[y][x] = self.cells[i].to_grid_cell();
            proof {
                assert forall|yy: int, xx: int| 0 <= yy < 3 && 0 <= xx < 3 implies #[trigger] square(
                    grid,
                    yy,
                    xx,
                ) == (if yy == y && xx == x {
                    self.cells@[i as int].shown()
                } else {
                    square(before, yy, xx)
                }) by {}
            }
            i += 1;
        }
        grid
    }

    /// Draws the horizontal walls on a grid: segment `3 * y + x`, for `y` and `x`
    /// below 2, lies on the square in row `2 * y + 1` and column `2 * x`. Only the
    /// segments 0 and 1 lie on the grid, so the segments 3 and 4 must not be walls.
    pub fn add_horizontal_walls(&self, grid: &mut [[GridCell; 3]; 3])
        requires
            self.horizontal@.len() >= 5,
            self.horizontal@[3] != WallState::Wall,
            self.horizontal@[4] != WallState::Wall,
        ensures
            forall|y: int, x: int|
                0 <= y < 3 && 0 <= x < 3 ==> #[trigger] square(*final(grid), y, x) == (if y == 1
                    && x % 2 == 0 && self.horizontal@[x / 2] == WallState::Wall {
                    GridCell::Wall
                } else {
                    square(*old(grid), y, x)
                }),
    {
        let ghost before = *grid;
        let mut y: usize = 0;
        while y < 2
            invariant
                y <= 2,
                self.horizontal@.len() >= 5,
                self.horizontal@[3] != WallState::Wall,
                self.horizontal@[4] != WallState::Wall,
                forall|yy: int, xx: int|
                    0 <= yy < 3 && 0 <= xx < 3 ==> #[trigger] square(*grid, yy, xx) == (if yy
                        == 1 && y >= 1 && xx % 2 == 0 && self.horizontal@[xx / 2]
                        == WallState::Wall {
                        GridCell::Wall
                    } else {
                        square(before, yy, xx)
                    }),
            decreases 2 - y,
        {
            let mut x: usize = 0;
            while x < 2
                invariant
                    y < 2,
                    x <= 2,
                    self.horizontal@.len() >= 5,
                    self.horizontal@[3] != WallState::Wall,
                    self.horizontal@[4] != WallState::Wall,
                    forall|yy: int, xx: int|
                        0 <= yy < 3 && 0 <= xx < 3 ==> #[trigger] square(*grid, yy, xx) == (if yy
                            == 1 && (y >= 1 || (y == 0 && xx / 2 < x)) && xx % 2 == 0
                            && self.horizontal@[xx / 2] == WallState::Wall {
                            GridCell::Wall
                        } else {
                            square(before, yy, xx)
                        }),
                decreases 2 - x,
            {
                let index = y * 3 + x;
                if let WallState::Wall = self.horizontal[index] {
                    grid[y * 2 + 1][x * 2] = GridCell::Wall;
                }
                x += 1;
            }
            y += 1;
        }
    }

    /// Draws the vertical walls on a grid: segment `2 * y + x`, for `y` below 3
    /// and `x` below 2, lies on the square in row `2 * y` and column `2 * x + 1`.
    /// Only the segments 0 and 2 lie on the grid, so the segments 1, 3, 4 and 5
    /// must not be walls.
    pub fn add_vertical_walls(&self, grid: &mut [[GridCell; 3]; 3])
        requires
            self.vertical@.len() >= 6,
            self.vertical@[1] != WallState::Wall,
            self.vertical@[3] != WallState::Wall,
            self.vertical@[4] != WallState::Wall,
            self.vertical@[5] != WallState::Wall,
        ensures
            forall|y: int, x: int|
                0 <= y < 3 && 0 <= x < 3 ==> #[trigger] square(*final(grid), y, x) == (if x == 1
                    && y % 2 == 0 && self.vertical@[y] == WallState::Wall {
                    GridCell::Wall
                } else {
                    square(*old(grid), y, x)
                }),
    {
        let ghost before = *grid;
        let mut y: usize = 0;
        while y < 3
            invariant
                y <= 3,
                self.vertical@.len() >= 6,
                self.vertical@[1] != WallState::Wall,
                self.vertical@[3] != WallState::Wall,
                self.vertical@[4] != WallState::Wall,
                self.vertical@[5] != WallState::Wall,
                forall|yy: int, xx: int|
                    0 <= yy < 3 && 0 <= xx < 3 ==> #[trigger] square(*grid, yy, xx) == (if xx
                        == 1 && yy % 2 == 0 && yy / 2 < y && self.vertical@[yy]
                        == WallState::Wall {
                        GridCell::Wall
                    } else {
                        square(before, yy, xx)
                    }),
            decreases 3 - y,
        {
            let mut x: usize = 0;
            while x < 2
                invariant
                    y < 3,
                    x <= 2,
                    self.vertical@.len() >= 6,
                    self.vertical@[1] != WallState::Wall,
                    self.vertical@[3] != WallState::Wall,
                    self.vertical@[4] != WallState::Wall,
                    self.vertical@[5] != WallState::Wall,
                    forall|yy: int, xx: int|
                        0 <= yy < 3 && 0 <= xx < 3 ==> #[trigger] square(*grid, yy, xx) == (if xx
                            == 1 && yy % 2 == 0 && (yy / 2 < y || (yy / 2 == y && x >= 1))
                            && self.vertical@[yy] == WallState::Wall {
                            GridCell::Wall
                        } else {
                            square(before, yy, xx)
                        }),
                decreases 2 - x,
            {
                let index = y * 2 + x;
                if let WallState::Wall = self.vertical[index] {
                    grid[y * 2][x * 2 + 1] = GridCell::Wall;
                }
                x += 1;
            }
            y += 1;
        }
    }
}

} // verus!
