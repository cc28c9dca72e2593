use vstd::prelude::*;

verus! {

/// A rectangular Game of Life board; cells outside the board are dead.
pub struct GameOfLife {
    grid: Vec<Vec<bool>>,
    width: usize,
    height: usize,
}

impl GameOfLife {
    /// Rows have the declared width and there are `height` of them.
    pub closed spec fn wf(&self) -> bool {
        &&& self.grid@.len() == self.height
        &&& forall|y: int| 0 <= y < self.height ==> (#[trigger] self.grid@[y])@.len() == self.width
    }

    pub closed spec fn spec_width(&self) -> nat {
        self.width as nat
    }

    pub closed spec fn spec_height(&self) -> nat {
        self.height as nat
    }

    /// Whether the cell at column `x`, row `y` is alive; off-board cells are dead.
    pub closed spec fn alive(&self, x: int, y: int) -> bool {
        0 <= x < self.width && 0 <= y < self.height && self.grid@[y]@[x]
    }

    pub open spec fn live_at(&self, x: int, y: int) -> int {
        if self.alive(x, y) { 1 } else { 0 }
    }

    /// Live cells among the offsets `(-1, dy) ..= (upto, dy)`, the centre excluded.
    pub open spec fn row_count(&self, x: int, y: int, dy: int, upto: int) -> int
        decreases upto + 2,
    {
        if upto < -1 {
            0
        } else {
            self.row_count(x, y, dy, upto - 1) + if upto == 0 && dy == 0 {
                0
            } else {
                self.live_at(x + upto, y + dy)
            }
        }
    }

    /// Live cells among the neighbour rows `-1 ..= upto`.
    pub open spec fn rows_count(&self, x: int, y: int, upto: int) -> int
        decreases upto + 2,
    {
        if upto < -1 {
            0
        } else {
            self.rows_count(x, y, upto - 1) + self.row_count(x, y, upto, 1)
        }
    }

    /// Number of live cells among the eight neighbours of `(x, y)`.
    pub open spec fn live_neighbors(&self, x: int, y: int) -> int {
        self.rows_count(x, y, 1)
    }

    /// The rule of the game: survival on two or three neighbours, birth on three.
    pub open spec fn next_alive(&self, x: int, y: int) -> bool {
        let n = self.live_neighbors(x, y);
        if self.alive(x, y) {
            n == 2 || n == 3
        } else {
            n == 3
        }
    }

    /// Only cells on the board can be alive: every cell past an edge is dead.
    pub proof fn lemma_alive_on_board(&self, x: int, y: int)
        ensures
            self.alive(x, y) ==> 0 <= x < self.spec_width() && 0 <= y < self.spec_height(),
    {
    }

    /// A cell more than one step past an edge has no live neighbour.
    pub proof fn lemma_far_off_board_no_neighbors(&self, x: int, y: int)
        requires
            x > self.spec_width() || y > self.spec_height() || x < -1 || y < -1,
        ensures
            self.live_neighbors(x, y) == 0,
    {
        reveal_with_fuel(GameOfLife::row_count, 4);
        reveal_with_fuel(GameOfLife::rows_count, 4);
    }

    /// A board of `width` by `height` dead cells.
    pub fn new(width: usize, height: usize) -> (r: GameOfLife)
        ensures
            r.wf(),
            r.spec_width() == width,
            r.spec_height() == height,
            forall|x: int, y: int| !r.alive(x, y),
    {
        let mut grid: Vec<Vec<bool>> = Vec::new();
        let mut y: usize = 0;
        while y < height
            invariant
                y <= height,
                grid@.len() == y,
                forall|j: int| 0 <= j < y ==> (#[trigger] grid@[j])@.len() == width,
                forall|j: int, i: int| 0 <= j < y && 0 <= i < width ==> !(#[trigger] grid@[j]@[i]),
            decreases height - y,
        {
            let mut row: Vec<bool> = Vec::new();
            let mut x: usize = 0;
            while x < width
                invariant
                    x <= width,
                    row@.len() == x,
                    forall|i: int| 0 <= i < x ==> !(#[trigger] row@[i]),
                decreases width - x,
            {
                row.push(false);
                x += 1;
            }
            grid.push(row);
            y += 1;
        }
        GameOfLife { grid, width, height }
    }

    pub fn width(&self) -> (r: usize)
        ensures
            r == self.spec_width(),
    {
        self.width
    }

    pub fn height(&self) -> (r: usize)
        ensures
            r == self.spec_height(),
    {
        self.height
    }

    /// Whether the cell at `(x, y)` is alive; false off the board.
    pub fn is_alive(&self, x: usize, y: usize) -> (r: bool)
        requires
            self.wf(),
        ensures
            r == self.alive(x as int, y as int),
    {
        x < self.width && y < self.height && self.grid[y][x]
    }

    /// Brings the cell at `(x, y)` to life; a position off the board changes nothing.
    pub fn set_alive(&mut self, x: usize, y: usize)
        requires
            old(self).wf(),
        ensures
            final(self).wf(),
            final(self).spec_width() == old(self).spec_width(),
            final(self).spec_height() == old(self).spec_height(),
            forall|i: int, j: int|
                #[trigger] final(self).alive(i, j) == (old(self).alive(i, j) || (i == x && j == y
                    && x < old(self).spec_width() && y < old(self).spec_height())),
    {
        if x < self.width && y < self.height {
            self.grid[y][x] = true;
        }
    }
    /// Counts the live cells among the eight neighbours of `(x, y)`; cells past an
    /// edge of the board count as dead.
    pub fn count_live_neighbors(&self, x: usize, y: usize) -> (r: u8)
        requires
            self.wf(),
        ensures
            r as int == self.live_neighbors(x as int, y as int),
    {
        let mut live: u8 = 0;
        let mut dy: i32 = -1;
        while dy <= 1
            invariant
                self.wf(),
                -1 <= dy <= 2,
                live as int == self.rows_count(x as int, y as int, dy - 1),
                live <= 3 * (dy + 1),
            decreases 2 - dy,
        {
            let mut dx: i32 = -1;
            while dx <= 1
                invariant
                    self.wf(),
                    -1 <= dy <= 1,
                    -1 <= dx <= 2,
                    live as int == self.rows_count(x as int, y as int, dy - 1) + self.row_count(
                        x as int,
                        y as int,
                        dy as int,
                        dx - 1,
                    ),
                    live <= 3 * (dy + 1) + (dx + 1),
                decreases 2 - dx,
            {
                if !(dx == 0 && dy == 0) {
                    let nx = if dx < 0 {
                        x.checked_sub((-dx) as usize)
                    } else {
                        x.checked_add(dx as usize)
                    };
                    let ny = if dy < 0 {
                        y.checked_sub((-dy) as usize)
                    } else {
                        y.checked_add(dy as usize)
                    };
                    if let (Some(nx), Some(ny)) = (nx, ny) {
                        if nx < self.width && ny < self.height {
                            if self.grid[ny][nx] {
                                live += 1;
                            }
                        }
                    }
                }
                dx += 1;
            }
            dy += 1;
        }
        live
    }

    /// Advances the board one generation; every cell follows `next_alive` of the
    /// board as it was.
    pub fn next_generation(&mut self)
        requires
            old(self).wf(),
        ensures
            final(self).wf(),
            final(self).spec_width() == old(self).spec_width(),
            final(self).spec_height() == old(self).spec_height(),
            forall|x: int, y: int|
                0 <= x < old(self).spec_width() && 0 <= y < old(self).spec_height() ==> (
                #[trigger] final(self).alive(x, y) == old(self).next_alive(x, y)),
    {
        let mut next_grid: Vec<Vec<bool>> = Vec::new();
        let mut y: usize = 0;
        while y < self.height
            invariant
                self.wf(),
                y <= self.height,
                next_grid@.len() == y,
                forall|j: int| 0 <= j < y ==> (#[trigger] next_grid@[j])@.len() == self.width,
                forall|j: int, i: int|
                    0 <= j < y && 0 <= i < self.width ==> (#[trigger] next_grid@[j]@[i]
                        == self.next_alive(i, j)),
            decreases self.height - y,
        {
            let mut row: Vec<bool> = Vec::new();
            let mut x: usize = 0;
            while x < self.width
                invariant
                    self.wf(),
                    y < self.height,
                    x <= self.width,
                    row@.len() == x,
                    forall|i: int| 0 <= i < x ==> (#[trigger] row@[i]) == self.next_alive(i, y as int),
                decreases self.width - x,
            {
                let live_neighbors = self.count_live_neighbors(x, y);
                let current_cell_is_alive = self.grid[y][x];
                let next = if current_cell_is_alive {
                    live_neighbors == 2 || live_neighbors == 3
                } else {
                    live_neighbors == 3
                };
                row.push(next);
                x += 1;
            }
            next_grid.push(row);
            y += 1;
        }
        self.grid = next_grid;
    }
}

} // verus!
