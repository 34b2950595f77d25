//! A rectangular surface of character cells and the primitives that draw on it.

use crate::strings::chars_of;
use vstd::prelude::*;

verus! {

/// A 24-bit colour: red, green, blue.
#[derive(Debug, Clone, Copy, PartialEq, Eq, Structural)]
pub struct Rgb(pub u8, pub u8, pub u8);

/// One character cell of the surface.
#[derive(Debug, Clone, Copy, PartialEq, Eq, Structural)]
pub struct Cell {
    pub bg: Rgb,
    pub fg: Rgb,
    pub c: char,
}

impl Cell {
    pub fn new(bg: Rgb, fg: Rgb, c: char) -> (cell: Self)
        ensures
            cell == (Cell { bg, fg, c }),
    {
        Self { bg, fg, c }
    }

    /// A blank cell of the given background, with a white foreground.
    pub fn new_bg(bg: Rgb) -> (cell: Self)
        ensures
            cell == (Cell { bg, fg: Rgb(255, 255, 255), c: ' ' }),
    {
        Self { bg, fg: Rgb(255, 255, 255), c: ' ' }
    }
}

impl Default for Cell {
    /// A blank cell, white on black.
    fn default() -> (cell: Self)
        ensures
            cell == (Cell { bg: Rgb(0, 0, 0), fg: Rgb(255, 255, 255), c: ' ' }),
    {
        Self { bg: Rgb(0, 0, 0), fg: Rgb(255, 255, 255), c: ' ' }
    }
}

/// The mathematical content of a surface: its size and its cells, row by row.
pub struct Grid {
    pub width: nat,
    pub height: nat,
    pub cells: Seq<Cell>,
}

impl Grid {
    /// Whether `(x, y)` names a cell of the grid.
    pub open spec fn contains(self, x: int, y: int) -> bool {
        0 <= x < self.width && 0 <= y < self.height
    }

    /// The cell at column `x` of row `y`.
    pub open spec fn at(self, x: int, y: int) -> Cell {
        self.cells[x + y * self.width]
    }

    /// The grid with the cell at `(x, y)` replaced; unchanged where `(x, y)` lies outside.
    pub open spec fn put(self, x: int, y: int, cell: Cell) -> Grid {
        if self.contains(x, y) {
            Grid { cells: self.cells.update(x + y * self.width, cell), ..self }
        } else {
            self
        }
    }

    /// A grid of the given size with `fill` in every cell.
    pub open spec fn filled(width: nat, height: nat, fill: Cell) -> Grid {
        Grid { width, height, cells: Seq::new(width * height, |i: int| fill) }
    }

    /// Every cell has a place: there are `width * height` of them.
    pub open spec fn wf(self) -> bool {
        self.cells.len() == self.width * self.height
    }

    /// The grid with `cell` in every place that `region` holds of, and the old
    /// cell everywhere else.
    pub open spec fn paint(self, region: spec_fn(int, int) -> bool, cell: Cell) -> Grid {
        Grid {
            cells: Seq::new(
                self.cells.len(),
                |i: int|
                    if self.width > 0 && region(i % self.width as int, i / self.width as int) {
                        cell
                    } else {
                        self.cells[i]
                    },
            ),
            ..self
        }
    }
}

/// Whether `(x, y)` is one of `points`.
pub open spec fn covers(points: Seq<(isize, isize)>, x: int, y: int) -> bool {
    exists|i: int| 0 <= i < points.len() && (#[trigger] points[i]).0 == x && points[i].1 == y
}

/// `covers` for fixed points, as a region of the plane.
pub open spec fn covered_by(points: Seq<(isize, isize)>) -> spec_fn(int, int) -> bool {
    |x: int, y: int| covers(points, x, y)
}

/// A grid that agrees, cell by cell, with the painting of another is that painting.
pub proof fn lemma_paint_by_cells(
    before: Grid,
    after: Grid,
    region: spec_fn(int, int) -> bool,
    cell: Cell,
)
    requires
        before.wf(),
        after.wf(),
        after.width == before.width,
        after.height == before.height,
        forall|x: int, y: int|
            before.contains(x, y) ==> #[trigger] after.at(x, y) == if region(x, y) {
                cell
            } else {
                before.at(x, y)
            },
    ensures
        after == before.paint(region, cell),
{
    let painted = before.paint(region, cell);
    assert forall|i: int| 0 <= i < after.cells.len() implies after.cells[i] == painted.cells[i] by {
        let w = before.width as int;
        if w == 0 {
            assert(before.width * before.height == 0) by (nonlinear_arith)
                requires
                    before.width == 0,
            ;
        } else {
            let x = i % w;
            let y = i / w;
            vstd::arithmetic::div_mod::lemma_fundamental_div_mod(i, w);
            vstd::arithmetic::div_mod::lemma_mod_bound(i, w);
            assert(y * w == w * y) by (nonlinear_arith);
            assert(0 <= y < before.height) by (nonlinear_arith)
                requires
                    0 <= i < w * before.height,
                    i == w * y + x,
                    0 <= x < w,
            ;
            assert(after.at(x, y) == after.cells[i]);
        }
    }
    assert(after.cells =~= painted.cells);
}

/// A cell of a well-formed grid lies inside its cell sequence.
pub proof fn lemma_cell_index(width: nat, height: nat, x: int, y: int)
    requires
        0 <= x < width,
        0 <= y < height,
    ensures
        0 <= x + y * width < width * height,
{
    assert(y * width >= 0) by (nonlinear_arith)
        requires
            y >= 0,
            width >= 0,
    ;
    assert(x + y * width < width * height) by (nonlinear_arith)
        requires
            0 <= x < width,
            0 <= y < height,
    {
        assert((y + 1) * width <= height * width);
    }
}

/// Two cells of a grid share an index only if they are the same cell.
pub proof fn lemma_cell_index_injective(width: nat, x: int, y: int, u: int, v: int)
    requires
        0 <= x < width,
        0 <= u < width,
        x + y * width == u + v * width,
    ensures
        x == u,
        y == v,
{
    assert(y == v) by (nonlinear_arith)
        requires
            0 <= x < width,
            0 <= u < width,
            x + y * width == u + v * width,
    {
        if y < v {
            assert((v - y) * width >= width);
        } else if v < y {
            assert((y - v) * width >= width);
        }
    }
}

/// Whether `after` is `before` with `cell` at each of `points`, told cell by cell.
pub open spec fn painted_cells(
    before: Grid,
    after: Grid,
    points: Seq<(isize, isize)>,
    cell: Cell,
) -> bool {
    &&& after.wf()
    &&& after.width == before.width
    &&& after.height == before.height
    &&& forall|x: int, y: int|
        before.contains(x, y) ==> #[trigger] after.at(x, y) == if covers(points, x, y) {
            cell
        } else {
            before.at(x, y)
        }
}

/// Writing `cell` at one more point keeps a painted grid painted.
pub proof fn lemma_painted_step(
    before: Grid,
    now: Grid,
    points: Seq<(isize, isize)>,
    cell: Cell,
    p: (isize, isize),
)
    requires
        before.wf(),
        painted_cells(before, now, points, cell),
    ensures
        painted_cells(before, now.put(p.0 as int, p.1 as int, cell), points.push(p), cell),
{
    let next = points.push(p);
    let after = now.put(p.0 as int, p.1 as int, cell);
    if now.contains(p.0 as int, p.1 as int) {
        lemma_cell_index(now.width, now.height, p.0 as int, p.1 as int);
    }
    assert forall|x: int, y: int| before.contains(x, y) implies #[trigger] after.at(x, y) == if covers(
        next,
        x,
        y,
    ) {
        cell
    } else {
        before.at(x, y)
    } by {
        lemma_cell_index(now.width, now.height, x, y);
        assert(now.at(x, y) == if covers(points, x, y) {
            cell
        } else {
            before.at(x, y)
        });
        if covers(points, x, y) {
            let j = choose|j: int|
                0 <= j < points.len() && (#[trigger] points[j]).0 == x && points[j].1 == y;
            assert(next[j] == points[j]);
            assert(covers(next, x, y));
        }
        if p.0 == x && p.1 == y {
            assert(next[points.len() as int] == p);
            assert(covers(next, x, y));
        }
        if covers(next, x, y) && !covers(points, x, y) {
            let j = choose|j: int|
                0 <= j < next.len() && (#[trigger] next[j]).0 == x && next[j].1 == y;
            if j < points.len() {
                assert(points[j] == next[j]);
            }
            assert(p.0 == x && p.1 == y);
        }
        if now.contains(p.0 as int, p.1 as int) {
            lemma_cell_index(now.width, now.height, p.0 as int, p.1 as int);
            if x + y * now.width == p.0 + p.1 * now.width {
                lemma_cell_index_injective(now.width, x, y, p.0 as int, p.1 as int);
            }
        }
    }
}

/// Two regions that agree on the cells of a grid paint it alike.
pub proof fn lemma_paint_same_region(
    grid: Grid,
    first: spec_fn(int, int) -> bool,
    second: spec_fn(int, int) -> bool,
    cell: Cell,
)
    requires
        grid.wf(),
        forall|x: int, y: int| grid.contains(x, y) ==> first(x, y) == second(x, y),
    ensures
        grid.paint(first, cell) == grid.paint(second, cell),
{
    let a = grid.paint(first, cell);
    let b = grid.paint(second, cell);
    assert forall|i: int| 0 <= i < grid.cells.len() implies a.cells[i] == b.cells[i] by {
        let w = grid.width as int;
        if w > 0 {
            let x = i % w;
            let y = i / w;
            vstd::arithmetic::div_mod::lemma_fundamental_div_mod(i, w);
            vstd::arithmetic::div_mod::lemma_mod_bound(i, w);
            assert(0 <= y < grid.height) by (nonlinear_arith)
                requires
                    0 <= i < w * grid.height,
                    i == w * y + x,
                    0 <= x < w,
            ;
            assert(grid.contains(x, y));
        }
    }
    assert(a.cells =~= b.cells);
}

/// One step of putting a surface on a terminal.
#[derive(Debug, Clone, Copy, PartialEq, Eq, Structural)]
pub enum Command {
    /// Move the cursor to a column and a row, both counted from 1.
    Goto(u16, u16),
    /// Set the foreground colour.
    Fg(Rgb),
    /// Set the background colour.
    Bg(Rgb),
    /// Write a character at the cursor, which moves on.
    Put(char),
}

/// The colours that a terminal is set to before the first cell is put: black on black.
pub open spec fn initial_cell() -> Cell {
    Cell { bg: Rgb(0, 0, 0), fg: Rgb(0, 0, 0), c: ' ' }
}

/// The commands that put `cell` after `last` was put: its colours, each
/// only where it differs from that of `last`, and then its character.
pub open spec fn cell_commands(last: Cell, cell: Cell) -> Seq<Command> {
    let fg = if cell.fg != last.fg {
        seq![Command::Fg(cell.fg)]
    } else {
        Seq::empty()
    };
    let bg = if cell.bg != last.bg {
        seq![Command::Bg(cell.bg)]
    } else {
        Seq::empty()
    };
    fg + bg + seq![Command::Put(cell.c)]
}

/// The cell that is put right before the `i`-th cell of the grid.
pub open spec fn cell_before(grid: Grid, i: int) -> Cell {
    if i <= 0 {
        initial_cell()
    } else {
        grid.cells[i - 1]
    }
}

/// The commands that put the first `n` cells of row `y`: the cursor goes to
/// the start of the row, and the cells follow from left to right.
pub open spec fn row_commands(grid: Grid, y: int, n: int) -> Seq<Command>
    decreases n,
{
    if n <= 0 {
        seq![Command::Goto(1, (y + 1) as u16)]
    } else {
        let i = y * grid.width + n - 1;
        row_commands(grid, y, n - 1) + cell_commands(cell_before(grid, i), grid.cells[i])
    }
}

/// The commands that put the first `rows` rows of the grid, from the top,
/// after both colours were set to black.
pub open spec fn frame_commands(grid: Grid, rows: int) -> Seq<Command>
    decreases rows,
{
    if rows <= 0 {
        seq![Command::Fg(Rgb(0, 0, 0)), Command::Bg(Rgb(0, 0, 0))]
    } else {
        frame_commands(grid, rows - 1) + row_commands(grid, rows - 1, grid.width as int)
    }
}

/// A surface of `width * height` cells.
pub struct Display {
    width: usize,
    height: usize,
    cells: Vec<Cell>,
}

impl View for Display {
    type V = Grid;

    closed spec fn view(&self) -> Grid {
        Grid { width: self.width as nat, height: self.height as nat, cells: self.cells@ }
    }
}

impl Display {
    /// What holds of every surface: each cell has its place.
    #[verifier::type_invariant]
    pub closed spec fn inv(self) -> bool {
        self.cells@.len() == self.width * self.height
    }

    /// The content of a surface is a well-formed grid.
    pub proof fn lemma_inv(self)
        requires
            self.inv(),
        ensures
            self@.wf(),
    {
    }

    /// A surface of the given size with `fill` in every cell.
    pub fn init_with_size(fill: &Cell, width: usize, height: usize) -> (display: Self)
        requires
            width * height <= usize::MAX,
        ensures
            display@ == Grid::filled(width as nat, height as nat, *fill),
    {
        let display = Self { width, height, cells: vec![*fill; width * height] };
        assert(display.cells@ =~= Seq::new((width * height) as nat, |i: int| *fill));
        display
    }

    pub fn width(&self) -> (w: usize)
        ensures
            w == self@.width,
    {
        self.width
    }

    pub fn height(&self) -> (h: usize)
        ensures
            h == self@.height,
    {
        self.height
    }

    /// The cell at `(x, y)`, or nothing where the surface has no such cell.
    pub fn get(&self, x: usize, y: usize) -> (r: Option<&Cell>)
        ensures
            r == if self@.contains(x as int, y as int) {
                Some(&self@.at(x as int, y as int))
            } else {
                None
            },
    {
        proof {
            use_type_invariant(self);
        }
        if x < self.width && y < self.height {
            proof {
                lemma_cell_index(self.width as nat, self.height as nat, x as int, y as int);
                assert(self.cells@.len() == self.cells.len());
            }
            Some(&self.cells[x + y * self.width])
        } else {
            None
        }
    }

    /// The cell at `(x, y)` for writing, or nothing where the surface has no such cell.
    pub fn get_mut(&mut self, x: usize, y: usize) -> (r: Option<&mut Cell>)
        ensures
            match r {
                Some(cell) => {
                    &&& old(self)@.contains(x as int, y as int)
                    &&& *cell == old(self)@.at(x as int, y as int)
                    &&& final(self)@ == old(self)@.put(x as int, y as int, *final(cell))
                },
                None => {
                    &&& !old(self)@.contains(x as int, y as int)
                    &&& final(self)@ == old(self)@
                },
            },
    {
        proof {
            use_type_invariant(&*self);
        }
        if x < self.width && y < self.height {
            proof {
                lemma_cell_index(self.width as nat, self.height as nat, x as int, y as int);
                assert(self.cells@.len() == self.cells.len());
            }
            Some(&mut self.cells[x + y * self.width])
        } else {
            None
        }
    }

    /// The cell at index `x + y * width` of the row-major cell sequence.
    pub fn get_unchecked(&self, x: usize, y: usize) -> (cell: &Cell)
        requires
            x + y * self@.width < self@.cells.len(),
        ensures
            *cell == self@.cells[x + y * self@.width],
    {
        proof {
            use_type_invariant(self);
            assert(y * self.width >= 0) by (nonlinear_arith);
            assert(self.cells@.len() == self.cells.len());
        }
        &self.cells[x + y * self.width]
    }

    /// The cell at index `x + y * width` of the row-major cell sequence, for writing.
    pub fn get_mut_unchecked(&mut self, x: usize, y: usize) -> (cell: &mut Cell)
        requires
            x + y * old(self)@.width < old(self)@.cells.len(),
        ensures
            *cell == old(self)@.cells[x + y * old(self)@.width],
            final(self)@ == (Grid {
                cells: old(self)@.cells.update(x + y * old(self)@.width, *final(cell)),
                ..old(self)@
            }),
    {
        proof {
            use_type_invariant(&*self);
            assert(y * self.width >= 0) by (nonlinear_arith);
            assert(self.cells@.len() == self.cells.len());
        }
        &mut self.cells[x + y * self.width]
    }

    /// The commands that put the whole surface on a terminal, row by row
    /// from the top. A colour is set only where it changes from one cell to the next.
    pub fn display(&self) -> (commands: Vec<Command>)
        requires
            self@.height <= u16::MAX,
        ensures
            commands@ == frame_commands(self@, self@.height as int),
    {
        proof {
            use_type_invariant(self);
        }
        let mut commands: Vec<Command> = Vec::new();
        let mut last = Cell::new(Rgb(0, 0, 0), Rgb(0, 0, 0), ' ');
        commands.push(Command::Fg(last.fg));
        commands.push(Command::Bg(last.bg));
        assert(commands@ == frame_commands(self@, 0));
        let mut y: usize = 0;
        while y < self.height
            invariant
                y <= self.height <= u16::MAX,
                self.inv(),
                commands@ == frame_commands(self@, y as int),
                last == cell_before(self@, y * self.width),
            decreases self.height - y,
        {
            let ghost above = commands@;
            commands.push(Command::Goto(1, y as u16 + 1));
            assert(commands@ == above + row_commands(self@, y as int, 0));
            let mut x: usize = 0;
            while x < self.width
                invariant
                    x <= self.width,
                    y < self.height,
                    self.inv(),
                    commands@ == above + row_commands(self@, y as int, x as int),
                    last == cell_before(self@, y * self.width + x),
                decreases self.width - x,
            {
                proof {
                    lemma_cell_index(self.width as nat, self.height as nat, x as int, y as int);
                }
                let ghost row = row_commands(self@, y as int, x as int);
                let ghost before = last;
                let cell = self.get_unchecked(x, y);
                if cell.fg != last.fg {
                    commands.push(Command::Fg(cell.fg));
                }
                if cell.bg != last.bg {
                    commands.push(Command::Bg(cell.bg));
                }
                commands.push(Command::Put(cell.c));
                last = *cell;
                assert(commands@ == above + (row + cell_commands(before, *cell)));
                x += 1;
            }
            proof {
                assert((y + 1) * self.width == y * self.width + self.width) by (nonlinear_arith);
            }
            y += 1;
        }
        commands
    }
}

/// `v` moved into the range from `lo` to `hi`.
pub open spec fn clamp(v: int, lo: int, hi: int) -> int {
    if v < lo {
        lo
    } else if v > hi {
        hi
    } else {
        v
    }
}

/// The points of row `y` from column `x0` to column `x1`, from left to right.
pub open spec fn row_points(x0: int, x1: int, y: int) -> Seq<(isize, isize)> {
    Seq::new(
        if x1 >= x0 {
            (x1 - x0 + 1) as nat
        } else {
            0
        },
        |i: int| ((x0 + i) as isize, y as isize),
    )
}

/// The points of the rows `y0` to `y1`, each from column `x0` to column `x1`:
/// row after row, and each row from left to right.
pub open spec fn rect_points(x0: int, y0: int, x1: int, y1: int) -> Seq<(isize, isize)>
    decreases y1 - y0 + 1,
{
    if y1 < y0 {
        Seq::empty()
    } else {
        rect_points(x0, y0, x1, y1 - 1) + row_points(x0, x1, y1)
    }
}

/// A point is among those of a rectangle exactly if it lies between its corners.
pub proof fn lemma_rect_points_contains(x0: int, y0: int, x1: int, y1: int, p: (isize, isize))
    requires
        isize::MIN <= x0,
        x1 <= isize::MAX,
        isize::MIN <= y0,
        y1 <= isize::MAX,
    ensures
        rect_points(x0, y0, x1, y1).contains(p) <==> (x0 <= p.0 <= x1 && y0 <= p.1 <= y1),
    decreases y1 - y0 + 1,
{
    if y1 >= y0 {
        let above = rect_points(x0, y0, x1, y1 - 1);
        let row = row_points(x0, x1, y1);
        lemma_rect_points_contains(x0, y0, x1, y1 - 1, p);
        if x0 <= p.0 <= x1 && p.1 == y1 {
            assert(row[p.0 - x0] == p);
            assert((above + row)[above.len() + p.0 - x0] == p);
        }
        if above.contains(p) {
            let i = choose|i: int| 0 <= i < above.len() && above[i] == p;
            assert((above + row)[i] == p);
        }
        if (above + row).contains(p) {
            let i = choose|i: int| 0 <= i < (above + row).len() && (above + row)[i] == p;
            if i < above.len() {
                assert(above[i] == p);
            } else {
                assert(row[i - above.len()] == p);
            }
        }
    }
}

/// Twice the signed area of the triangle `p`, `a`, `b`: positive on one side of
/// the line through `a` and `b`, negative on the other, zero on it.
pub open spec fn edge(px: int, py: int, ax: int, ay: int, bx: int, by: int) -> int {
    (px - bx) * (ay - by) - (ax - bx) * (py - by)
}

/// Whether `(x, y)` lies in the triangle with the given corners, its border
/// included: the point is not on different sides of two of the edges.
pub open spec fn in_triangle(
    x: int,
    y: int,
    x0: int,
    y0: int,
    x1: int,
    y1: int,
    x2: int,
    y2: int,
) -> bool {
    let d0 = edge(x, y, x0, y0, x1, y1);
    let d1 = edge(x, y, x1, y1, x2, y2);
    let d2 = edge(x, y, x2, y2, x0, y0);
    let has_neg = d0 < 0 || d1 < 0 || d2 < 0;
    let has_pos = d0 > 0 || d1 > 0 || d2 > 0;
    !(has_neg && has_pos)
}

/// `in_triangle` for a fixed triangle, as a predicate on points.
pub open spec fn triangle_filter(
    x0: int,
    y0: int,
    x1: int,
    y1: int,
    x2: int,
    y2: int,
) -> spec_fn((isize, isize)) -> bool {
    |p: (isize, isize)| in_triangle(p.0 as int, p.1 as int, x0, y0, x1, y1, x2, y2)
}

/// The part of a surface of `w` by `h` cells that a filled triangle covers:
/// the points that lie in the triangle, border included, and in its bounding
/// box once the box's corners are moved into the range from 0 to `w` and `h`.
pub open spec fn triangle_region(
    w: int,
    h: int,
    x0: int,
    y0: int,
    x1: int,
    y1: int,
    x2: int,
    y2: int,
) -> spec_fn(int, int) -> bool {
    |x: int, y: int|
        {
            &&& clamp(min3(x0, x1, x2), 0, w) <= x <= clamp(max3(x0, x1, x2), 0, w)
            &&& clamp(min3(y0, y1, y2), 0, h) <= y <= clamp(max3(y0, y1, y2), 0, h)
            &&& in_triangle(x, y, x0, y0, x1, y1, x2, y2)
        }
}

pub open spec fn min3(a: int, b: int, c: int) -> int {
    if a <= b && a <= c {
        a
    } else if b <= c {
        b
    } else {
        c
    }
}

pub open spec fn max3(a: int, b: int, c: int) -> int {
    if a >= b && a >= c {
        a
    } else if b >= c {
        b
    } else {
        c
    }
}

/// -1, 0 or 1 as `v` is negative, zero or positive.
pub open spec fn signum(v: int) -> int {
    if v < 0 {
        -1
    } else if v > 0 {
        1
    } else {
        0
    }
}

fn exec_clamp(v: isize, lo: isize, hi: isize) -> (r: isize)
    requires
        lo <= hi,
    ensures
        r == clamp(v as int, lo as int, hi as int),
{
    if v < lo {
        lo
    } else if v > hi {
        hi
    } else {
        v
    }
}

fn exec_min3(a: isize, b: isize, c: isize) -> (r: isize)
    ensures
        r == min3(a as int, b as int, c as int),
{
    if a <= b && a <= c {
        a
    } else if b <= c {
        b
    } else {
        c
    }
}

fn exec_max3(a: isize, b: isize, c: isize) -> (r: isize)
    ensures
        r == max3(a as int, b as int, c as int),
{
    if a >= b && a >= c {
        a
    } else if b >= c {
        b
    } else {
        c
    }
}

/// The size and the sign of `v`.
fn magnitude(v: i128) -> (r: (u128, i8))
    requires
        -0x1_0000_0000_0000_0000 < v < 0x1_0000_0000_0000_0000,
    ensures
        r.0 == if v < 0 {
            -v
        } else {
            v as int
        },
        r.1 == signum(v as int),
{
    if v < 0 {
        ((-v) as u128, -1)
    } else if v > 0 {
        (v as u128, 1)
    } else {
        (0, 0)
    }
}

/// The product of two numbers, from their sizes and signs.
proof fn lemma_signed_product(a: int, b: int, size: int, sign: int)
    requires
        size == (if a < 0 {
            -a
        } else {
            a
        }) * (if b < 0 {
            -b
        } else {
            b
        }),
        sign == signum(a) * signum(b),
    ensures
        -1 <= sign <= 1,
        size >= 0,
        sign == 0 ==> a * b == 0,
        sign == 1 ==> a * b == size && size > 0,
        sign == -1 ==> a * b == -size && size > 0,
{
    assert(-1 <= sign <= 1 && size >= 0 && (sign == 0 ==> a * b == 0) && (sign == 1 ==> a * b
        == size && size > 0) && (sign == -1 ==> a * b == -size && size > 0)) by (nonlinear_arith)
        requires
            size == (if a < 0 {
                -a
            } else {
                a
            }) * (if b < 0 {
                -b
            } else {
                b
            }),
            sign == (if a < 0 {
                -1
            } else if a > 0 {
                1
            } else {
                0int
            }) * (if b < 0 {
                -1
            } else if b > 0 {
                1
            } else {
                0int
            }),
    {
        if a < 0 && b < 0 {
            assert((-a) * (-b) == a * b);
            assert((-1) * (-1) == 1int);
        } else if a < 0 && b > 0 {
            assert((-a) * b == -(a * b));
        } else if a > 0 && b < 0 {
            assert(a * (-b) == -(a * b));
        } else if a > 0 && b > 0 {
        }
    }
}

/// The sign of `a * b - c * d`, found without forming a product that could overflow.
fn cross_sign(a: i128, b: i128, c: i128, d: i128) -> (s: i8)
    requires
        -0x1_0000_0000_0000_0000 < a < 0x1_0000_0000_0000_0000,
        -0x1_0000_0000_0000_0000 < b < 0x1_0000_0000_0000_0000,
        -0x1_0000_0000_0000_0000 < c < 0x1_0000_0000_0000_0000,
        -0x1_0000_0000_0000_0000 < d < 0x1_0000_0000_0000_0000,
    ensures
        s == signum(a * b - c * d),
{
    let (ma, sa) = magnitude(a);
    let (mb, sb) = magnitude(b);
    let (mc, sc) = magnitude(c);
    let (md, sd) = magnitude(d);
    assert(ma * mb <= 0xffff_ffff_ffff_ffff * 0xffff_ffff_ffff_ffff) by (nonlinear_arith)
        requires
            ma <= 0xffff_ffff_ffff_ffff,
            mb <= 0xffff_ffff_ffff_ffff,
    ;
    assert(mc * md <= 0xffff_ffff_ffff_ffff * 0xffff_ffff_ffff_ffff) by (nonlinear_arith)
        requires
            mc <= 0xffff_ffff_ffff_ffff,
            md <= 0xffff_ffff_ffff_ffff,
    ;
    assert(-1 <= sa * sb <= 1 && -1 <= sc * sd <= 1) by (nonlinear_arith)
        requires
            -1 <= sa <= 1,
            -1 <= sb <= 1,
            -1 <= sc <= 1,
            -1 <= sd <= 1,
    ;
    let left: u128 = ma * mb;
    let right: u128 = mc * md;
    let left_sign: i8 = sa * sb;
    let right_sign: i8 = sc * sd;
    proof {
        lemma_signed_product(a as int, b as int, left as int, left_sign as int);
        lemma_signed_product(c as int, d as int, right as int, right_sign as int);
    }
    if left_sign > right_sign {
        1
    } else if left_sign < right_sign {
        -1
    } else if left_sign == 0 {
        0
    } else if left == right {
        0
    } else if (left > right) == (left_sign > 0) {
        1
    } else {
        -1
    }
}

/// The sign of `edge(px, py, ax, ay, bx, by)`.
fn edge_sign(px: isize, py: isize, ax: isize, ay: isize, bx: isize, by: isize) -> (s: i8)
    ensures
        s == signum(edge(px as int, py as int, ax as int, ay as int, bx as int, by as int)),
{
    cross_sign(
        px as i128 - bx as i128,
        ay as i128 - by as i128,
        ax as i128 - bx as i128,
        py as i128 - by as i128,
    )
}

/// Whether `(x, y)` lies in the triangle with the given corners, its border included.
pub fn is_point_inside_triangle(
    x: isize,
    y: isize,
    x0: isize,
    y0: isize,
    x1: isize,
    y1: isize,
    x2: isize,
    y2: isize,
) -> (inside: bool)
    ensures
        inside == in_triangle(
            x as int,
            y as int,
            x0 as int,
            y0 as int,
            x1 as int,
            y1 as int,
            x2 as int,
            y2 as int,
        ),
{
    let d0 = edge_sign(x, y, x0, y0, x1, y1);
    let d1 = edge_sign(x, y, x1, y1, x2, y2);
    let d2 = edge_sign(x, y, x2, y2, x0, y0);
    let has_neg = d0 < 0 || d1 < 0 || d2 < 0;
    let has_pos = d0 > 0 || d1 > 0 || d2 > 0;
    !(has_neg && has_pos)
}

/// On a surface of `w` by `h` cells, the points that a triangle's fill visits
/// are the cells of its region.
pub proof fn lemma_triangle_points(
    w: int,
    h: int,
    x0: int,
    y0: int,
    x1: int,
    y1: int,
    x2: int,
    y2: int,
    x: int,
    y: int,
)
    requires
        0 <= x < w <= isize::MAX,
        0 <= y < h <= isize::MAX,
    ensures
        covers(
            rect_points(
                clamp(min3(x0, x1, x2), 0, w),
                clamp(min3(y0, y1, y2), 0, h),
                clamp(max3(x0, x1, x2), 0, w),
                clamp(max3(y0, y1, y2), 0, h),
            ).filter(triangle_filter(x0, y0, x1, y1, x2, y2)),
            x,
            y,
        ) == triangle_region(w, h, x0, y0, x1, y1, x2, y2)(x, y),
{
    let bx0 = clamp(min3(x0, x1, x2), 0, w);
    let by0 = clamp(min3(y0, y1, y2), 0, h);
    let bx1 = clamp(max3(x0, x1, x2), 0, w);
    let by1 = clamp(max3(y0, y1, y2), 0, h);
    let rect = rect_points(bx0, by0, bx1, by1);
    let pred = triangle_filter(x0, y0, x1, y1, x2, y2);
    let points = rect.filter(pred);
    let q = (x as isize, y as isize);
    lemma_rect_points_contains(bx0, by0, bx1, by1, q);
    if covers(points, x, y) {
        let j = choose|j: int|
            0 <= j < points.len() && (#[trigger] points[j]).0 == x && points[j].1 == y;
        assert(points[j] == q);
        rect.lemma_filter_pred(pred, j);
        assert(points.contains(q));
        rect.lemma_filter_contains_rev(pred, q);
        assert(pred(q));
    }
    if triangle_region(w, h, x0, y0, x1, y1, x2, y2)(x, y) {
        assert(rect.contains(q));
        let j = choose|j: int| 0 <= j < rect.len() && rect[j] == q;
        assert(pred(rect[j]));
        rect.lemma_filter_contains(pred, j);
        let k = choose|k: int| 0 <= k < points.len() && points[k] == q;
        assert(points[k].0 == x && points[k].1 == y);
    }
}

/// The size of `v`.
pub open spec fn abs(v: int) -> int {
    if v < 0 {
        -v
    } else {
        v
    }
}

/// How far a line has moved along its minor axis after `k` steps along its
/// major axis, where it covers `minor` cells over `major` steps in all:
/// `minor * k / major`, rounded to the nearest whole number, and down from a half.
pub open spec fn minor_steps(major: int, minor: int, k: int) -> int {
    if major <= 0 {
        0
    } else {
        (2 * minor * k + major - 1) / (2 * major)
    }
}

/// The `k`-th point of the walk from `(a0, b0)` to `(a1, b1)` along the first
/// coordinate. A steep walk has the coordinates of its points exchanged.
pub open spec fn walk_point(a0: int, b0: int, a1: int, b1: int, steep: bool, k: int) -> (
    isize,
    isize,
) {
    let a = a0 + k;
    let b = b0 + signum(b1 - b0) * minor_steps(a1 - a0, abs(b1 - b0), k);
    if steep {
        (b as isize, a as isize)
    } else {
        (a as isize, b as isize)
    }
}

/// The points of the walk from `(a0, b0)` to `(a1, b1)`: one for each value of
/// the first coordinate, in rising order.
pub open spec fn walk_points(a0: int, b0: int, a1: int, b1: int, steep: bool) -> Seq<
    (isize, isize),
> {
    Seq::new(
        if a1 >= a0 {
            (a1 - a0 + 1) as nat
        } else {
            0
        },
        |k: int| walk_point(a0, b0, a1, b1, steep, k),
    )
}

/// The points of the line between `(x0, y0)` and `(x1, y1)`. A line that is
/// wider than high is walked from its left end, with one point in each column;
/// any other from its upper end, with one point in each row.
pub open spec fn line_points(x0: int, y0: int, x1: int, y1: int) -> Seq<(isize, isize)> {
    if abs(y1 - y0) < abs(x1 - x0) {
        if x0 > x1 {
            walk_points(x1, y1, x0, y0, false)
        } else {
            walk_points(x0, y0, x1, y1, false)
        }
    } else {
        if y0 > y1 {
            walk_points(y1, x1, y0, x0, true)
        } else {
            walk_points(y0, x0, y1, x1, true)
        }
    }
}

/// A number between the bounds of a rounded quotient is that quotient.
proof fn lemma_minor_steps(major: int, minor: int, k: int, n: int)
    requires
        major > 0,
        2 * (major * n) <= 2 * (minor * k) + major - 1 < 2 * (major * n) + 2 * major,
    ensures
        n == minor_steps(major, minor, k),
{
    let x = 2 * minor * k + major - 1;
    let d = 2 * major;
    let r = x - d * n;
    assert(2 * minor * k == 2 * (minor * k)) by (nonlinear_arith);
    assert(d * n == 2 * (major * n)) by (nonlinear_arith)
        requires
            d == 2 * major,
    ;
    assert(x == n * d + r) by (nonlinear_arith)
        requires
            r == x - d * n,
    ;
    vstd::arithmetic::div_mod::lemma_fundamental_div_mod_converse(x, d, n, r);
}

/// A line never moves further along its minor axis than it has to go.
proof fn lemma_minor_steps_bound(major: int, minor: int, k: int, n: int)
    requires
        major > 0,
        0 <= minor <= major,
        0 <= k <= major,
        2 * (major * n) <= 2 * (minor * k) + major - 1 < 2 * (major * n) + 2 * major,
    ensures
        0 <= n <= minor,
{
    assert(minor * k <= minor * major) by (nonlinear_arith)
        requires
            0 <= minor,
            0 <= k <= major,
    ;
    assert(minor * k >= 0) by (nonlinear_arith)
        requires
            0 <= minor,
            0 <= k,
    ;
    if n > minor {
        assert(major * n >= major * (minor + 1)) by (nonlinear_arith)
            requires
                n >= minor + 1,
                major > 0,
        ;
        assert(major * (minor + 1) == minor * major + major) by (nonlinear_arith);
    }
    if n < 0 {
        assert(major * n <= -major) by (nonlinear_arith)
            requires
                n <= -1,
                major > 0,
        ;
    }
}

/// A walk starts at its first end and stops at its last.
pub proof fn lemma_walk_ends(a0: int, b0: int, a1: int, b1: int, steep: bool)
    requires
        a0 <= a1,
        abs(b1 - b0) <= a1 - a0,
    ensures
        walk_points(a0, b0, a1, b1, steep).len() == a1 - a0 + 1,
        walk_points(a0, b0, a1, b1, steep).first() == if steep {
            (b0 as isize, a0 as isize)
        } else {
            (a0 as isize, b0 as isize)
        },
        walk_points(a0, b0, a1, b1, steep).last() == if steep {
            (b1 as isize, a1 as isize)
        } else {
            (a1 as isize, b1 as isize)
        },
{
    let major = a1 - a0;
    let minor = abs(b1 - b0);
    if major > 0 {
        assert(major * 0 == 0 && minor * 0 == 0) by (nonlinear_arith);
        lemma_minor_steps(major, minor, 0, 0);
        assert(major * minor == minor * major) by (nonlinear_arith);
        lemma_minor_steps(major, minor, major, minor);
        assert(signum(b1 - b0) * minor == b1 - b0) by (nonlinear_arith)
            requires
                minor == abs(b1 - b0),
        ;
        assert(signum(b1 - b0) * 0 == 0) by (nonlinear_arith);
    } else {
        assert(signum(b1 - b0) * 0 == 0) by (nonlinear_arith);
    }
}

/// A line runs from one of its ends to the other: from the left end where it
/// is wider than high, and from the upper end otherwise.
pub proof fn lemma_line_ends(x0: int, y0: int, x1: int, y1: int)
    ensures
        line_points(x0, y0, x1, y1).len() == if abs(y1 - y0) < abs(x1 - x0) {
            abs(x1 - x0) + 1
        } else {
            abs(y1 - y0) + 1
        },
        line_points(x0, y0, x1, y1).first() == if (abs(y1 - y0) < abs(x1 - x0) && x0 > x1) || (abs(
            y1 - y0,
        ) >= abs(x1 - x0) && y0 > y1) {
            (x1 as isize, y1 as isize)
        } else {
            (x0 as isize, y0 as isize)
        },
        line_points(x0, y0, x1, y1).last() == if (abs(y1 - y0) < abs(x1 - x0) && x0 > x1) || (abs(
            y1 - y0,
        ) >= abs(x1 - x0) && y0 > y1) {
            (x0 as isize, y0 as isize)
        } else {
            (x1 as isize, y1 as isize)
        },
{
    if abs(y1 - y0) < abs(x1 - x0) {
        if x0 > x1 {
            lemma_walk_ends(x1, y1, x0, y0, false);
        } else {
            lemma_walk_ends(x0, y0, x1, y1, false);
        }
    } else {
        if y0 > y1 {
            lemma_walk_ends(y1, x1, y0, x0, true);
        } else {
            lemma_walk_ends(y0, x0, y1, x1, true);
        }
    }
}

/// The points of the walk from `(a0, b0)` to `(a1, b1)`.
fn walk(a0: isize, b0: isize, a1: isize, b1: isize, steep: bool) -> (points: Vec<(isize, isize)>)
    requires
        a0 <= a1,
        abs(b1 - b0) <= a1 - a0,
    ensures
        points@ == walk_points(a0 as int, b0 as int, a1 as int, b1 as int, steep),
{
    let mut points: Vec<(isize, isize)> = Vec::new();
    let major: i128 = a1 as i128 - a0 as i128;
    if major == 0 {
        points.push(
            if steep {
                (b0, a0)
            } else {
                (a0, b0)
            },
        );
        assert(points@ =~= walk_points(a0 as int, b0 as int, a1 as int, b1 as int, steep));
        return points;
    }
    let rise: i128 = b1 as i128 - b0 as i128;
    let minor: i128 = if rise < 0 {
        -rise
    } else {
        rise
    };
    let step: i128 = if rise < 0 {
        -1
    } else if rise > 0 {
        1
    } else {
        0
    };
    let mut d: i128 = 2 * minor - major;
    let mut a: isize = a0;
    let mut b: i128 = b0 as i128;
    let ghost mut n: int = 0;
    let ghost mut pn: int = 0;
    let ghost mut qk: int = 0;
    proof {
        assert(major * 0 == 0) by (nonlinear_arith);
        assert(minor * 0 == 0) by (nonlinear_arith);
    }
    loop
        invariant_except_break
            points@.len() == a - a0,
        invariant
            a0 <= a <= a1,
            0 < major == a1 - a0,
            0 <= minor <= major,
            minor == abs(b1 - b0),
            step == signum(b1 - b0),
            pn == major * n,
            qk == minor * (a - a0),
            2 * pn <= 2 * qk + major - 1 < 2 * pn + 2 * major,
            d == 2 * qk + 2 * minor - major - 2 * pn,
            0 <= n <= minor,
            b == b0 + step * n,
            forall|j: int|
                0 <= j < points@.len() ==> points@[j] == walk_point(
                    a0 as int,
                    b0 as int,
                    a1 as int,
                    b1 as int,
                    steep,
                    j,
                ),
        ensures
            points@.len() == a1 - a0 + 1,
        decreases a1 - a,
    {
        proof {
            lemma_minor_steps(major as int, minor as int, a - a0, n);
            assert(isize::MIN <= b <= isize::MAX) by (nonlinear_arith)
                requires
                    b == b0 + step * n,
                    0 <= n <= minor,
                    step == signum(b1 - b0),
                    minor == abs(b1 - b0),
                    isize::MIN <= b0 <= isize::MAX,
                    isize::MIN <= b1 <= isize::MAX,
            ;
        }
        let point = if steep {
            (b as isize, a)
        } else {
            (a, b as isize)
        };
        points.push(point);
        if a == a1 {
            break ;
        }
        let ghost k = a - a0;
        if d > 0 {
            b += step;
            d += 2 * (minor - major);
            proof {
                assert(step * (n + 1) == step * n + step) by (nonlinear_arith);
                n = n + 1;
                pn = pn + major;
                assert(major * n == pn) by (nonlinear_arith)
                    requires
                        pn - major == major * (n - 1),
                ;
            }
        } else {
            d += 2 * minor;
        }
        proof {
            assert(minor * (k + 1) == minor * k + minor) by (nonlinear_arith);
            qk = qk + minor;
            lemma_minor_steps_bound(major as int, minor as int, k + 1, n);
        }
        a += 1;
    }
    assert(points@ =~= walk_points(a0 as int, b0 as int, a1 as int, b1 as int, steep));
    points
}

/// `cell` with the character `c`, and with each colour that is given.
pub open spec fn stamp(cell: Cell, c: char, bg: Option<Rgb>, fg: Option<Rgb>) -> Cell {
    Cell {
        bg: match bg {
            Some(bg) => bg,
            None => cell.bg,
        },
        fg: match fg {
            Some(fg) => fg,
            None => cell.fg,
        },
        c,
    }
}

/// Whether a line goes on with the characters `rest`: there is a character,
/// and it does not end the line.
pub open spec fn line_goes_on(rest: Seq<char>) -> bool {
    rest.len() > 0 && rest[0] != '\n' && !(rest[0] == '\r' && rest.len() > 1 && rest[1] == '\n')
}

/// The grid after `chars` are typed onto it from the place `(dx, dy)` of a
/// text whose first character stands at `(x, y)`. A line feed starts the next
/// row, and a carriage return right before it is passed over. Every other
/// character is stamped on its cell, if the grid has that cell, and the place
/// moves on one column. Where the column reaches the grid's width and the
/// line goes on, it goes on in the next row.
pub open spec fn typed(
    grid: Grid,
    x: int,
    y: int,
    chars: Seq<char>,
    dx: int,
    dy: int,
    bg: Option<Rgb>,
    fg: Option<Rgb>,
) -> Grid
    decreases chars.len(),
{
    if chars.len() == 0 {
        grid
    } else {
        let c = chars[0];
        let rest = chars.skip(1);
        if c == '\n' {
            typed(grid, x, y, rest, 0, dy + 1, bg, fg)
        } else if c == '\r' && rest.len() > 0 && rest[0] == '\n' {
            typed(grid, x, y, rest, dx, dy, bg, fg)
        } else {
            let after = if grid.contains(x + dx, y + dy) {
                grid.put(x + dx, y + dy, stamp(grid.at(x + dx, y + dy), c, bg, fg))
            } else {
                grid
            };
            if dx + 1 >= grid.width && line_goes_on(rest) {
                typed(after, x, y, rest, 0, dy + 1, bg, fg)
            } else {
                typed(after, x, y, rest, dx + 1, dy, bg, fg)
            }
        }
    }
}

/// Draws on a surface that it borrows for the time of the drawing.
pub struct Drawer<'a> {
    pub display: &'a mut Display,
}

impl<'a> View for Drawer<'a> {
    type V = Grid;

    /// The content of the surface as it is now.
    open spec fn view(&self) -> Grid {
        self.display@
    }
}

impl<'a> Drawer<'a> {
    /// A drawer on `display`: what it draws is drawn there.
    pub fn new(display: &'a mut Display) -> (drawer: Self)
        ensures
            drawer@ == old(display)@,
            *final(drawer.display) == *final(display),
    {
        Self { display }
    }

    /// The width of the surface as a signed number.
    pub fn width(&self) -> (w: isize)
        ensures
            w == self@.width as isize,
    {
        self.display.width() as isize
    }

    /// The height of the surface as a signed number.
    pub fn height(&self) -> (h: isize)
        ensures
            h == self@.height as isize,
    {
        self.display.height() as isize
    }

    /// The cell at `(x, y)` for writing, or nothing where the surface has no such cell.
    pub fn get_mut(&mut self, x: isize, y: isize) -> (r: Option<&mut Cell>)
        ensures
            match r {
                Some(cell) => {
                    &&& old(self)@.contains(x as int, y as int)
                    &&& *cell == old(self)@.at(x as int, y as int)
                    &&& final(self)@ == old(self)@.put(
                        x as int,
                        y as int,
                        *final(cell),
                    )
                },
                None => {
                    &&& !old(self)@.contains(x as int, y as int)
                    &&& final(self)@ == old(self)@
                },
            },
            *final(final(self).display) == *final(old(self).display),
    {
        if x >= 0 && y >= 0 {
            self.display.get_mut(x as usize, y as usize)
        } else {
            None
        }
    }

    /// Writes `cell` at `(x, y)`. A point outside the surface is left out silently.
    pub fn pixel(&mut self, cell: &Cell, x: isize, y: isize)
        ensures
            final(self)@ == old(self)@.put(x as int, y as int, *cell),
            *final(final(self).display) == *final(old(self).display),
    {
        if let Some(plot_cell) = self.get_mut(x, y) {
            *plot_cell = *cell;
        }
    }

    /// The points between two corners, each moved into the range from 0 to the
    /// surface's width and height: row after row, each row from left to right.
    pub fn iter_rect(&self, x0: isize, y0: isize, x1: isize, y1: isize) -> (points: Vec<
        (isize, isize),
    >)
        requires
            self@.width <= isize::MAX,
            self@.height <= isize::MAX,
        ensures
            points@ == rect_points(
                clamp(x0 as int, 0, self@.width as int),
                clamp(y0 as int, 0, self@.height as int),
                clamp(x1 as int, 0, self@.width as int),
                clamp(y1 as int, 0, self@.height as int),
            ),
    {
        let x0 = exec_clamp(x0, 0, self.width());
        let x1 = exec_clamp(x1, 0, self.width());
        let y0 = exec_clamp(y0, 0, self.height());
        let y1 = exec_clamp(y1, 0, self.height());
        let mut points: Vec<(isize, isize)> = Vec::new();
        if y0 > y1 {
            return points;
        }
        let mut y = y0;
        loop
            invariant_except_break
                points@ == rect_points(x0 as int, y0 as int, x1 as int, y - 1),
            invariant
                y0 <= y <= y1,
            ensures
                points@ == rect_points(x0 as int, y0 as int, x1 as int, y1 as int),
            decreases y1 - y,
        {
            if x0 <= x1 {
                let mut x = x0;
                let ghost above = points@;
                loop
                    invariant_except_break
                        points@ == above + row_points(x0 as int, x - 1, y as int),
                    invariant
                        x0 <= x <= x1,
                    ensures
                        points@ == above + row_points(x0 as int, x1 as int, y as int),
                    decreases x1 - x,
                {
                    points.push((x, y));
                    assert(points@ == above + row_points(x0 as int, x as int, y as int));
                    if x == x1 {
                        break ;
                    }
                    x += 1;
                }
            } else {
                assert(points@ == points@ + row_points(x0 as int, x1 as int, y as int));
            }
            if y == y1 {
                break ;
            }
            y += 1;
        }
        points
    }

    /// The points of the surface's part of the triangle's bounding box that lie
    /// in the triangle, border included: row after row, each from left to right.
    pub fn iter_triangle(
        &self,
        x0: isize,
        y0: isize,
        x1: isize,
        y1: isize,
        x2: isize,
        y2: isize,
    ) -> (points: Vec<(isize, isize)>)
        requires
            self@.width <= isize::MAX,
            self@.height <= isize::MAX,
        ensures
            points@ == rect_points(
                clamp(min3(x0 as int, x1 as int, x2 as int), 0, self@.width as int),
                clamp(min3(y0 as int, y1 as int, y2 as int), 0, self@.height as int),
                clamp(max3(x0 as int, x1 as int, x2 as int), 0, self@.width as int),
                clamp(max3(y0 as int, y1 as int, y2 as int), 0, self@.height as int),
            ).filter(
                triangle_filter(
                    x0 as int,
                    y0 as int,
                    x1 as int,
                    y1 as int,
                    x2 as int,
                    y2 as int,
                ),
            ),
    {
        let candidates = self.iter_rect(
            exec_min3(x0, x1, x2),
            exec_min3(y0, y1, y2),
            exec_max3(x0, x1, x2),
            exec_max3(y0, y1, y2),
        );
        let ghost pred = triangle_filter(
            x0 as int,
            y0 as int,
            x1 as int,
            y1 as int,
            x2 as int,
            y2 as int,
        );
        let mut points: Vec<(isize, isize)> = Vec::new();
        let mut i: usize = 0;
        proof {
            reveal(Seq::filter);
            assert(candidates@.take(0) =~= Seq::empty());
        }
        while i < candidates.len()
            invariant
                i <= candidates.len(),
                pred == triangle_filter(
                    x0 as int,
                    y0 as int,
                    x1 as int,
                    y1 as int,
                    x2 as int,
                    y2 as int,
                ),
                points@ == candidates@.take(i as int).filter(pred),
            decreases candidates.len() - i,
        {
            let p = candidates[i];
            proof {
                reveal(Seq::filter);
                assert(candidates@.take(i + 1).drop_last() == candidates@.take(i as int));
                assert(candidates@.take(i + 1).last() == p);
            }
            if is_point_inside_triangle(p.0, p.1, x0, y0, x1, y1, x2, y2) {
                points.push(p);
            }
            i += 1;
        }
        assert(candidates@.take(i as int) == candidates@);
        points
    }

    /// Writes `cell` at each of `points`; those outside the surface are left out.
    fn plot(&mut self, cell: &Cell, points: &Vec<(isize, isize)>)
        ensures
            final(self)@ == old(self)@.paint(covered_by(points@), *cell),
            *final(final(self).display) == *final(old(self).display),
    {
        let mut i: usize = 0;
        let ghost start = self@;
        proof {
            use_type_invariant(&*self.display);
            self.display.lemma_inv();
            assert(!covers(points@.take(0), 0, 0));
            assert forall|x: int, y: int| !covers(points@.take(0), x, y) by {}
        }
        while i < points.len()
            invariant
                i <= points.len(),
                start.wf(),
                painted_cells(start, self@, points@.take(i as int), *cell),
                *final(self.display) == *final(old(self).display),
            decreases points.len() - i,
        {
            let p = points[i];
            let ghost before = self@;
            self.pixel(cell, p.0, p.1);
            proof {
                assert(points@.take(i + 1) == points@.take(i as int).push(p));
                lemma_painted_step(start, before, points@.take(i as int), *cell, p);
            }
            i += 1;
        }
        proof {
            assert(points@.take(i as int) == points@);
            lemma_paint_by_cells(start, self@, covered_by(points@), *cell);
        }
    }

    /// Writes `text` onto the surface, its first character at `(x, y)` and each
    /// line below the one before. Where `bg` or `fg` is given, the cells written
    /// take that colour. A line that is longer than the surface is wide goes
    /// on in the next row. What falls outside the surface is left out.
    pub fn text(&mut self, x: isize, y: isize, text: &str, bg: Option<Rgb>, fg: Option<Rgb>)
        ensures
            final(self)@ == typed(old(self)@, x as int, y as int, text@, 0, 0, bg, fg),
            *final(final(self).display) == *final(old(self).display),
    {
        let chars = chars_of(text);
        let width: i128 = self.display.width() as i128;
        let height: i128 = self.display.height() as i128;
        let mut dx: i128 = 0;
        let mut dy: i128 = 0;
        let mut i: usize = 0;
        proof {
            assert(chars@.skip(0) == chars@);
        }
        while i < chars.len()
            invariant
                i <= chars.len(),
                chars@ == text@,
                0 <= dx <= i,
                0 <= dy <= i,
                width == self@.width,
                height == self@.height,
                typed(self@, x as int, y as int, chars@.skip(i as int), dx as int, dy as int, bg, fg)
                    == typed(old(self)@, x as int, y as int, text@, 0, 0, bg, fg),
                *final(self.display) == *final(old(self).display),
            decreases chars.len() - i,
        {
            let c = chars[i];
            let ghost before = self@;
            proof {
                assert(chars@.skip(i as int)[0] == c);
                assert(chars@.skip(i as int).skip(1) == chars@.skip(i + 1));
                if i + 1 < chars.len() {
                    assert(chars@.skip(i + 1)[0] == chars@[i + 1]);
                }
                if i + 2 < chars.len() {
                    assert(chars@.skip(i + 1)[1] == chars@[i + 2]);
                }
            }
            if c == '\n' {
                dx = 0;
                dy += 1;
            } else if c == '\r' && i + 1 < chars.len() && chars[i + 1] == '\n' {
            } else {
                let cx: i128 = x as i128 + dx;
                let cy: i128 = y as i128 + dy;
                if 0 <= cx && cx < width && 0 <= cy && cy < height {
                    if let Some(cell) = self.display.get_mut(cx as usize, cy as usize) {
                        if let Some(fg) = fg {
                            cell.fg = fg;
                        }
                        if let Some(bg) = bg {
                            cell.bg = bg;
                        }
                        cell.c = c;
                    }
                }
                let goes_on = i + 1 < chars.len() && chars[i + 1] != '\n' && !(chars[i + 1] == '\r'
                    && i + 2 < chars.len() && chars[i + 2] == '\n');
                dx += 1;
                if dx >= width && goes_on {
                    dx = 0;
                    dy += 1;
                }
            }
            i += 1;
        }
    }

    /// The points of the line between `(x0, y0)` and `(x1, y1)`, in the order
    /// in which the line is walked. The surface is left as it is.
    pub fn iter_line(&mut self, x0: isize, y0: isize, x1: isize, y1: isize) -> (points: Vec<
        (isize, isize),
    >)
        ensures
            points@ == line_points(x0 as int, y0 as int, x1 as int, y1 as int),
            final(self)@ == old(self)@,
            *final(final(self).display) == *final(old(self).display),
    {
        let dx: i128 = x1 as i128 - x0 as i128;
        let dy: i128 = y1 as i128 - y0 as i128;
        let width: i128 = if dx < 0 {
            -dx
        } else {
            dx
        };
        let height: i128 = if dy < 0 {
            -dy
        } else {
            dy
        };
        if height < width {
            if x0 > x1 {
                walk(x1, y1, x0, y0, false)
            } else {
                walk(x0, y0, x1, y1, false)
            }
        } else {
            if y0 > y1 {
                walk(y1, x1, y0, x0, true)
            } else {
                walk(y0, x0, y1, x1, true)
            }
        }
    }

    /// Draws a line that is at least as wide as high from its left end
    /// `(x0, y0)` to its right end `(x1, y1)`.
    fn line_low(&mut self, cell: &Cell, x0: isize, y0: isize, x1: isize, y1: isize)
        requires
            x0 <= x1,
            abs(y1 - y0) <= x1 - x0,
        ensures
            final(self)@ == old(self)@.paint(
                covered_by(walk_points(x0 as int, y0 as int, x1 as int, y1 as int, false)),
                *cell,
            ),
            *final(final(self).display) == *final(old(self).display),
    {
        let points = walk(x0, y0, x1, y1, false);
        self.plot(cell, &points);
    }

    /// Draws a line that is at least as high as wide from its upper end
    /// `(x0, y0)` to its lower end `(x1, y1)`.
    fn line_high(&mut self, cell: &Cell, x0: isize, y0: isize, x1: isize, y1: isize)
        requires
            y0 <= y1,
            abs(x1 - x0) <= y1 - y0,
        ensures
            final(self)@ == old(self)@.paint(
                covered_by(walk_points(y0 as int, x0 as int, y1 as int, x1 as int, true)),
                *cell,
            ),
            *final(final(self).display) == *final(old(self).display),
    {
        let points = walk(y0, x0, y1, x1, true);
        self.plot(cell, &points);
    }

    /// Draws the line between `(x0, y0)` and `(x1, y1)` with `cell`: each of
    /// its points that lies on the surface.
    pub fn line(&mut self, cell: &Cell, x0: isize, y0: isize, x1: isize, y1: isize)
        ensures
            final(self)@ == old(self)@.paint(
                covered_by(line_points(x0 as int, y0 as int, x1 as int, y1 as int)),
                *cell,
            ),
            *final(final(self).display) == *final(old(self).display),
    {
        let dx: i128 = x1 as i128 - x0 as i128;
        let dy: i128 = y1 as i128 - y0 as i128;
        let width: i128 = if dx < 0 {
            -dx
        } else {
            dx
        };
        let height: i128 = if dy < 0 {
            -dy
        } else {
            dy
        };
        if height < width {
            if x0 > x1 {
                self.line_low(cell, x1, y1, x0, y0);
            } else {
                self.line_low(cell, x0, y0, x1, y1);
            }
        } else {
            if y0 > y1 {
                self.line_high(cell, x1, y1, x0, y0);
            } else {
                self.line_high(cell, x0, y0, x1, y1);
            }
        }
    }

    /// Draws the three edges of the triangle with the given corners with
    /// `cell`: from the first corner to the second, on to the third, and back.
    pub fn triangle_outline(
        &mut self,
        cell: &Cell,
        x0: isize,
        y0: isize,
        x1: isize,
        y1: isize,
        x2: isize,
        y2: isize,
    )
        ensures
            final(self)@ == old(self)@.paint(
                covered_by(line_points(x0 as int, y0 as int, x1 as int, y1 as int)),
                *cell,
            ).paint(
                covered_by(line_points(x1 as int, y1 as int, x2 as int, y2 as int)),
                *cell,
            ).paint(covered_by(line_points(x2 as int, y2 as int, x0 as int, y0 as int)), *cell),
            *final(final(self).display) == *final(old(self).display),
    {
        self.line(cell, x0, y0, x1, y1);
        self.line(cell, x1, y1, x2, y2);
        self.line(cell, x2, y2, x0, y0);
    }

    /// Fills the triangle with the given corners with `cell`: every cell of the
    /// surface that lies in the triangle, border included, and in its bounding
    /// box as it is cut to the surface.
    pub fn triangle(
        &mut self,
        cell: &Cell,
        x0: isize,
        y0: isize,
        x1: isize,
        y1: isize,
        x2: isize,
        y2: isize,
    )
        requires
            old(self)@.width <= isize::MAX,
            old(self)@.height <= isize::MAX,
        ensures
            final(self)@ == old(self)@.paint(
                triangle_region(
                    old(self)@.width as int,
                    old(self)@.height as int,
                    x0 as int,
                    y0 as int,
                    x1 as int,
                    y1 as int,
                    x2 as int,
                    y2 as int,
                ),
                *cell,
            ),
            *final(final(self).display) == *final(old(self).display),
    {
        let points = self.iter_triangle(x0, y0, x1, y1, x2, y2);
        self.plot(cell, &points);
        proof {
            let before = old(self)@;
            use_type_invariant(&*self.display);
            self.display.lemma_inv();
            let region = triangle_region(
                before.width as int,
                before.height as int,
                x0 as int,
                y0 as int,
                x1 as int,
                y1 as int,
                x2 as int,
                y2 as int,
            );
            assert forall|x: int, y: int| before.contains(x, y) implies covered_by(points@)(x, y)
                == region(x, y) by {
                lemma_triangle_points(
                    before.width as int,
                    before.height as int,
                    x0 as int,
                    y0 as int,
                    x1 as int,
                    y1 as int,
                    x2 as int,
                    y2 as int,
                    x,
                    y,
                );
            }
            lemma_paint_same_region(before, covered_by(points@), region, *cell);
        }
    }
}

} // verus!
