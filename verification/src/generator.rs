//! The configuration of one minefield and its rendering as text.

use vstd::prelude::*;
use vstd::string::StringExecFns;
use rand::Rng;
use rand::rngs::ThreadRng;
use crate::minefield::Minefield;
use crate::neighbourhood::coords;
use crate::sampling::can_sample;

verus! {

/// `rand::rngs::ThreadRng`, the handle to the random source of a thread.
/// Nothing is stated of what it holds.
#[verifier::external_type_specification]
#[verifier::external_body]
pub struct ExThreadRng(ThreadRng);

/// What to generate: the size of the grid, the number of mines, the text
/// shown for a mine, and whether the safest cell is shown uncovered.
#[derive(Clone, Debug)]
pub struct Conf {
    pub width: usize,
    pub height: usize,
    pub minecount: usize,
    pub mine: String,
    pub open_first: bool,
}

impl Conf {
    /// The number of cells that the configuration asks for.
    pub open spec fn cells(&self) -> int {
        self.width * self.height
    }

    /// Whether a minefield can be laid out and shown as the configuration
    /// asks: the grid has a column, its cells can be counted in a `usize`,
    /// the mines can be drawn on it, and where a cell is to be uncovered one
    /// stays free and the cells can be counted in a `u32`.
    pub open spec fn renderable(&self) -> bool {
        &&& self.width > 0
        &&& self.cells() <= usize::MAX
        &&& can_sample(self.cells(), self.minecount as int)
        &&& self.open_first ==> self.minecount < self.cells() && self.cells() <= u32::MAX
    }

    /// Whether a minefield can be laid out and shown as the configuration asks.
    pub fn can_render(&self) -> (ok: bool)
        ensures
            ok == self.renderable(),
    {
        if self.width == 0 {
            return false;
        }
        match self.width.checked_mul(self.height) {
            Some(cells) => {
                let small = cells <= u32::MAX as usize;
                if self.open_first {
                    self.minecount < cells && small
                } else {
                    self.minecount < cells || (self.minecount == cells && small)
                }
            },
            None => false,
        }
    }
}

/// A configuration together with the random source that its minefields are drawn from.
#[derive(Debug)]
pub struct MinefieldGenerator<R> {
    pub conf: Conf,
    pub rng: R,
}

/// The text shown for a cell with `n` mines around it.
pub open spec fn numeral_text(n: int) -> Seq<char> {
    if n == 0 {
        ":zero:"@
    } else if n == 1 {
        ":one:"@
    } else if n == 2 {
        ":two:"@
    } else if n == 3 {
        ":three:"@
    } else if n == 4 {
        ":four:"@
    } else if n == 5 {
        ":five:"@
    } else if n == 6 {
        ":six:"@
    } else if n == 7 {
        ":seven:"@
    } else {
        ":eight:"@
    }
}

/// The decimal digit `d`.
pub open spec fn digit_text(d: int) -> Seq<char> {
    if d == 0 {
        "0"@
    } else if d == 1 {
        "1"@
    } else if d == 2 {
        "2"@
    } else if d == 3 {
        "3"@
    } else if d == 4 {
        "4"@
    } else if d == 5 {
        "5"@
    } else if d == 6 {
        "6"@
    } else if d == 7 {
        "7"@
    } else if d == 8 {
        "8"@
    } else {
        "9"@
    }
}

/// The number `n` in decimal digits, without leading zeros.
pub open spec fn decimal_text(n: nat) -> Seq<char>
    decreases n,
{
    if n < 10 {
        digit_text(n as int)
    } else {
        decimal_text(n / 10) + digit_text(n as int % 10)
    }
}

/// The line above the grid, with the newline that ends it.
pub open spec fn header_text(conf: &Conf) -> Seq<char> {
    "***"@ + decimal_text(conf.width as nat) + "x"@ + decimal_text(conf.height as nat) + ", "@
        + decimal_text(conf.minecount as nat) + " mines***"@ + "\n"@
}

/// Whether `opened` names the cell at `(x, y)`.
pub open spec fn shown_bare(opened: Option<([usize; 2], usize)>, x: int, y: int) -> bool {
    match opened {
        Some((pos, _)) => coords(pos) == (x, y),
        None => false,
    }
}

/// The count given beside the uncovered cell; zero where no cell is uncovered.
pub open spec fn opened_count(opened: Option<([usize; 2], usize)>) -> int {
    match opened {
        Some((_, count)) => count as int,
        None => 0,
    }
}

/// The text of the cell at `(x, y)`: the uncovered cell shows the numeral of
/// its count bare; any other cell shows the mine text or its numeral between
/// spoiler marks.
pub open spec fn cell_text(
    conf: &Conf,
    grid: &Minefield,
    opened: Option<([usize; 2], usize)>,
    x: int,
    y: int,
) -> Seq<char> {
    if shown_bare(opened, x, y) {
        numeral_text(opened_count(opened))
    } else if grid.mined_at(x, y) {
        "||"@ + conf.mine@ + "||"@
    } else {
        "||"@ + numeral_text(grid.spec_number(x, y) as int) + "||"@
    }
}

/// The first `n` cells of row `y`, one after the other.
pub open spec fn row_text(
    conf: &Conf,
    grid: &Minefield,
    opened: Option<([usize; 2], usize)>,
    y: int,
    n: nat,
) -> Seq<char>
    decreases n,
{
    if n == 0 {
        Seq::empty()
    } else {
        row_text(conf, grid, opened, y, (n - 1) as nat) + cell_text(conf, grid, opened, n - 1, y)
    }
}

/// The first `n` rows of the grid; a newline ends every row but the last of the grid.
pub open spec fn rows_text(
    conf: &Conf,
    grid: &Minefield,
    opened: Option<([usize; 2], usize)>,
    n: nat,
) -> Seq<char>
    decreases n,
{
    if n == 0 {
        Seq::empty()
    } else {
        let above = rows_text(conf, grid, opened, (n - 1) as nat);
        let row = row_text(conf, grid, opened, n - 1, grid.spec_width() as nat);
        if n == grid.spec_height() {
            above + row
        } else {
            above + row + "\n"@
        }
    }
}

/// The whole output: the header line, then the rows of the grid.
pub open spec fn field_text(conf: &Conf, grid: &Minefield, opened: Option<([usize; 2], usize)>) -> Seq<
    char,
> {
    header_text(conf) + rows_text(conf, grid, opened, grid.spec_height() as nat)
}

/// Whether `grid` has the size that `conf` asks for and as many mines.
pub open spec fn laid_out(conf: &Conf, grid: &Minefield) -> bool {
    &&& grid.wf()
    &&& grid.spec_width() == conf.width
    &&& grid.spec_height() == conf.height
    &&& grid.mined_set().finite()
    &&& grid.mined_set().len() == conf.minecount
}

/// Whether `safest` names a cell of `grid` without a mine, with the number of
/// mines around it, and no cell without a mine has fewer around it.
pub open spec fn is_safest(grid: &Minefield, safest: ([usize; 2], usize)) -> bool {
    &&& grid.in_bounds(safest.0[0] as int, safest.0[1] as int)
    &&& !grid.mined_at(safest.0[0] as int, safest.0[1] as int)
    &&& safest.1 == grid.spec_number(safest.0[0] as int, safest.0[1] as int)
    &&& forall|x: int, y: int|
        grid.in_bounds(x, y) && !grid.mined_at(x, y) ==> safest.1 <= #[trigger] grid.spec_number(x, y)
}

/// Whether `text` shows some minefield that `conf` allows: of its size, with
/// its number of mines, and with a safest cell uncovered exactly when `conf`
/// asks for that.
pub open spec fn shows_field(conf: &Conf, text: Seq<char>) -> bool {
    exists|grid: Minefield, opened: Option<([usize; 2], usize)>|
        {
            &&& laid_out(conf, &grid)
            &&& match opened {
                Some(safest) => conf.open_first && is_safest(&grid, safest),
                None => !conf.open_first,
            }
            &&& text == #[trigger] field_text(conf, &grid, opened)
        }
}

/// Calls `rand::thread_rng`, which hands out the random source of the
/// current thread. Nothing is stated of the result.
#[verifier::external_body]
fn thread_source() -> ThreadRng {
    rand::thread_rng()
}

/// The text shown for a cell with `n` mines around it.
pub fn numeral(n: usize) -> (text: &'static str)
    requires
        n <= 8,
    ensures
        text@ == numeral_text(n as int),
{
    if n == 0 {
        ":zero:"
    } else if n == 1 {
        ":one:"
    } else if n == 2 {
        ":two:"
    } else if n == 3 {
        ":three:"
    } else if n == 4 {
        ":four:"
    } else if n == 5 {
        ":five:"
    } else if n == 6 {
        ":six:"
    } else if n == 7 {
        ":seven:"
    } else {
        ":eight:"
    }
}

fn digit(d: usize) -> (text: &'static str)
    requires
        d < 10,
    ensures
        text@ == digit_text(d as int),
{
    if d == 0 {
        "0"
    } else if d == 1 {
        "1"
    } else if d == 2 {
        "2"
    } else if d == 3 {
        "3"
    } else if d == 4 {
        "4"
    } else if d == 5 {
        "5"
    } else if d == 6 {
        "6"
    } else if d == 7 {
        "7"
    } else if d == 8 {
        "8"
    } else {
        "9"
    }
}

/// Appends `n` in decimal digits to `out`.
fn push_decimal(out: &mut String, n: usize)
    ensures
        final(out)@ == old(out)@ + decimal_text(n as nat),
    decreases n,
{
    if n >= 10 {
        push_decimal(out, n / 10);
    }
    out.append(digit(n % 10));
    proof {
        if n >= 10 {
            assert(out@ =~= old(out)@ + (decimal_text((n / 10) as nat) + digit_text(n as int % 10)));
        }
    }
}

/// The header line for `conf`.
fn header(conf: &Conf) -> (out: String)
    ensures
        out@ == header_text(conf),
{
    let mut out = String::new();
    out.append("***");
    push_decimal(&mut out, conf.width);
    out.append("x");
    push_decimal(&mut out, conf.height);
    out.append(", ");
    push_decimal(&mut out, conf.minecount);
    out.append(" mines***");
    out.append("\n");
    assert(out@ =~= header_text(conf));
    out
}

/// The text of `grid` under `conf`, with the cell `opened`, if any, shown
/// uncovered with the count given beside it.
pub fn render_field(conf: &Conf, grid: &Minefield, opened: Option<([usize; 2], usize)>) -> (out: String)
    requires
        grid.wf(),
        opened_count(opened) <= 8,
    ensures
        out@ == field_text(conf, grid, opened),
{
    let mut out = header(conf);
    let height = grid.height();
    let width = grid.width();
    let mut y: usize = 0;
    while y < height
        invariant
            grid.wf(),
            opened_count(opened) <= 8,
            height == grid.spec_height(),
            width == grid.spec_width(),
            y <= height,
            out@ == header_text(conf) + rows_text(conf, grid, opened, y as nat),
        decreases height - y,
    {
        let ghost above = out@;
        let mut x: usize = 0;
        while x < width
            invariant
                grid.wf(),
                opened_count(opened) <= 8,
                height == grid.spec_height(),
                width == grid.spec_width(),
                y < height,
                x <= width,
                out@ == above + row_text(conf, grid, opened, y as int, x as nat),
            decreases width - x,
        {
            let ghost before = out@;
            let mut bare = false;
            match opened {
                Some((pos, count)) => {
                    if pos[0] == x && pos[1] == y {
                        bare = true;
                        out.append(numeral(count));
                    }
                },
                None => {},
            }
            if !bare {
                out.append("||");
                match grid.number([x, y]) {
                    Some(count) => {
                        out.append(numeral(count));
                    },
                    None => {
                        out.append(conf.mine.as_str());
                    },
                }
                out.append("||");
            }
            assert(out@ =~= before + cell_text(conf, grid, opened, x as int, y as int));
            x += 1;
            assert(out@ =~= above + row_text(conf, grid, opened, y as int, x as nat));
        }
        if y != height - 1 {
            out.append("\n");
        }
        y += 1;
        assert(out@ =~= header_text(conf) + rows_text(conf, grid, opened, y as nat));
    }
    out
}

impl<R: Rng> MinefieldGenerator<R> {
    /// A generator for `conf` that draws from `rng`.
    pub fn new(conf: Conf, rng: R) -> (generator: Self)
        ensures
            generator.conf == conf,
            generator.rng == rng,
    {
        MinefieldGenerator { conf, rng }
    }

    /// Lays out a minefield as the configuration asks and gives its text.
    pub fn render(&mut self) -> (out: String)
        requires
            old(self).conf.renderable(),
        ensures
            final(self).conf == old(self).conf,
            shows_field(&old(self).conf, out@),
    {
        let mut grid = Minefield::new(self.conf.width, self.conf.height);
        let ghost fresh = grid;
        grid.mine(&mut self.rng, self.conf.minecount);
        proof {
            fresh.lemma_mined_count(&grid, self.conf.minecount as int);
            grid.lemma_area();
        }
        let opened = if self.conf.open_first {
            proof {
                grid.lemma_safe_cell();
            }
            Some(grid.safest_field(&mut self.rng))
        } else {
            None
        };
        proof {
            match opened {
                Some((pos, _)) => {
                    grid.lemma_number_bound(pos[0] as int, pos[1] as int);
                },
                None => {},
            }
        }
        let out = render_field(&self.conf, &grid, opened);
        assert(laid_out(&self.conf, &grid));
        assert(out@ == field_text(&self.conf, &grid, opened));
        out
    }
}

impl MinefieldGenerator<ThreadRng> {
    /// A generator for `conf` that draws from the random source of the current thread.
    pub fn with_thread_rng(conf: Conf) -> (generator: Self)
        ensures
            generator.conf == conf,
    {
        MinefieldGenerator::new(conf, thread_source())
    }
}

} // verus!
