//! The grid of cells, mine placement, neighbour counts and the safest cell.

use vstd::prelude::*;
use vstd::arithmetic::div_mod::{lemma_fundamental_div_mod, lemma_fundamental_div_mod_converse};
use vstd::set_lib::{lemma_int_range, lemma_len_subset, lemma_len_union, set_int_range};
use rand::Rng;
use crate::neighbourhood::{coords, empty_list, neighbour_items, positions, push_position, NeighbourList};
use crate::sampling::{can_sample, index_set, lemma_index_set, lemma_index_set_push, sample_indices};

verus! {

/// The state of one cell.
#[derive(Clone, Copy, PartialEq, Eq, Debug, Structural)]
pub enum Field {
    Empty,
    Mined,
}

impl Default for Field {
    fn default() -> (field: Field)
        ensures
            field == Field::Empty,
    {
        Field::Empty
    }
}

/// A rectangular grid of cells, stored row by row.
#[derive(Clone, Debug)]
pub struct Minefield {
    width: usize,
    data: Vec<Field>,
}

/// The indices at which `cells` holds a mine.
pub open spec fn mined_indices(cells: Seq<Field>) -> Set<int> {
    Set::new(|i: int| 0 <= i < cells.len() && cells[i] == Field::Mined)
}

/// The cells `before` with a mine put at every index in `picked`.
pub open spec fn mined_with(before: Seq<Field>, picked: Set<int>) -> Seq<Field> {
    Seq::new(
        before.len(),
        |i: int|
            if picked.contains(i) {
                Field::Mined
            } else {
                before[i]
            },
    )
}

/// One coordinate moved by `step - 1`, where `step` is 0, 1 or 2; `None` where
/// the result is not a `usize`.
fn shifted(v: usize, step: usize) -> (moved: Option<usize>)
    requires
        step < 3,
    ensures
        match moved {
            Some(n) => n == v + step - 1,
            None => v + step - 1 < 0 || v + step - 1 > usize::MAX,
        },
{
    if step == 0 {
        v.checked_sub(1)
    } else if step == 1 {
        Some(v)
    } else {
        v.checked_add(1)
    }
}

impl Minefield {
    /// The number of columns.
    pub closed spec fn spec_width(&self) -> int {
        self.width as int
    }

    /// The cells, row by row: the cell at column `x` of row `y` stands at `x + y * width`.
    pub closed spec fn cells(&self) -> Seq<Field> {
        self.data@
    }

    /// The number of rows.
    pub open spec fn spec_height(&self) -> int {
        self.cells().len() as int / self.spec_width()
    }

    /// The grid has at least one column, its cells fill whole rows, and the
    /// number of cells fits in a `usize`.
    pub open spec fn wf(&self) -> bool {
        &&& 0 < self.spec_width() <= usize::MAX
        &&& self.cells().len() as int % self.spec_width() == 0
        &&& self.cells().len() <= usize::MAX
    }

    /// Whether column `x` of row `y` lies on the grid.
    pub open spec fn in_bounds(&self, x: int, y: int) -> bool {
        0 <= x < self.spec_width() && 0 <= y < self.spec_height()
    }

    /// Whether `(x, y)` lies on the grid and holds a mine.
    pub open spec fn mined_at(&self, x: int, y: int) -> bool {
        self.in_bounds(x, y) && self.cells()[x + y * self.spec_width()] == Field::Mined
    }

    /// The column and row of the cell that stands at `index`.
    pub open spec fn spec_pos(&self, index: int) -> (int, int) {
        (index % self.spec_width(), index / self.spec_width())
    }

    /// The indices of the mined cells.
    pub open spec fn mined_set(&self) -> Set<int> {
        mined_indices(self.cells())
    }

    /// Whether some cell holds no mine.
    pub open spec fn has_safe_cell(&self) -> bool {
        exists|i: int| 0 <= i < self.cells().len() && #[trigger] self.cells()[i] == Field::Empty
    }

    /// The number of mines around the cell that stands at `index`.
    pub open spec fn number_at_index(&self, index: int) -> nat {
        self.spec_number(self.spec_pos(index).0, self.spec_pos(index).1)
    }

    /// Whether `after` is `self` with mines put at `amount` distinct cells and
    /// nothing else changed.
    pub open spec fn mined_into(&self, after: &Minefield, amount: int) -> bool {
        &&& after.spec_width() == self.spec_width()
        &&& exists|picked: Set<int>|
            {
                &&& picked.finite()
                &&& picked.len() == amount
                &&& picked.subset_of(set_int_range(0, self.cells().len() as int))
                &&& after.cells() == #[trigger] mined_with(self.cells(), picked)
            }
    }

    /// Whether the cell at place `k` of `order` is the first in `order` that
    /// holds no mine and has the least number of mines around it among the
    /// cells of `order` that hold none.
    pub open spec fn first_least(&self, order: Seq<usize>, k: int) -> bool {
        &&& 0 <= k < order.len()
        &&& self.cells()[order[k] as int] == Field::Empty
        &&& forall|j: int|
            0 <= j < order.len() && self.cells()[#[trigger] order[j] as int] == Field::Empty ==> {
                &&& self.number_at_index(order[k] as int) <= self.number_at_index(order[j] as int)
                &&& j < k ==> self.number_at_index(order[k] as int) < self.number_at_index(order[j] as int)
            }
    }

    /// The neighbours of `(x, y)` among the first `k` of the nine positions
    /// `(x + dx, y + dy)` with `dx` and `dy` in -1, 0, 1, taken with `dx` first;
    /// the position itself and positions off the grid are left out.
    pub open spec fn neighbours_upto(&self, x: int, y: int, k: nat) -> Seq<(int, int)>
        decreases k,
    {
        if k == 0 {
            Seq::empty()
        } else {
            let before = self.neighbours_upto(x, y, (k - 1) as nat);
            let cx = x + (k - 1) / 3 - 1;
            let cy = y + (k - 1) % 3 - 1;
            if k - 1 != 4 && self.in_bounds(cx, cy) {
                before.push((cx, cy))
            } else {
                before
            }
        }
    }

    /// The Moore neighbourhood of `(x, y)`, clipped to the grid.
    pub open spec fn spec_neighbours(&self, x: int, y: int) -> Seq<(int, int)> {
        self.neighbours_upto(x, y, 9)
    }

    /// How many of the positions `ps` hold a mine.
    pub open spec fn mined_among(&self, ps: Seq<(int, int)>) -> nat
        decreases ps.len(),
    {
        if ps.len() == 0 {
            0
        } else {
            let rest = self.mined_among(ps.drop_last());
            if self.mined_at(ps.last().0, ps.last().1) {
                rest + 1
            } else {
                rest
            }
        }
    }

    /// The number of mines around `(x, y)`.
    pub open spec fn spec_number(&self, x: int, y: int) -> nat {
        self.mined_among(self.spec_neighbours(x, y))
    }

    /// The cells of a grid are as many as its width times its height.
    pub proof fn lemma_area(&self)
        requires
            self.wf(),
        ensures
            self.cells().len() == self.spec_width() * self.spec_height(),
            self.spec_height() >= 0,
            self.spec_height() <= usize::MAX,
    {
        let n = self.cells().len() as int;
        let w = self.spec_width();
        lemma_fundamental_div_mod(n, w);
        assert(n == w * (n / w));
        assert(n / w >= 0 && n / w <= n) by (nonlinear_arith)
            requires
                n >= 0,
                w > 0,
                n == w * (n / w),
        ;
    }

    /// A position on the grid has its index among the cells, and the index
    /// gives the position back.
    pub proof fn lemma_index_of_pos(&self, x: int, y: int)
        requires
            self.wf(),
            self.in_bounds(x, y),
        ensures
            0 <= x + y * self.spec_width() < self.cells().len(),
            self.spec_pos(x + y * self.spec_width()) == (x, y),
    {
        self.lemma_area();
        let w = self.spec_width();
        let h = self.spec_height();
        assert(x + y * w < w * h && 0 <= y * w) by (nonlinear_arith)
            requires
                0 <= x < w,
                0 <= y < h,
        ;
        assert(x + y * w == w * y + x) by (nonlinear_arith);
        lemma_fundamental_div_mod_converse(x + y * w, w, y, x);
    }

    /// An index among the cells has its position on the grid, and the position
    /// gives the index back.
    pub proof fn lemma_pos_of_index(&self, index: int)
        requires
            self.wf(),
            0 <= index < self.cells().len(),
        ensures
            self.in_bounds(self.spec_pos(index).0, self.spec_pos(index).1),
            self.spec_pos(index).0 + self.spec_pos(index).1 * self.spec_width() == index,
    {
        self.lemma_area();
        let w = self.spec_width();
        let h = self.spec_height();
        lemma_fundamental_div_mod(index, w);
        assert(index == (index % w) + (index / w) * w) by (nonlinear_arith)
            requires
                index == w * (index / w) + index % w,
        ;
        assert(0 <= index / w < h) by (nonlinear_arith)
            requires
                0 <= index < w * h,
                w > 0,
                index == w * (index / w) + index % w,
                0 <= index % w < w,
        ;
    }

    /// A grid of `width` columns and `height` rows in which every cell is empty.
    pub fn new(width: usize, height: usize) -> (grid: Minefield)
        requires
            width > 0,
            width * height <= usize::MAX,
        ensures
            grid.wf(),
            grid.spec_width() == width,
            grid.spec_height() == height,
            grid.cells() == Seq::new((width * height) as nat, |i: int| Field::Empty),
    {
        assert(width * height >= 0) by (nonlinear_arith);
        let total: usize = width * height;
        let mut data: Vec<Field> = Vec::new();
        let mut i: usize = 0;
        while i < total
            invariant
                i <= total,
                data@ == Seq::new(i as nat, |j: int| Field::Empty),
            decreases total - i,
        {
            data.push(Field::Empty);
            i += 1;
            assert(data@ =~= Seq::new(i as nat, |j: int| Field::Empty));
        }
        proof {
            assert(width * height == height * width + 0) by (nonlinear_arith);
            lemma_fundamental_div_mod_converse(total as int, width as int, height as int, 0);
        }
        Minefield { width, data }
    }

    /// The number of columns.
    pub fn width(&self) -> (w: usize)
        ensures
            w == self.spec_width(),
    {
        self.width
    }

    /// The number of rows.
    pub fn height(&self) -> (h: usize)
        requires
            self.wf(),
        ensures
            h == self.spec_height(),
    {
        self.data.len() / self.width
    }

    /// The position of the cell that stands at `index`.
    pub fn pos_from_index(&self, index: usize) -> (pos: [usize; 2])
        requires
            self.wf(),
        ensures
            coords(pos) == self.spec_pos(index as int),
    {
        [index % self.width, index / self.width]
    }

    /// The index at which the cell at `pos` stands.
    pub fn index_from_pos(&self, pos: [usize; 2]) -> (index: usize)
        requires
            self.wf(),
            self.in_bounds(pos[0] as int, pos[1] as int),
        ensures
            index == pos[0] + pos[1] * self.spec_width(),
            index < self.cells().len(),
    {
        proof {
            self.lemma_index_of_pos(pos[0] as int, pos[1] as int);
            assert(0 <= pos[1] * self.width) by (nonlinear_arith);
        }
        pos[0] + pos[1] * self.width
    }

    /// Whether `pos` lies on the grid.
    pub fn valid_pos(&self, pos: [usize; 2]) -> (valid: bool)
        requires
            self.wf(),
        ensures
            valid == self.in_bounds(pos[0] as int, pos[1] as int),
    {
        pos[0] < self.width && pos[1] < self.height()
    }

    /// The state of the cell at `pos`.
    pub fn get(&self, pos: [usize; 2]) -> (field: Field)
        requires
            self.wf(),
            self.in_bounds(pos[0] as int, pos[1] as int),
        ensures
            field == self.cells()[pos[0] + pos[1] * self.spec_width()],
            (field == Field::Mined) == self.mined_at(pos[0] as int, pos[1] as int),
    {
        let index = self.index_from_pos(pos);
        self.data[index]
    }

    /// Puts `field` into the cell at `pos` and leaves every other cell as it was.
    pub fn set(&mut self, pos: [usize; 2], field: Field)
        requires
            old(self).wf(),
            old(self).in_bounds(pos[0] as int, pos[1] as int),
        ensures
            final(self).wf(),
            final(self).spec_width() == old(self).spec_width(),
            final(self).spec_height() == old(self).spec_height(),
            final(self).cells().len() == old(self).cells().len(),
            final(self).cells() == old(self).cells().update(pos[0] + pos[1] * old(self).spec_width(), field),
    {
        let index = self.index_from_pos(pos);
        self.data.set(index, field);
    }

    /// Every neighbour lies on the grid and differs from the position itself,
    /// and there are at most eight of them.
    pub proof fn lemma_neighbours_on_grid(&self, x: int, y: int, k: nat)
        requires
            k <= 9,
        ensures
            self.neighbours_upto(x, y, k).len() <= (if k <= 4 { k } else { (k - 1) as nat }),
            forall|i: int| 0 <= i < self.neighbours_upto(x, y, k).len() ==> {
                let p = #[trigger] self.neighbours_upto(x, y, k)[i];
                &&& self.in_bounds(p.0, p.1)
                &&& p != (x, y)
                &&& x - 1 <= p.0 <= x + 1
                &&& y - 1 <= p.1 <= y + 1
            },
        decreases k,
    {
        if k > 0 {
            self.lemma_neighbours_on_grid(x, y, (k - 1) as nat);
        }
    }

    /// The neighbours of `pos`: the positions one step away in any of the
    /// eight directions, as far as they lie on the grid.
    pub fn neighbours(&self, pos: [usize; 2]) -> (list: NeighbourList)
        requires
            self.wf(),
        ensures
            neighbour_items(&list) == self.spec_neighbours(pos[0] as int, pos[1] as int),
    {
        let mut list = empty_list();
        let mut k: usize = 0;
        while k < 9
            invariant
                k <= 9,
                self.wf(),
                neighbour_items(&list) == self.neighbours_upto(pos[0] as int, pos[1] as int, k as nat),
            decreases 9 - k,
        {
            proof {
                self.lemma_neighbours_on_grid(pos[0] as int, pos[1] as int, k as nat);
                self.lemma_area();
            }
            if k != 4 {
                let cx = shifted(pos[0], k / 3);
                let cy = shifted(pos[1], k % 3);
                match (cx, cy) {
                    (Some(nx), Some(ny)) => {
                        if nx < self.width && ny < self.height() {
                            push_position(&mut list, nx, ny);
                        }
                    },
                    _ => {},
                }
            }
            k += 1;
        }
        list
    }

    /// `None` for a mined cell; for any other the number of mines among its neighbours.
    pub fn number(&self, pos: [usize; 2]) -> (count: Option<usize>)
        requires
            self.wf(),
            self.in_bounds(pos[0] as int, pos[1] as int),
        ensures
            count is None <==> self.mined_at(pos[0] as int, pos[1] as int),
            count is Some ==> count->0 == self.spec_number(pos[0] as int, pos[1] as int),
            count is Some ==> count->0 <= 8,
    {
        if self.get(pos) == Field::Mined {
            return None;
        }
        let list = self.neighbours(pos);
        let held = positions(&list);
        let ghost items = neighbour_items(&list);
        proof {
            self.lemma_neighbours_on_grid(pos[0] as int, pos[1] as int, 9);
            assert(items.take(0) =~= Seq::<(int, int)>::empty());
        }
        let mut count: usize = 0;
        let mut i: usize = 0;
        while i < held.len()
            invariant
                self.wf(),
                i <= held@.len() <= 8,
                held@.len() == items.len(),
                items == self.spec_neighbours(pos[0] as int, pos[1] as int),
                forall|j: int| 0 <= j < held@.len() ==> items[j] == coords(#[trigger] held@[j]),
                forall|j: int| 0 <= j < items.len() ==> self.in_bounds((#[trigger] items[j]).0, items[j].1),
                count == self.mined_among(items.take(i as int)),
                count <= i,
            decreases held@.len() - i,
        {
            let p = held[i];
            assert(items[i as int] == coords(p));
            assert(items.take(i + 1).drop_last() =~= items.take(i as int));
            if self.get(p) == Field::Mined {
                count += 1;
            }
            i += 1;
        }
        assert(items.take(i as int) =~= items);
        Some(count)
    }

    /// Puts a mine at every index in `picked` and leaves the other cells as they were.
    pub fn mine_at(&mut self, picked: &Vec<usize>)
        requires
            old(self).wf(),
            forall|i: int| 0 <= i < picked@.len() ==> (#[trigger] picked@[i]) < old(self).cells().len(),
        ensures
            final(self).wf(),
            final(self).spec_width() == old(self).spec_width(),
            final(self).spec_height() == old(self).spec_height(),
            final(self).cells() == mined_with(old(self).cells(), index_set(picked@)),
    {
        let mut i: usize = 0;
        while i < picked.len()
            invariant
                i <= picked@.len(),
                self.width == old(self).width,
                self.data@.len() == old(self).data@.len(),
                forall|j: int| 0 <= j < picked@.len() ==> (#[trigger] picked@[j]) < self.data@.len(),
                self.data@ == mined_with(old(self).data@, index_set(picked@.take(i as int))),
            decreases picked@.len() - i,
        {
            let ghost before = picked@.take(i as int);
            let index = picked[i];
            self.data.set(index, Field::Mined);
            proof {
                assert(picked@.take(i + 1) =~= before.push(index));
                lemma_index_set_push(before, index);
                assert(self.data@ =~= mined_with(old(self).data@, index_set(before.push(index))));
            }
            i += 1;
        }
        proof {
            assert(picked@.take(i as int) =~= picked@);
        }
    }

    /// Puts mines at `amount` distinct cells drawn from `rng`.
    pub fn mine<R: Rng>(&mut self, rng: &mut R, amount: usize)
        requires
            old(self).wf(),
            can_sample(old(self).cells().len() as int, amount as int),
        ensures
            final(self).wf(),
            final(self).spec_height() == old(self).spec_height(),
            old(self).mined_into(final(self), amount as int),
    {
        let picked = sample_indices(rng, self.data.len(), amount);
        proof {
            lemma_index_set(picked@, self.data@.len() as int);
        }
        self.mine_at(&picked);
    }

    /// The first cell in `order` that holds no mine and has the least number
    /// of mines around it, with that number.
    pub fn safest_in_order(&self, order: &Vec<usize>) -> (safest: ([usize; 2], usize))
        requires
            self.wf(),
            forall|i: int| 0 <= i < order@.len() ==> (#[trigger] order@[i]) < self.cells().len(),
            exists|i: int| 0 <= i < order@.len() && self.cells()[#[trigger] order@[i] as int] == Field::Empty,
        ensures
            exists|k: int|
                {
                    &&& #[trigger] self.first_least(order@, k)
                    &&& coords(safest.0) == self.spec_pos(order@[k] as int)
                    &&& safest.1 == self.number_at_index(order@[k] as int)
                },
    {
        let mut best_pos: [usize; 2] = [0, 0];
        let mut best_count: usize = 0;
        let mut found = false;
        let ghost mut best_k: int = 0;
        let mut i: usize = 0;
        while i < order.len()
            invariant
                self.wf(),
                i <= order@.len(),
                forall|j: int| 0 <= j < order@.len() ==> (#[trigger] order@[j]) < self.cells().len(),
                !found ==> forall|j: int| 0 <= j < i ==> self.cells()[#[trigger] order@[j] as int] != Field::Empty,
                found ==> {
                    &&& self.first_least(order@.take(i as int), best_k)
                    &&& coords(best_pos) == self.spec_pos(order@[best_k] as int)
                    &&& best_count == self.number_at_index(order@[best_k] as int)
                },
            decreases order@.len() - i,
        {
            let index = order[i];
            let pos = self.pos_from_index(index);
            proof {
                self.lemma_pos_of_index(index as int);
            }
            let ghost seen = order@.take(i as int);
            let ghost next = order@.take(i + 1);
            assert(forall|j: int| 0 <= j < i ==> seen[j] == next[j]);
            assert(next[i as int] == index);
            match self.number(pos) {
                Some(n) => {
                    if !found || n < best_count {
                        best_pos = pos;
                        best_count = n;
                        found = true;
                        proof {
                            best_k = i as int;
                        }
                    }
                    assert(self.first_least(next, best_k));
                },
                None => {
                    assert(found ==> self.first_least(next, best_k));
                },
            }
            i += 1;
        }
        proof {
            assert(order@.take(i as int) =~= order@);
        }
        (best_pos, best_count)
    }

    /// A cell without a mine that has the least number of mines around it,
    /// with that number. Among several such cells `rng` decides.
    pub fn safest_field<R: Rng>(&self, rng: &mut R) -> (safest: ([usize; 2], usize))
        requires
            self.wf(),
            self.has_safe_cell(),
            self.cells().len() <= u32::MAX,
        ensures
            self.in_bounds(safest.0[0] as int, safest.0[1] as int),
            !self.mined_at(safest.0[0] as int, safest.0[1] as int),
            safest.1 == self.spec_number(safest.0[0] as int, safest.0[1] as int),
            forall|x: int, y: int|
                self.in_bounds(x, y) && !self.mined_at(x, y) ==> safest.1 <= #[trigger] self.spec_number(x, y),
    {
        let order = sample_indices(rng, self.data.len(), self.data.len());
        proof {
            lemma_index_set(order@, self.data@.len() as int);
            let free = choose|i: int| 0 <= i < self.cells().len() && #[trigger] self.cells()[i] == Field::Empty;
            assert(index_set(order@).contains(free));
            let at = choose|k: int| 0 <= k < order@.len() && order@[k] == free;
            assert(self.cells()[order@[at] as int] == Field::Empty);
        }
        let safest = self.safest_in_order(&order);
        proof {
            let k = choose|k: int|
                {
                    &&& #[trigger] self.first_least(order@, k)
                    &&& coords(safest.0) == self.spec_pos(order@[k] as int)
                    &&& safest.1 == self.number_at_index(order@[k] as int)
                };
            self.lemma_pos_of_index(order@[k] as int);
            assert forall|x: int, y: int| self.in_bounds(x, y) && !self.mined_at(x, y) implies safest.1
                <= #[trigger] self.spec_number(x, y) by {
                self.lemma_index_of_pos(x, y);
                let index = x + y * self.spec_width();
                assert(index_set(order@).contains(index));
                let j = choose|j: int| 0 <= j < order@.len() && order@[j] == index;
                assert(self.cells()[order@[j] as int] == Field::Empty);
            }
        }
        safest
    }

    /// Among some positions no more hold a mine than there are positions.
    pub proof fn lemma_mined_among_bound(&self, ps: Seq<(int, int)>)
        ensures
            self.mined_among(ps) <= ps.len(),
        decreases ps.len(),
    {
        if ps.len() > 0 {
            self.lemma_mined_among_bound(ps.drop_last());
        }
    }

    /// No cell has more than eight mines around it.
    pub proof fn lemma_number_bound(&self, x: int, y: int)
        ensures
            self.spec_number(x, y) <= 8,
    {
        self.lemma_neighbours_on_grid(x, y, 9);
        self.lemma_mined_among_bound(self.spec_neighbours(x, y));
    }

    /// A cell away from every border has eight neighbours, a cell on one
    /// border five and a cell in a corner three, on a grid with at least two
    /// columns and two rows.
    pub proof fn lemma_neighbour_count(&self, x: int, y: int)
        requires
            self.wf(),
            self.in_bounds(x, y),
            self.spec_width() >= 2,
            self.spec_height() >= 2,
        ensures
            ({
                let on_side = x == 0 || x == self.spec_width() - 1;
                let on_end = y == 0 || y == self.spec_height() - 1;
                self.spec_neighbours(x, y).len() == if on_side && on_end {
                    3int
                } else if on_side || on_end {
                    5int
                } else {
                    8int
                }
            }),
    {
        reveal_with_fuel(Minefield::neighbours_upto, 10);
    }

    /// No neighbour of a position lies off the grid or is the position itself.
    pub proof fn lemma_neighbours_valid(&self, x: int, y: int)
        ensures
            self.spec_neighbours(x, y).len() <= 8,
            forall|i: int| 0 <= i < self.spec_neighbours(x, y).len() ==> {
                let p = #[trigger] self.spec_neighbours(x, y)[i];
                self.in_bounds(p.0, p.1) && p != (x, y)
            },
    {
        self.lemma_neighbours_on_grid(x, y, 9);
    }

    /// Putting `amount` mines on a grid without mines leaves exactly `amount`
    /// cells mined and every other cell empty.
    pub proof fn lemma_mined_count(&self, after: &Minefield, amount: int)
        requires
            self.wf(),
            forall|i: int| 0 <= i < self.cells().len() ==> self.cells()[i] == Field::Empty,
            self.mined_into(after, amount),
        ensures
            after.cells().len() == self.cells().len(),
            after.mined_set().finite(),
            after.mined_set().len() == amount,
            forall|i: int|
                0 <= i < after.cells().len() && !after.mined_set().contains(i) ==> after.cells()[i]
                    == Field::Empty,
    {
        let picked = choose|picked: Set<int>|
            {
                &&& picked.finite()
                &&& picked.len() == amount
                &&& picked.subset_of(set_int_range(0, self.cells().len() as int))
                &&& after.cells() == #[trigger] mined_with(self.cells(), picked)
            };
        assert(after.mined_set() =~= picked);
    }

    /// Putting `amount` mines on any grid keeps the mines that were there and
    /// every cell's place, leaves at least `amount` cells mined and at most
    /// `amount` more than before, and fills no cell that it leaves empty.
    pub proof fn lemma_mined_growth(&self, after: &Minefield, amount: int)
        requires
            self.mined_into(after, amount),
        ensures
            after.cells().len() == self.cells().len(),
            self.mined_set().finite(),
            after.mined_set().finite(),
            self.mined_set().subset_of(after.mined_set()),
            amount <= after.mined_set().len() <= self.mined_set().len() + amount,
            forall|i: int|
                0 <= i < after.cells().len() && after.cells()[i] == Field::Empty ==> self.cells()[i]
                    == Field::Empty,
    {
        let picked = choose|picked: Set<int>|
            {
                &&& picked.finite()
                &&& picked.len() == amount
                &&& picked.subset_of(set_int_range(0, self.cells().len() as int))
                &&& after.cells() == #[trigger] mined_with(self.cells(), picked)
            };
        let all = set_int_range(0, self.cells().len() as int);
        lemma_int_range(0, self.cells().len() as int);
        lemma_len_subset(self.mined_set(), all);
        lemma_len_subset(after.mined_set(), all);
        assert(after.mined_set() =~= self.mined_set().union(picked));
        lemma_len_subset(picked, after.mined_set());
        lemma_len_union(self.mined_set(), picked);
    }

    /// A grid with fewer mines than cells has a cell without a mine.
    pub proof fn lemma_safe_cell(&self)
        requires
            self.mined_set().finite(),
            self.mined_set().len() < self.cells().len(),
        ensures
            self.has_safe_cell(),
    {
        if !self.has_safe_cell() {
            let n = self.cells().len() as int;
            assert forall|i: int| 0 <= i < n implies self.mined_set().contains(i) by {
                assert(self.cells()[i] != Field::Empty);
            }
            assert(self.mined_set() =~= set_int_range(0, n));
            lemma_int_range(0, n);
        }
    }
}

} // verus!
