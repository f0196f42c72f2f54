use vstd::prelude::*;
use crate::heddle::count_true;
use crate::measure::{is_max_of, sum_of, lemma_sum_push, lemma_sum_prefix};
use crate::warp::Warp;
use crate::weft::Weft;
use crate::heddle::Heddle;

verus! {

/// A cell in the woven tapestry.
#[derive(Debug, Clone)]
pub enum Cell<T: Clone> {
    Warp(T),
    Weft(T),
    Empty,
}

impl<T: Clone> Cell<T> {
    pub fn is_warp(&self) -> (r: bool)
        ensures
            r == (*self is Warp),
    {
        match self {
            Cell::Warp(_) => true,
            _ => false,
        }
    }

    pub fn is_weft(&self) -> (r: bool)
        ensures
            r == (*self is Weft),
    {
        match self {
            Cell::Weft(_) => true,
            _ => false,
        }
    }

    pub fn is_empty(&self) -> (r: bool)
        ensures
            r == (*self is Empty),
    {
        match self {
            Cell::Empty => true,
            _ => false,
        }
    }

    /// The value the cell holds, if any.
    pub fn value(&self) -> (r: Option<&T>)
        ensures
            r == self.spec_value(),
    {
        match self {
            Cell::Warp(v) => Some(v),
            Cell::Weft(v) => Some(v),
            Cell::Empty => None,
        }
    }

    pub open spec fn spec_value(&self) -> Option<&T> {
        match self {
            Cell::Warp(v) => Some(v),
            Cell::Weft(v) => Some(v),
            Cell::Empty => None,
        }
    }
}

/// `cell` holds a warp value cloned from `x`.
pub open spec fn holds_warp<T: Clone>(cell: Cell<T>, x: T) -> bool {
    cell matches Cell::Warp(v) && cloned::<T>(x, v)
}

/// `cell` holds a weft value cloned from `x`.
pub open spec fn holds_weft<T: Clone>(cell: Cell<T>, x: T) -> bool {
    cell matches Cell::Weft(v) && cloned::<T>(x, v)
}

/// The number of cells of each row.
pub open spec fn row_lengths<T: Clone>(grid: Seq<Vec<Cell<T>>>) -> Seq<nat> {
    Seq::new(grid.len(), |r: int| grid[r]@.len())
}

/// The number of cells in a grid.
pub open spec fn cell_total<T: Clone>(grid: Seq<Vec<Cell<T>>>) -> nat {
    sum_of(row_lengths(grid))
}

/// The number of marked entries over all rows.
pub open spec fn marks_total(marks: Seq<Seq<bool>>) -> nat
    decreases marks.len(),
{
    if marks.len() == 0 {
        0
    } else {
        marks_total(marks.drop_last()) + count_true(marks.last())
    }
}

/// `marks` has the grid's shape, and marks each cell with a value that
/// `predicate` may return for it.
pub open spec fn marks_fit<T: Clone, F: Fn(&Cell<T>) -> bool>(
    grid: Seq<Vec<Cell<T>>>,
    predicate: F,
    marks: Seq<Seq<bool>>,
) -> bool {
    &&& marks.len() == grid.len()
    &&& forall|r: int| 0 <= r < grid.len() ==> (#[trigger] marks[r]).len() == grid[r]@.len()
    &&& forall|r: int, c: int|
        0 <= r < grid.len() && 0 <= c < grid[r]@.len() ==> call_ensures(
            predicate,
            (&grid[r]@[c],),
            #[trigger] marks[r][c],
        )
}

/// The cells that hold warp values, row by row.
pub open spec fn warp_marks<T: Clone>(grid: Seq<Vec<Cell<T>>>) -> Seq<Seq<bool>> {
    Seq::new(grid.len(), |r: int| Seq::new(grid[r]@.len(), |c: int| grid[r]@[c] is Warp))
}

/// The cells that hold weft values, row by row.
pub open spec fn weft_marks<T: Clone>(grid: Seq<Vec<Cell<T>>>) -> Seq<Seq<bool>> {
    Seq::new(grid.len(), |r: int| Seq::new(grid[r]@.len(), |c: int| grid[r]@[c] is Weft))
}

/// The cells at column `col` of the rows long enough to have one.
pub open spec fn column_cells<T: Clone>(grid: Seq<Vec<Cell<T>>>, col: int) -> Seq<Cell<T>>
    decreases grid.len(),
{
    if grid.len() == 0 {
        Seq::empty()
    } else {
        let rest = column_cells(grid.drop_last(), col);
        if 0 <= col < grid.last()@.len() {
            rest.push(grid.last()@[col])
        } else {
            rest
        }
    }
}

/// When every row is long enough to have column `col`, the column holds one
/// cell per row, in row order: each row's cell at `col`, whatever it holds.
pub proof fn lemma_column_full_rows<T: Clone>(grid: Seq<Vec<Cell<T>>>, col: int)
    requires
        0 <= col,
        forall|r: int| 0 <= r < grid.len() ==> col < (#[trigger] grid[r])@.len(),
    ensures
        column_cells(grid, col) == Seq::new(grid.len(), |r: int| grid[r]@[col]),
    decreases grid.len(),
{
    if grid.len() == 0 {
        assert(column_cells(grid, col) =~= Seq::new(grid.len(), |r: int| grid[r]@[col]));
    } else {
        let rest = grid.drop_last();
        assert forall|r: int| 0 <= r < rest.len() implies col < (#[trigger] rest[r])@.len() by {
            assert(rest[r] == grid[r]);
        }
        lemma_column_full_rows(rest, col);
        assert(col < grid[grid.len() - 1]@.len());
        assert(column_cells(grid, col) =~= Seq::new(grid.len(), |r: int| grid[r]@[col]));
    }
}

pub proof fn lemma_count_true_bound(s: Seq<bool>)
    ensures
        count_true(s) <= s.len(),
    decreases s.len(),
{
    if s.len() > 0 {
        lemma_count_true_bound(s.drop_last());
    }
}

proof fn lemma_count_true_push(s: Seq<bool>, b: bool)
    ensures
        count_true(s.push(b)) == count_true(s) + if b {
            1nat
        } else {
            0nat
        },
{
    assert(s.push(b).drop_last() =~= s);
}

proof fn lemma_marks_total_push(marks: Seq<Seq<bool>>, row: Seq<bool>)
    ensures
        marks_total(marks.push(row)) == marks_total(marks) + count_true(row),
{
    assert(marks.push(row).drop_last() =~= marks);
}

proof fn lemma_row_counts<T: Clone>(row: Seq<Cell<T>>)
    ensures
        count_true(Seq::new(row.len(), |c: int| row[c] is Warp)) + count_true(
            Seq::new(row.len(), |c: int| row[c] is Weft),
        ) <= row.len(),
        (forall|c: int| 0 <= c < row.len() ==> !(#[trigger] row[c] is Empty)) ==> count_true(
            Seq::new(row.len(), |c: int| row[c] is Warp),
        ) + count_true(Seq::new(row.len(), |c: int| row[c] is Weft)) == row.len(),
    decreases row.len(),
{
    if row.len() > 0 {
        let rest = row.drop_last();
        lemma_row_counts(rest);
        assert(Seq::new(row.len(), |c: int| row[c] is Warp).drop_last() =~= Seq::new(
            rest.len(),
            |c: int| rest[c] is Warp,
        ));
        assert(Seq::new(row.len(), |c: int| row[c] is Weft).drop_last() =~= Seq::new(
            rest.len(),
            |c: int| rest[c] is Weft,
        ));
        if forall|c: int| 0 <= c < row.len() ==> !(#[trigger] row[c] is Empty) {
            assert forall|c: int| 0 <= c < rest.len() implies !(#[trigger] rest[c] is Empty) by {
                assert(!(row[c] is Empty));
            }
            assert(!(row[row.len() - 1] is Empty));
        }
    }
}

/// No cell holds both a warp and a weft value: the warp and weft counts add up
/// to at most the number of cells, and to exactly that number when no cell is
/// empty.
pub proof fn lemma_counts_bounded<T: Clone>(grid: Seq<Vec<Cell<T>>>)
    ensures
        marks_total(warp_marks(grid)) + marks_total(weft_marks(grid)) <= cell_total(grid),
        (forall|r: int, c: int|
            0 <= r < grid.len() && 0 <= c < grid[r]@.len() ==> !(#[trigger] grid[r]@[c] is Empty))
            ==> marks_total(warp_marks(grid)) + marks_total(weft_marks(grid)) == cell_total(grid),
    decreases grid.len(),
{
    if grid.len() > 0 {
        let rest = grid.drop_last();
        lemma_counts_bounded(rest);
        assert(warp_marks(grid).drop_last() =~= warp_marks(rest));
        assert(weft_marks(grid).drop_last() =~= weft_marks(rest));
        assert(row_lengths(grid).drop_last() =~= row_lengths(rest));
        let last = grid[grid.len() - 1]@;
        lemma_row_counts(last);
        assert(warp_marks(grid).last() =~= Seq::new(last.len(), |c: int| last[c] is Warp));
        assert(weft_marks(grid).last() =~= Seq::new(last.len(), |c: int| last[c] is Weft));
        if forall|r: int, c: int|
            0 <= r < grid.len() && 0 <= c < grid[r]@.len() ==> !(#[trigger] grid[r]@[c] is Empty) {
            assert forall|r: int, c: int|
                0 <= r < rest.len() && 0 <= c < rest[r]@.len() implies !(
                #[trigger] rest[r]@[c] is Empty) by {
                assert(!(grid[r]@[c] is Empty));
            }
            assert forall|c: int| 0 <= c < last.len() implies !(#[trigger] last[c] is Empty) by {
                assert(!(grid[grid.len() - 1]@[c] is Empty));
            }
        }
    }
}

/// A grid of `height` rows of `width` cells has `width * height` cells.
pub proof fn lemma_cell_total<T: Clone>(t: Tapestry<T>)
    requires
        t.well_formed(),
    ensures
        cell_total(t.grid@) == t.width * t.height,
{
    lemma_rows_total(t.grid@, t.width as nat);
}

proof fn lemma_rows_total<T: Clone>(grid: Seq<Vec<Cell<T>>>, width: nat)
    requires
        forall|r: int| 0 <= r < grid.len() ==> (#[trigger] grid[r])@.len() == width,
    ensures
        cell_total(grid) == width * grid.len(),
    decreases grid.len(),
{
    if grid.len() > 0 {
        let rest = grid.drop_last();
        assert forall|r: int| 0 <= r < rest.len() implies (#[trigger] rest[r])@.len() == width by {
            assert(rest[r] == grid[r]);
        }
        lemma_rows_total(rest, width);
        assert(row_lengths(grid).drop_last() =~= row_lengths(rest));
        assert(row_lengths(grid).last() == width);
        assert(sum_of(row_lengths(grid)) == sum_of(row_lengths(rest)) + width);
        assert(width * rest.len() + width == width * grid.len()) by (nonlinear_arith)
            requires
                rest.len() + 1 == grid.len(),
        ;
    } else {
        assert(width * grid.len() == 0) by (nonlinear_arith)
            requires
                grid.len() == 0,
        ;
    }
}

/// A tapestry as `new` makes it is empty.
pub proof fn lemma_new_is_empty<T: Clone>(t: Tapestry<T>)
    requires
        t.well_formed(),
        forall|row: int, col: int|
            0 <= row < t.height && 0 <= col < t.width ==> #[trigger] t.cell(row, col) is Empty,
    ensures
        forall|row: int, col: int|
            #![trigger t.grid@[row]@[col]]
            t.in_grid(row, col) ==> t.cell(row, col) is Empty,
{
    assert forall|row: int, col: int| #![trigger t.grid@[row]@[col]] t.in_grid(row, col) implies t.cell(
        row,
        col,
    ) is Empty by {
        assert(t.grid@[row]@.len() == t.width);
        assert(t.cell(row, col) is Empty);
    }
}

/// A woven tapestry result.
#[derive(Debug, Clone)]
pub struct Tapestry<T: Clone> {
    pub grid: Vec<Vec<Cell<T>>>,
    pub width: usize,
    pub height: usize,
}

impl<T: Clone> Tapestry<T> {
    /// The grid has `height` rows of `width` cells.
    pub open spec fn well_formed(&self) -> bool {
        &&& self.grid@.len() == self.height
        &&& forall|r: int| 0 <= r < self.height ==> (#[trigger] self.grid@[r])@.len() == self.width
    }

    /// The cell at `(row, col)`.
    pub open spec fn cell(&self, row: int, col: int) -> Cell<T> {
        self.grid@[row]@[col]
    }

    /// Whether `(row, col)` is a cell of the grid.
    pub open spec fn in_grid(&self, row: int, col: int) -> bool {
        0 <= row < self.grid@.len() && 0 <= col < self.grid@[row]@.len()
    }

    /// An empty tapestry of `height` rows of `width` cells.
    pub fn new(width: usize, height: usize) -> (r: Self)
        ensures
            r.width == width,
            r.height == height,
            r.well_formed(),
            forall|row: int, col: int|
                0 <= row < height && 0 <= col < width ==> #[trigger] r.cell(row, col) is Empty,
    {
        let mut grid: Vec<Vec<Cell<T>>> = Vec::new();
        let mut i: usize = 0;
        while i < height
            invariant
                i <= height,
                grid@.len() == i,
                forall|row: int| 0 <= row < i ==> (#[trigger] grid@[row])@.len() == width,
                forall|row: int, col: int|
                    0 <= row < i && 0 <= col < width ==> #[trigger] grid@[row]@[col] is Empty,
            decreases height - i,
        {
            let mut line: Vec<Cell<T>> = Vec::new();
            let mut j: usize = 0;
            while j < width
                invariant
                    j <= width,
                    line@.len() == j,
                    forall|col: int| 0 <= col < j ==> #[trigger] line@[col] is Empty,
                decreases width - j,
            {
                line.push(Cell::Empty);
                j = j + 1;
            }
            grid.push(line);
            i = i + 1;
        }
        Tapestry { grid, width, height }
    }

    /// Puts `cell` at `(row, col)`; does nothing outside `width` and `height`.
    pub fn set(&mut self, row: usize, col: usize, cell: Cell<T>)
        requires
            row < old(self).height && col < old(self).width ==> old(self).in_grid(row as int, col as int),
        ensures
            final(self).width == old(self).width,
            final(self).height == old(self).height,
            final(self).grid@.len() == old(self).grid@.len(),
            forall|r: int|
                0 <= r < old(self).grid@.len() && r != row ==> #[trigger] final(self).grid@[r]
                    == old(self).grid@[r],
            row < old(self).height && col < old(self).width ==> final(self).grid@[row as int]@
                == old(self).grid@[row as int]@.update(col as int, cell),
            !(row < old(self).height && col < old(self).width) ==> final(self).grid@ == old(
                self,
            ).grid@,
            forall|r: int, c: int|
                old(self).in_grid(r, c) ==> final(self).in_grid(r, c) && #[trigger] final(self).cell(r, c)
                    == if r == row && c == col && row < old(self).height && col < old(self).width {
                    cell
                } else {
                    old(self).cell(r, c)
                },
            old(self).well_formed() ==> final(self).well_formed(),
    {
        if row < self.height && col < self.width {
            self.grid[row][col] = cell;
        }
    }

    /// The cell at `(row, col)`, if the grid has one there.
    pub fn get(&self, row: usize, col: usize) -> (r: Option<&Cell<T>>)
        ensures
            r == (if self.in_grid(row as int, col as int) {
                Some(&self.cell(row as int, col as int))
            } else {
                None
            }),
    {
        if row < self.grid.len() && col < self.grid[row].len() {
            Some(&self.grid[row][col])
        } else {
            None
        }
    }

    /// Whether every cell is empty.
    pub fn is_empty(&self) -> (r: bool)
        ensures
            r == (forall|row: int, col: int|
                #![trigger self.grid@[row]@[col]]
                self.in_grid(row, col) ==> self.cell(row, col) is Empty),
    {
        let mut i: usize = 0;
        while i < self.grid.len()
            invariant
                i <= self.grid@.len(),
                forall|row: int, col: int|
                    #![trigger self.grid@[row]@[col]]
                    0 <= row < i && self.in_grid(row, col) ==> self.cell(row, col) is Empty,
            decreases self.grid@.len() - i,
        {
            let line = &self.grid[i];
            let mut j: usize = 0;
            while j < line.len()
                invariant
                    i < self.grid@.len(),
                    line@ == self.grid@[i as int]@,
                    j <= line@.len(),
                    forall|row: int, col: int|
                        #![trigger self.grid@[row]@[col]]
                        0 <= row < i && self.in_grid(row, col) ==> self.cell(row, col) is Empty,
                    forall|col: int| 0 <= col < j ==> #[trigger] line@[col] is Empty,
                decreases line@.len() - j,
            {
                if !line[j].is_empty() {
                    assert(self.in_grid(i as int, j as int));
                    return false;
                }
                j = j + 1;
            }
            i = i + 1;
        }
        true
    }

    /// The number of cells for which `predicate` holds.
    pub fn count_where<F: Fn(&Cell<T>) -> bool>(&self, predicate: F) -> (n: usize)
        requires
            cell_total(self.grid@) <= usize::MAX,
            forall|r: int, c: int|
                0 <= r < self.grid@.len() && 0 <= c < self.grid@[r]@.len() ==> call_requires(
                    predicate,
                    (&self.grid@[r]@[c],),
                ),
        ensures
            exists|marks: Seq<Seq<bool>>|
                marks_fit(self.grid@, predicate, marks) && n == marks_total(marks),
    {
        let ghost lens = row_lengths(self.grid@);
        let ghost mut marks: Seq<Seq<bool>> = Seq::empty();
        let mut total: usize = 0;
        let mut i: usize = 0;
        while i < self.grid.len()
            invariant
                lens == row_lengths(self.grid@),
                sum_of(lens) <= usize::MAX,
                i <= self.grid@.len(),
                marks.len() == i,
                forall|r: int| 0 <= r < i ==> (#[trigger] marks[r]).len() == self.grid@[r]@.len(),
                forall|r: int, c: int|
                    0 <= r < i && 0 <= c < self.grid@[r]@.len() ==> call_ensures(
                        predicate,
                        (&self.grid@[r]@[c],),
                        #[trigger] marks[r][c],
                    ),
                forall|r: int, c: int|
                    0 <= r < self.grid@.len() && 0 <= c < self.grid@[r]@.len() ==> call_requires(
                        predicate,
                        (&self.grid@[r]@[c],),
                    ),
                total == marks_total(marks),
                total <= sum_of(lens.take(i as int)),
            decreases self.grid@.len() - i,
        {
            let line = &self.grid[i];
            let ghost mut row_marks: Seq<bool> = Seq::empty();
            let ghost base = total as int;
            proof {
                assert(lens.take(i + 1) =~= lens.take(i as int).push(lens[i as int]));
                lemma_sum_push(lens.take(i as int), lens[i as int]);
                lemma_sum_prefix(lens, i + 1);
            }
            let mut j: usize = 0;
            while j < line.len()
                invariant
                    i < self.grid@.len(),
                    line@ == self.grid@[i as int]@,
                    lens == row_lengths(self.grid@),
                    sum_of(lens.take(i as int)) + line@.len() <= usize::MAX,
                    base <= sum_of(lens.take(i as int)),
                    j <= line@.len(),
                    row_marks.len() == j,
                    forall|c: int| 0 <= c < j ==> call_ensures(predicate, (&line@[c],), #[trigger] row_marks[c]),
                    forall|c: int| 0 <= c < line@.len() ==> call_requires(predicate, (&line@[c],)),
                    total == base + count_true(row_marks),
                decreases line@.len() - j,
            {
                let b = predicate(&line[j]);
                proof {
                    lemma_count_true_push(row_marks, b);
                    lemma_count_true_bound(row_marks);
                    row_marks = row_marks.push(b);
                }
                if b {
                    total = total + 1;
                }
                j = j + 1;
            }
            proof {
                lemma_marks_total_push(marks, row_marks);
                lemma_count_true_bound(row_marks);
                marks = marks.push(row_marks);
            }
            i = i + 1;
        }
        assert(marks_fit(self.grid@, predicate, marks));
        total
    }

    /// The number of cells holding warp values.
    pub fn warp_count(&self) -> (n: usize)
        requires
            cell_total(self.grid@) <= usize::MAX,
        ensures
            n == marks_total(warp_marks(self.grid@)),
    {
        let is_warp = |c: &Cell<T>| -> (b: bool)
            ensures
                b == (*c is Warp),
            { c.is_warp() };
        let n = self.count_where(is_warp);
        proof {
            let marks = choose|marks: Seq<Seq<bool>>|
                marks_fit(self.grid@, is_warp, marks) && n == marks_total(marks);
            assert forall|r: int| 0 <= r < marks.len() implies #[trigger] marks[r] =~= warp_marks(
                self.grid@,
            )[r] by {
                assert forall|c: int| 0 <= c < marks[r].len() implies #[trigger] marks[r][c]
                    == warp_marks(self.grid@)[r][c] by {
                    assert(call_ensures(is_warp, (&self.grid@[r]@[c],), marks[r][c]));
                }
            }
            assert(marks =~= warp_marks(self.grid@));
        }
        n
    }

    /// The number of cells holding weft values.
    pub fn weft_count(&self) -> (n: usize)
        requires
            cell_total(self.grid@) <= usize::MAX,
        ensures
            n == marks_total(weft_marks(self.grid@)),
    {
        let is_weft = |c: &Cell<T>| -> (b: bool)
            ensures
                b == (*c is Weft),
            { c.is_weft() };
        let n = self.count_where(is_weft);
        proof {
            let marks = choose|marks: Seq<Seq<bool>>|
                marks_fit(self.grid@, is_weft, marks) && n == marks_total(marks);
            assert forall|r: int| 0 <= r < marks.len() implies #[trigger] marks[r] =~= weft_marks(
                self.grid@,
            )[r] by {
                assert forall|c: int| 0 <= c < marks[r].len() implies #[trigger] marks[r][c]
                    == weft_marks(self.grid@)[r][c] by {
                    assert(call_ensures(is_weft, (&self.grid@[r]@[c],), marks[r][c]));
                }
            }
            assert(marks =~= weft_marks(self.grid@));
        }
        n
    }

    /// The cells of row `row`, if the grid has that row.
    pub fn row(&self, row: usize) -> (r: Option<&[Cell<T>]>)
        ensures
            match r {
                Some(s) => row < self.grid@.len() && s@ == self.grid@[row as int]@,
                None => row >= self.grid@.len(),
            },
    {
        if row < self.grid.len() {
            Some(self.grid[row].as_slice())
        } else {
            None
        }
    }

    /// The cells at column `col` of the rows long enough to have one, top to bottom.
    pub fn column(&self, col: usize) -> (r: Vec<&Cell<T>>)
        ensures
            r@.map_values(|c: &Cell<T>| *c) == column_cells(self.grid@, col as int),
            self.well_formed() && col < self.width ==> r@.len() == self.height && forall|i: int|
                0 <= i < self.height ==> *(#[trigger] r@[i]) == self.cell(i, col as int),
    {
        let mut r: Vec<&Cell<T>> = Vec::new();
        let mut i: usize = 0;
        while i < self.grid.len()
            invariant
                i <= self.grid@.len(),
                r@.map_values(|c: &Cell<T>| *c) == column_cells(self.grid@.take(i as int), col as int),
            decreases self.grid@.len() - i,
        {
            let ghost before = r@;
            assert(self.grid@.take(i + 1).drop_last() =~= self.grid@.take(i as int));
            if col < self.grid[i].len() {
                r.push(&self.grid[i][col]);
                assert(r@.map_values(|c: &Cell<T>| *c) =~= before.map_values(|c: &Cell<T>| *c).push(
                    self.grid@[i as int]@[col as int],
                ));
            }
            i = i + 1;
        }
        assert(self.grid@.take(i as int) =~= self.grid@);
        proof {
            if self.well_formed() && col < self.width {
                assert forall|k: int| 0 <= k < self.grid@.len() implies col < (
                #[trigger] self.grid@[k])@.len() by {
                    assert(self.grid@[k]@.len() == self.width);
                }
                lemma_column_full_rows(self.grid@, col as int);
                let f = |c: &Cell<T>| *c;
                assert forall|k: int| 0 <= k < self.height implies *(#[trigger] r@[k]) == self.cell(
                    k,
                    col as int,
                ) by {
                    assert(r@.map_values(f)[k] == self.grid@[k]@[col as int]);
                }
            }
        }
        r
    }
}

/// The lengths that decide a woven tapestry's width: those of the warp
/// threads, and that of the first weft thread (0 when there is none).
pub open spec fn weave_widths<T: Clone>(warp: Warp<T>, weft: Weft<T>) -> Seq<nat> {
    warp.lengths().push(
        if weft.threads@.len() > 0 {
            weft.threads@[0].values@.len()
        } else {
            0
        },
    )
}

/// Weft thread `row` shows at column `col`: it has a value there, the column is
/// inside the tapestry, and the pattern does not raise it.
pub open spec fn weft_shows<T: Clone>(
    weft: Weft<T>,
    pattern: Seq<bool>,
    width: int,
    row: int,
    col: int,
) -> bool {
    &&& 0 <= row < weft.threads@.len()
    &&& 0 <= col < weft.threads@[row].values@.len()
    &&& col < width
    &&& !pattern[col]
}

/// Warp thread `row` has a value at column `col`.
pub open spec fn warp_shows<T: Clone>(warp: Warp<T>, row: int, col: int) -> bool {
    &&& 0 <= row < warp.threads@.len()
    &&& 0 <= col < warp.threads@[row].values@.len()
}

/// The cell that the warp alone puts at `(row, col)`: its value where it has
/// one, else nothing.
pub open spec fn warp_cell<T: Clone>(warp: Warp<T>, row: int, col: int, cell: Cell<T>) -> bool {
    if warp_shows(warp, row, col) {
        holds_warp(cell, warp.threads@[row].values@[col])
    } else {
        cell is Empty
    }
}

/// The cell that weaving puts at `(row, col)`: the weft value where the weft
/// shows, else what the warp puts there.
pub open spec fn woven_cell<T: Clone>(
    warp: Warp<T>,
    weft: Weft<T>,
    pattern: Seq<bool>,
    width: int,
    row: int,
    col: int,
    cell: Cell<T>,
) -> bool {
    if weft_shows(weft, pattern, width, row, col) {
        holds_weft(cell, weft.threads@[row].values@[col])
    } else {
        warp_cell(warp, row, col, cell)
    }
}

/// The woven width is the largest of every warp thread's length and the length
/// of weft thread 0 (0 without weft threads): it is at least each of them and
/// equals one of them, or is 0.
pub proof fn lemma_weave_width<T: Clone>(warp: Warp<T>, weft: Weft<T>, width: int)
    requires
        is_max_of(weave_widths(warp, weft), width),
    ensures
        forall|i: int| 0 <= i < warp.threads@.len() ==> #[trigger] warp.threads@[i].values@.len() <= width,
        weft.threads@.len() > 0 ==> weft.threads@[0].values@.len() <= width,
        width == 0 || (weft.threads@.len() > 0 && width == weft.threads@[0].values@.len()) || exists|i: int|
            0 <= i < warp.threads@.len() && #[trigger] warp.threads@[i].values@.len() == width,
{
    let ws = weave_widths(warp, weft);
    let n = warp.threads@.len() as int;
    assert forall|i: int| 0 <= i < n implies #[trigger] warp.threads@[i].values@.len() <= width by {
        assert(ws[i] == warp.threads@[i].values@.len());
    }
    if weft.threads@.len() > 0 {
        assert(ws[n] == weft.threads@[0].values@.len());
    }
    let k = choose|k: int| 0 <= k < ws.len() && #[trigger] ws[k] == width;
    if k < n {
        assert(warp.threads@[k].values@.len() == width);
    } else if weft.threads@.len() == 0 {
        assert(ws[n] == 0);
    }
}

/// Weft threads after the first do not change the woven width: adding one
/// gives the same width.
pub proof fn lemma_weave_width_ignores_later_weft<T: Clone>(
    warp: Warp<T>,
    weft: Weft<T>,
    more: Weft<T>,
    extra: crate::weft::WeftThread<T>,
    width: int,
    more_width: int,
)
    requires
        weft.threads@.len() > 0,
        more.threads@ == weft.threads@.push(extra),
        is_max_of(weave_widths(warp, weft), width),
        is_max_of(weave_widths(warp, more), more_width),
    ensures
        width == more_width,
{
    lemma_weave_width(warp, weft, width);
    lemma_weave_width(warp, more, more_width);
    assert(more.threads@[0] == weft.threads@[0]);
    if width < more_width {
        if more_width == more.threads@[0].values@.len() {
        } else {
            let i = choose|i: int|
                0 <= i < warp.threads@.len() && #[trigger] warp.threads@[i].values@.len() == more_width;
            assert(warp.threads@[i].values@.len() <= width);
        }
    }
    if more_width < width {
        if width == weft.threads@[0].values@.len() {
        } else {
            let i = choose|i: int|
                0 <= i < warp.threads@.len() && #[trigger] warp.threads@[i].values@.len() == width;
            assert(warp.threads@[i].values@.len() <= more_width);
        }
    }
}

/// Weaves a tapestry from warp and weft threads using a heddle pattern.
///
/// The tapestry is as wide as the longest warp thread or the first weft thread,
/// whichever is longer, and has as many rows as the warp or the weft has
/// threads, whichever has more. Row `r` holds warp thread `r`, overlaid by weft
/// thread `r` at the columns that the heddle's current state lowers.
pub fn weave<T: Clone>(warp: &Warp<T>, weft: &Weft<T>, heddle: &Heddle) -> (t: Tapestry<T>)
    requires
        heddle.pattern@.len() > 0,
    ensures
        is_max_of(weave_widths(*warp, *weft), t.width as int),
        forall|i: int|
            0 <= i < warp.threads@.len() ==> #[trigger] warp.threads@[i].values@.len() <= t.width,
        weft.threads@.len() > 0 ==> weft.threads@[0].values@.len() <= t.width,
        t.width == 0 || (weft.threads@.len() > 0 && t.width == weft.threads@[0].values@.len())
            || exists|i: int|
            0 <= i < warp.threads@.len() && #[trigger] warp.threads@[i].values@.len() == t.width,
        t.height == if warp.threads@.len() > weft.threads@.len() {
            warp.threads@.len()
        } else {
            weft.threads@.len()
        },
        t.well_formed(),
        forall|row: int, col: int|
            0 <= row < t.height && 0 <= col < t.width ==> woven_cell(
                *warp,
                *weft,
                heddle.state(if t.width > 0 { t.width as nat } else { 1 }),
                t.width as int,
                row,
                col,
                #[trigger] t.cell(row, col),
            ),
{
    let longest = warp.max_length();
    let first = if weft.threads.len() > 0 {
        weft.threads[0].values.len()
    } else {
        0
    };
    let width = if longest > first {
        longest
    } else {
        first
    };
    proof {
        let ws = weave_widths(*warp, *weft);
        assert(ws[ws.len() - 1] == first);
        assert forall|i: int| 0 <= i < ws.len() implies #[trigger] ws[i] <= width by {
            if i < ws.len() - 1 {
                assert(ws[i] == warp.lengths()[i]);
            }
        }
        if longest > first {
            let k = choose|k: int| 0 <= k < warp.lengths().len() && #[trigger] warp.lengths()[k] == longest;
            assert(ws[k] == width);
        } else {
            assert(ws[ws.len() - 1] == width);
        }
    }
    let height = if warp.threads.len() > weft.threads.len() {
        warp.threads.len()
    } else {
        weft.threads.len()
    };
    proof {
        lemma_weave_width(*warp, *weft, width as int);
    }
    let mut tapestry = Tapestry::new(width, height);
    let pattern = heddle.current_state(if width > 0 { width } else { 1 });
    let ghost pat = pattern@;
    assert forall|r: int, c: int| warp_shows(*warp, r, c) implies c < width by {
        assert(warp.lengths()[r] <= longest);
    }
    // Fill warp threads.
    let mut row: usize = 0;
    while row < warp.threads.len()
        invariant
            row <= warp.threads@.len(),
            warp.threads@.len() <= height,
            forall|r: int, c: int| warp_shows(*warp, r, c) ==> c < width,
            tapestry.width == width,
            tapestry.height == height,
            tapestry.well_formed(),
            forall|r: int, c: int|
                0 <= r < height && 0 <= c < width ==> if r < row {
                    warp_cell(*warp, r, c, #[trigger] tapestry.cell(r, c))
                } else {
                    tapestry.cell(r, c) is Empty
                },
        decreases warp.threads@.len() - row,
    {
        let values = &warp.threads[row].values;
        let mut col: usize = 0;
        while col < values.len()
            invariant
                row < warp.threads@.len(),
                warp.threads@.len() <= height,
                values@ == warp.threads@[row as int].values@,
                col <= values@.len(),
                forall|r: int, c: int| warp_shows(*warp, r, c) ==> c < width,
                tapestry.width == width,
                tapestry.height == height,
                tapestry.well_formed(),
                forall|r: int, c: int|
                    0 <= r < height && 0 <= c < width ==> if r < row || (r == row && c < col) {
                        warp_cell(*warp, r, c, #[trigger] tapestry.cell(r, c))
                    } else {
                        tapestry.cell(r, c) is Empty
                    },
            decreases values@.len() - col,
        {
            if col < width {
                tapestry.set(row, col, Cell::Warp(values[col].clone()));
            }
            col = col + 1;
        }
        row = row + 1;
    }
    // Overlay weft threads based on the pattern.
    let mut row: usize = 0;
    while row < weft.threads.len()
        invariant
            row <= weft.threads@.len(),
            pat == pattern@,
            pattern@.len() >= width,
            tapestry.width == width,
            tapestry.height == height,
            tapestry.well_formed(),
            forall|r: int, c: int|
                0 <= r < height && 0 <= c < width ==> if r < row && weft_shows(
                    *weft,
                    pat,
                    width as int,
                    r,
                    c,
                ) {
                    holds_weft(#[trigger] tapestry.cell(r, c), weft.threads@[r].values@[c])
                } else {
                    warp_cell(*warp, r, c, tapestry.cell(r, c))
                },
        decreases weft.threads@.len() - row,
    {
        let values = &weft.threads[row].values;
        let mut col: usize = 0;
        while col < values.len()
            invariant
                row < weft.threads@.len(),
                values@ == weft.threads@[row as int].values@,
                col <= values@.len(),
                pat == pattern@,
                pattern@.len() >= width,
                tapestry.width == width,
                tapestry.height == height,
                tapestry.well_formed(),
                forall|r: int, c: int|
                    0 <= r < height && 0 <= c < width ==> if (r < row || (r == row && c < col))
                        && weft_shows(*weft, pat, width as int, r, c) {
                        holds_weft(#[trigger] tapestry.cell(r, c), weft.threads@[r].values@[c])
                    } else {
                        warp_cell(*warp, r, c, tapestry.cell(r, c))
                    },
            decreases values@.len() - col,
        {
            let raised = if col < pattern.len() {
                pattern[col]
            } else {
                false
            };
            if col < width && row < height && !raised {
                tapestry.set(row, col, Cell::Weft(values[col].clone()));
            }
            col = col + 1;
        }
        row = row + 1;
    }
    tapestry
}

/// The checkerboard cell at `(row, col)`: a warp copy of `a` where `row + col`
/// is even, a weft copy of `b` elsewhere.
pub open spec fn checker_cell<T: Clone>(cell: Cell<T>, row: int, col: int, a: T, b: T) -> bool {
    if (row + col) % 2 == 0 {
        holds_warp(cell, a)
    } else {
        holds_weft(cell, b)
    }
}

/// A square tapestry of `size` cells a side: warp copies of `a` where
/// `row + col` is even, weft copies of `b` elsewhere.
pub fn checkerboard<T: Clone>(size: usize, a: T, b: T) -> (t: Tapestry<T>)
    ensures
        t.width == size,
        t.height == size,
        t.well_formed(),
        forall|row: int, col: int|
            0 <= row < size && 0 <= col < size ==> checker_cell(#[trigger] t.cell(row, col), row, col, a, b),
{
    let mut t = Tapestry::new(size, size);
    let mut row: usize = 0;
    while row < size
        invariant
            row <= size,
            t.width == size,
            t.height == size,
            t.well_formed(),
            forall|r: int, c: int|
                0 <= r < size && 0 <= c < size ==> if r < row {
                    checker_cell(#[trigger] t.cell(r, c), r, c, a, b)
                } else {
                    t.cell(r, c) is Empty
                },
        decreases size - row,
    {
        let mut col: usize = 0;
        while col < size
            invariant
                row < size,
                col <= size,
                t.width == size,
                t.height == size,
                t.well_formed(),
                forall|r: int, c: int|
                    0 <= r < size && 0 <= c < size ==> if r < row || (r == row && c < col) {
                        checker_cell(#[trigger] t.cell(r, c), r, c, a, b)
                    } else {
                        t.cell(r, c) is Empty
                    },
            decreases size - col,
        {
            let even = (row % 2 + col % 2) % 2 == 0;
            assert(even == ((row + col) % 2 == 0)) by (nonlinear_arith)
                requires
                    even == ((row % 2 + col % 2) % 2 == 0),
            ;
            let cell = if even {
                Cell::Warp(a.clone())
            } else {
                Cell::Weft(b.clone())
            };
            t.set(row, col, cell);
            col = col + 1;
        }
        row = row + 1;
    }
    t
}

/// Whether column `col` falls in an `a` stripe: stripes are `stripe_width`
/// columns wide (at least 1) and alternate, starting with `a`.
pub open spec fn in_first_stripe(col: int, stripe_width: int) -> bool {
    let w = if stripe_width > 1 {
        stripe_width
    } else {
        1
    };
    (col / w) % 2 == 0
}

/// The striped cell at column `col`: a warp copy of `a` in the `a` stripes, a
/// weft copy of `b` in the others.
pub open spec fn stripe_cell<T: Clone>(cell: Cell<T>, col: int, stripe_width: int, a: T, b: T) -> bool {
    if in_first_stripe(col, stripe_width) {
        holds_warp(cell, a)
    } else {
        holds_weft(cell, b)
    }
}

/// A tapestry of vertical stripes: warp copies of `a` in the `a` stripes,
/// weft copies of `b` in the others.
pub fn stripes<T: Clone>(width: usize, height: usize, stripe_width: usize, a: T, b: T) -> (t:
    Tapestry<T>)
    ensures
        t.width == width,
        t.height == height,
        t.well_formed(),
        forall|row: int, col: int|
            0 <= row < height && 0 <= col < width ==> stripe_cell(
                #[trigger] t.cell(row, col),
                col,
                stripe_width as int,
                a,
                b,
            ),
{
    let mut t = Tapestry::new(width, height);
    let mut row: usize = 0;
    while row < height
        invariant
            row <= height,
            t.width == width,
            t.height == height,
            t.well_formed(),
            forall|r: int, c: int|
                0 <= r < height && 0 <= c < width ==> if r < row {
                    stripe_cell(#[trigger] t.cell(r, c), c, stripe_width as int, a, b)
                } else {
                    t.cell(r, c) is Empty
                },
        decreases height - row,
    {
        let mut col: usize = 0;
        while col < width
            invariant
                row < height,
                col <= width,
                t.width == width,
                t.height == height,
                t.well_formed(),
                forall|r: int, c: int|
                    0 <= r < height && 0 <= c < width ==> if r < row || (r == row && c < col) {
                        stripe_cell(#[trigger] t.cell(r, c), c, stripe_width as int, a, b)
                    } else {
                        t.cell(r, c) is Empty
                    },
            decreases width - col,
        {
            let w = if stripe_width > 1 {
                stripe_width
            } else {
                1
            };
            let cell = if (col / w) % 2 == 0 {
                Cell::Warp(a.clone())
            } else {
                Cell::Weft(b.clone())
            };
            t.set(row, col, cell);
            col = col + 1;
        }
        row = row + 1;
    }
    t
}

} // verus!
