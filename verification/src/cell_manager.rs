//! Cell management: allocation bookkeeping for a fixed grid of advice
//! columns. A manager owns `width` columns of `height` rows and hands out
//! cells one by one, always from a least-filled column whose fill is still
//! below the current height limit; positions handed out are never reused.

use vstd::prelude::*;

verus! {

/// The kind of cell a column stores.
#[derive(Clone, Copy, Debug, PartialEq, Eq, PartialOrd, Ord, Structural)]
pub enum CellType {
    /// General storage.
    Storage,
}

/// A cell handed out by the manager: a column index and a rotation (row
/// offset) within the region.
#[derive(Clone, Copy, Debug, PartialEq, Eq, Structural)]
pub struct CellPosition {
    pub column: usize,
    pub rotation: usize,
}

/// One managed column: its index, the kind of cells it stores, and how
/// many of its cells have been handed out.
#[derive(Clone, Copy, Debug, PartialEq, Eq, Structural)]
pub struct CellColumn {
    pub index: usize,
    pub cell_type: CellType,
    pub height: usize,
}

/// The total number of cells handed out across a column sequence.
pub open spec fn total_height(cols: Seq<CellColumn>) -> int
    decreases cols.len(),
{
    if cols.len() == 0 {
        0
    } else {
        cols.first().height + total_height(cols.drop_first())
    }
}

/// Splitting a column sequence splits its total.
proof fn lemma_total_height_concat(a: Seq<CellColumn>, b: Seq<CellColumn>)
    ensures
        total_height(a + b) == total_height(a) + total_height(b),
    decreases a.len(),
{
    if a.len() == 0 {
        assert(a + b =~= b);
    } else {
        assert((a + b).first() == a.first());
        assert((a + b).drop_first() =~= a.drop_first() + b);
        lemma_total_height_concat(a.drop_first(), b);
    }
}

/// Raising one column's height by one raises the total by one.
proof fn lemma_total_height_update(cols: Seq<CellColumn>, i: int, v: CellColumn)
    requires
        0 <= i < cols.len(),
        v.height == cols[i].height + 1,
    ensures
        total_height(cols.update(i, v)) == total_height(cols) + 1,
    decreases cols.len(),
{
    if i == 0 {
        assert(cols.update(0, v).first() == v);
        assert(cols.update(0, v).drop_first() =~= cols.drop_first());
    } else {
        assert(cols.update(i, v).first() == cols.first());
        assert(cols.update(i, v).drop_first() =~= cols.drop_first().update(i - 1, v));
        lemma_total_height_update(cols.drop_first(), i - 1, v);
    }
}

/// A total of fill counts is never negative.
proof fn lemma_total_height_nonneg(cols: Seq<CellColumn>)
    ensures
        total_height(cols) >= 0,
    decreases cols.len(),
{
    if cols.len() != 0 {
        lemma_total_height_nonneg(cols.drop_first());
    }
}

/// When every column is filled to the limit or beyond, the total is at
/// least the limit times the number of columns.
proof fn lemma_total_height_lower_bound(cols: Seq<CellColumn>, limit: int)
    requires
        forall|k: int| 0 <= k < cols.len() ==> cols[k].height >= limit,
    ensures
        total_height(cols) >= limit * cols.len(),
    decreases cols.len(),
{
    if cols.len() == 0 {
    } else {
        assert(cols.drop_first() =~= cols.skip(1));
        assert(forall|k: int|
            0 <= k < cols.drop_first().len() ==> cols.drop_first()[k].height >= limit);
        lemma_total_height_lower_bound(cols.drop_first(), limit);
        assert(limit * cols.len() == limit * (cols.len() - 1) + limit) by (nonlinear_arith);
    }
}

/// The first least-filled column at or after position `i`: the column the
/// manager allocates from next. Ties go to the lowest index.
pub open spec fn min_col(cols: Seq<CellColumn>, i: int) -> int
    decreases cols.len() - i,
{
    if i + 1 >= cols.len() {
        i
    } else {
        let rest = min_col(cols, i + 1);
        if cols[rest].height < cols[i].height {
            rest
        } else {
            i
        }
    }
}

/// The chosen column lies in range and its fill is minimal over the range.
proof fn lemma_min_col_props(cols: Seq<CellColumn>, i: int)
    requires
        0 <= i < cols.len(),
    ensures
        i <= min_col(cols, i) < cols.len(),
        forall|k: int|
            i <= k < cols.len() ==> cols[min_col(cols, i)].height <= (#[trigger] cols[k]).height,
    decreases cols.len() - i,
{
    if i + 1 < cols.len() {
        lemma_min_col_props(cols, i + 1);
    }
}

/// An index whose fill is minimal over the range, with every earlier index
/// strictly fuller, is the one `min_col` picks.
proof fn lemma_min_col_is_first_min(cols: Seq<CellColumn>, i: int, m: int)
    requires
        0 <= i <= m < cols.len(),
        forall|k: int| i <= k < cols.len() ==> cols[m].height <= (#[trigger] cols[k]).height,
        forall|k: int| i <= k < m ==> (#[trigger] cols[k]).height > cols[m].height,
    ensures
        min_col(cols, i) == m,
    decreases cols.len() - i,
{
    if i == m {
        if i + 1 < cols.len() {
            lemma_min_col_props(cols, i + 1);
        }
    } else {
        lemma_min_col_is_first_min(cols, i + 1, m);
    }
}

/// What allocation hands out: starting from the given columns, `n` cells,
/// each the next unused row of the first least-filled column, the fill
/// counts advancing as the cells are handed out.
pub open spec fn alloc_model(cols: Seq<CellColumn>, n: nat) -> (Seq<CellPosition>, Seq<CellColumn>)
    decreases n,
{
    if n == 0 {
        (Seq::<CellPosition>::empty(), cols)
    } else {
        let idx = min_col(cols, 0);
        let pos = CellPosition { column: idx as usize, rotation: cols[idx].height };
        let col2 = CellColumn {
            index: cols[idx].index,
            cell_type: cols[idx].cell_type,
            height: (cols[idx].height + 1) as usize,
        };
        let rec = alloc_model(cols.update(idx, col2), (n - 1) as nat);
        (seq![pos] + rec.0, rec.1)
    }
}

/// The cell manager: a grid of `width` columns by `height` rows, a current
/// height limit, and the per-column fill counts.
#[derive(Clone, Debug)]
pub struct CellManager {
    pub width: usize,
    pub height: usize,
    pub columns: Vec<CellColumn>,
    pub height_limit: usize,
}

impl CellManager {
    /// Validity: one bookkeeping entry per column, each carrying its own
    /// index and a fill count within the current limit.
    pub open spec fn wf(self) -> bool {
        &&& self.columns@.len() == self.width
        &&& self.height_limit <= self.height
        &&& forall|k: int|
            0 <= k < self.width ==> (#[trigger] self.columns@[k]).index == k
                && self.columns@[k].height <= self.height_limit
                && self.columns@[k].cell_type == CellType::Storage
    }

    /// The number of cells still available under the current limit.
    pub open spec fn free_cells(self) -> int {
        self.height_limit * self.width - total_height(self.columns@)
    }

    /// Sets up a manager over `width` columns of 32 rows, all empty.
    pub fn new(width: usize) -> (m: CellManager)
        ensures
            m.wf(),
            m.width == width,
            m.height == 32,
            m.height_limit == 32,
            total_height(m.columns@) == 0,
    {
        let mut columns: Vec<CellColumn> = Vec::new();
        let mut c: usize = 0;
        while c < width
            invariant
                c <= width,
                columns@.len() == c,
                forall|k: int|
                    0 <= k < c ==> (#[trigger] columns@[k]).index == k && columns@[k].height == 0
                        && columns@[k].cell_type == CellType::Storage,
                total_height(columns@) == 0,
            decreases width - c,
        {
            let col = CellColumn { index: c, cell_type: CellType::Storage, height: 0 };
            proof {
                lemma_total_height_concat(columns@, seq![col]);
                assert(columns@.push(col) =~= columns@ + seq![col]);
                assert(total_height(seq![col]) == 0) by {
                    reveal_with_fuel(total_height, 2);
                    assert(seq![col].drop_first() =~= Seq::<CellColumn>::empty());
                }
            }
            columns.push(col);
            c = c + 1;
        }
        CellManager { width, height: 32, columns, height_limit: 32 }
    }

    /// Picks the column the manager allocates from next: the
    /// lowest-indexed least-filled column of the given type that is still
    /// below the height limit.
    fn next_column(&self, cell_type: CellType) -> (r: usize)
        requires
            self.wf(),
            self.width > 0,
            self.free_cells() > 0,
        ensures
            r < self.width,
            r as int == min_col(self.columns@, 0),
            self.columns@[r as int].cell_type == CellType::Storage,
            self.columns@[r as int].height < self.height_limit,
            forall|k: int|
                0 <= k < self.width && self.columns@[k].cell_type == cell_type
                    ==> self.columns@[r as int].height <= (#[trigger] self.columns@[k]).height,
            forall|k: int|
                0 <= k < r ==> (#[trigger] self.columns@[k]).height
                    > self.columns@[r as int].height,
    {
        let mut best_index: usize = 0;
        let mut found: bool = false;
        let mut best_height: usize = self.height;
        let mut c: usize = 0;
        while c < self.width
            invariant
                self.wf(),
                c <= self.width,
                !found ==> best_height == self.height,
                !found ==> forall|k: int|
                    0 <= k < c ==> (#[trigger] self.columns@[k]).height >= self.height_limit,
                found ==> best_index < self.width && self.columns@[best_index as int].height
                    == best_height && best_height < self.height_limit
                    && self.columns@[best_index as int].cell_type == CellType::Storage,
                found ==> forall|k: int|
                    0 <= k < c ==> best_height <= (#[trigger] self.columns@[k]).height,
                found ==> forall|k: int|
                    0 <= k < best_index ==> (#[trigger] self.columns@[k]).height > best_height,
            decreases self.width - c,
        {
            let col = &self.columns[c];
            if col.cell_type == cell_type && col.height < best_height && col.height
                < self.height_limit {
                best_index = c;
                best_height = col.height;
                found = true;
            }
            c = c + 1;
        }
        proof {
            if !found {
                lemma_total_height_lower_bound(self.columns@, self.height_limit as int);
                assert(self.height_limit * self.columns@.len() == self.height_limit * self.width);
                assert(false);
            }
            lemma_min_col_is_first_min(self.columns@, 0, best_index as int);
        }
        best_index
    }

    /// Hands out `count` fresh cells of the given type, each from a
    /// least-filled usable column; the positions returned are pairwise
    /// distinct and never handed out again.
    pub fn query_cells(&mut self, cell_type: CellType, count: usize) -> (cells: Vec<CellPosition>)
        requires
            old(self).wf(),
            old(self).width > 0,
            count <= old(self).free_cells(),
        ensures
            final(self).wf(),
            final(self).width == old(self).width,
            final(self).height == old(self).height,
            final(self).height_limit == old(self).height_limit,
            cells@.len() == count,
            total_height(final(self).columns@) == total_height(old(self).columns@) + count,
            forall|i: int|
                0 <= i < count ==> (#[trigger] cells@[i]).column < old(self).width
                    && cells@[i].rotation < old(self).height_limit,
            forall|i: int, j: int| 0 <= i < j < count ==> cells@[i] != cells@[j],
            (cells@, final(self).columns@) == alloc_model(old(self).columns@, count as nat),
            forall|i: int|
                0 <= i < count ==> old(self).columns@[(#[trigger] cells@[i]).column as int].height
                    <= cells@[i].rotation < final(self).columns@[cells@[i].column as int].height,
    {
        let mut cells: Vec<CellPosition> = Vec::new();
        let mut n: usize = 0;
        proof {
            assert(Seq::<CellPosition>::empty() + alloc_model(
                old(self).columns@,
                count as nat,
            ).0 =~= alloc_model(old(self).columns@, count as nat).0);
        }
        while n < count
            invariant
                self.wf(),
                self.width == old(self).width,
                self.height == old(self).height,
                self.height_limit == old(self).height_limit,
                self.width > 0,
                n <= count,
                cells@.len() == n,
                total_height(self.columns@) == total_height(old(self).columns@) + n,
                count <= old(self).free_cells(),
                forall|i: int|
                    0 <= i < n ==> (#[trigger] cells@[i]).column < self.width
                        && cells@[i].rotation < self.columns@[cells@[i].column as int].height,
                forall|i: int, j: int| 0 <= i < j < n ==> cells@[i] != cells@[j],
                forall|k: int|
                    0 <= k < self.width ==> (#[trigger] self.columns@[k]).height >= old(
                        self,
                    ).columns@[k].height,
                forall|i: int|
                    0 <= i < n ==> old(self).columns@[(#[trigger] cells@[i]).column as int].height
                        <= cells@[i].rotation,
                alloc_model(old(self).columns@, count as nat) == (
                    cells@ + alloc_model(self.columns@, (count - n) as nat).0,
                    alloc_model(self.columns@, (count - n) as nat).1,
                ),
            decreases count - n,
        {
            let idx = self.next_column(cell_type);
            let h = self.columns[idx].height;
            let pos = CellPosition { column: idx, rotation: h };
            let newcol = CellColumn {
                index: idx,
                cell_type: CellType::Storage,
                height: h + 1,
            };
            let ghost pre = self.columns@;
            let ghost rem: nat = (count - n) as nat;
            proof {
                lemma_total_height_update(self.columns@, idx as int, newcol);
                // One unfolding of the model at the current state: it hands
                // out exactly `pos` and advances exactly this column.
                assert(alloc_model(pre, rem).0 == seq![pos] + alloc_model(
                    pre.update(idx as int, newcol),
                    (rem - 1) as nat,
                ).0);
                assert(alloc_model(pre, rem).1 == alloc_model(
                    pre.update(idx as int, newcol),
                    (rem - 1) as nat,
                ).1);
            }
            self.columns.set(idx, newcol);
            cells.push(pos);
            n = n + 1;
            proof {
                assert(cells@ =~= cells@.subrange(0, n - 1).push(pos));
                assert(cells@.subrange(0, n - 1) + (seq![pos] + alloc_model(
                    self.columns@,
                    (count - n) as nat,
                ).0) =~= cells@ + alloc_model(self.columns@, (count - n) as nat).0);
            }
        }
        proof {
            assert(cells@ + alloc_model(self.columns@, 0).0 =~= cells@);
        }
        cells
    }

    /// Hands out one fresh cell of the given type: the next unused row of
    /// the lowest-indexed least-filled column.
    pub fn query_cell(&mut self, cell_type: CellType) -> (cell: CellPosition)
        requires
            old(self).wf(),
            old(self).width > 0,
            old(self).free_cells() >= 1,
        ensures
            final(self).wf(),
            final(self).width == old(self).width,
            final(self).height == old(self).height,
            final(self).height_limit == old(self).height_limit,
            total_height(final(self).columns@) == total_height(old(self).columns@) + 1,
            cell.column < old(self).width,
            cell.rotation < old(self).height_limit,
            cell.column as int == min_col(old(self).columns@, 0),
            cell.rotation == old(self).columns@[cell.column as int].height,
            forall|k: int|
                0 <= k < old(self).width ==> old(self).columns@[cell.column as int].height <= (
                #[trigger] old(self).columns@[k]).height,
    {
        let cells = self.query_cells(cell_type, 1);
        proof {
            reveal_with_fuel(alloc_model, 2);
            assert(cells@ =~= seq![cells@[0]]);
            lemma_min_col_props(old(self).columns@, 0);
        }
        cells[0]
    }

    /// Empties every column and installs a new height limit.
    pub fn reset(&mut self, height_limit: usize)
        requires
            old(self).wf(),
            height_limit <= old(self).height,
        ensures
            final(self).wf(),
            final(self).width == old(self).width,
            final(self).height == old(self).height,
            final(self).height_limit == height_limit,
            total_height(final(self).columns@) == 0,
    {
        self.height_limit = height_limit;
        let mut c: usize = 0;
        while c < self.columns.len()
            invariant
                c <= self.columns@.len(),
                self.columns@.len() == old(self).columns@.len(),
                self.width == old(self).width,
                self.height == old(self).height,
                self.height_limit == height_limit,
                old(self).wf(),
                height_limit <= old(self).height,
                forall|k: int|
                    0 <= k < c ==> (#[trigger] self.columns@[k]).height == 0
                        && self.columns@[k].index == k && self.columns@[k].cell_type
                        == CellType::Storage,
                forall|k: int|
                    c <= k < self.columns@.len() ==> self.columns@[k] == old(self).columns@[k],
                total_height(self.columns@.take(c as int)) == 0,
            decreases self.columns@.len() - c,
        {
            let cleared = CellColumn { index: c, cell_type: CellType::Storage, height: 0 };
            let ghost pre = self.columns@;
            self.columns.set(c, cleared);
            proof {
                assert(self.columns@.take(c as int) =~= pre.take(c as int));
                assert(self.columns@.take(c as int + 1) =~= pre.take(c as int) + seq![cleared]);
                lemma_total_height_concat(pre.take(c as int), seq![cleared]);
                assert(total_height(seq![cleared]) == 0) by {
                    reveal_with_fuel(total_height, 2);
                    assert(seq![cleared].drop_first() =~= Seq::<CellColumn>::empty());
                }
            }
            c = c + 1;
        }
        proof {
            assert(self.columns@.take(self.columns@.len() as int) =~= self.columns@);
        }
    }

    /// The largest fill count over all columns.
    pub fn get_height(&self) -> (h: usize)
        requires
            self.wf(),
            self.width > 0,
        ensures
            forall|k: int| 0 <= k < self.width ==> (#[trigger] self.columns@[k]).height <= h,
            exists|k: int| 0 <= k < self.width && (#[trigger] self.columns@[k]).height == h,
    {
        let mut h: usize = self.columns[0].height;
        let mut c: usize = 1;
        while c < self.columns.len()
            invariant
                self.wf(),
                1 <= c <= self.columns@.len(),
                forall|k: int| 0 <= k < c ==> (#[trigger] self.columns@[k]).height <= h,
                exists|k: int| 0 <= k < c && (#[trigger] self.columns@[k]).height == h,
            decreases self.columns@.len() - c,
        {
            if self.columns[c].height > h {
                h = self.columns[c].height;
            }
            c = c + 1;
        }
        h
    }

    /// Usage statistics of the one cell type the manager stores: how many
    /// columns it occupies, the tallest fill, and the cells handed out.
    pub fn get_stats(&self) -> (stats: CellStats)
        requires
            self.wf(),
            self.width > 0,
            total_height(self.columns@) <= usize::MAX,
        ensures
            stats.columns == self.width,
            stats.num_cells == total_height(self.columns@),
            forall|k: int|
                0 <= k < self.width ==> (#[trigger] self.columns@[k]).height <= stats.height,
            exists|k: int|
                0 <= k < self.width && (#[trigger] self.columns@[k]).height == stats.height,
    {
        let max_h = self.get_height();
        let mut sum: usize = 0;
        let mut c: usize = 0;
        proof {
            assert(self.columns@.skip(0) =~= self.columns@);
        }
        while c < self.columns.len()
            invariant
                self.wf(),
                c <= self.columns@.len(),
                total_height(self.columns@) <= usize::MAX,
                total_height(self.columns@) == sum + total_height(self.columns@.skip(c as int)),
            decreases self.columns@.len() - c,
        {
            proof {
                assert(self.columns@.skip(c as int).first() == self.columns@[c as int]);
                assert(self.columns@.skip(c as int).drop_first() =~= self.columns@.skip(
                    c as int + 1,
                ));
                lemma_total_height_nonneg(self.columns@.skip(c as int + 1));
            }
            sum = sum + self.columns[c].height;
            c = c + 1;
        }
        proof {
            assert(self.columns@.skip(self.columns@.len() as int) =~= Seq::<CellColumn>::empty());
        }
        CellStats { columns: self.width, height: max_h, num_cells: sum }
    }

    /// The per-column bookkeeping.
    pub fn columns(&self) -> (cols: &Vec<CellColumn>)
        ensures
            cols@ == self.columns@,
    {
        &self.columns
    }
}

/// Usage statistics of a cell type.
#[derive(Clone, Copy, Debug, PartialEq, Eq, Structural)]
pub struct CellStats {
    /// How many columns store the type.
    pub columns: usize,
    /// The tallest fill count among them.
    pub height: usize,
    /// The total cells handed out.
    pub num_cells: usize,
}

} // verus!
