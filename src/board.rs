use vstd::prelude::*;

verus! {

/// Most cells a board may hold: a buffer of 16-byte cells within `isize::MAX` bytes on any target.
pub const MAX_CELLS: usize = 0x0800_0000;

/// Bound on how far down a piece cell sits below its position, and on how far up a kick
/// may lift a piece. Any fixed bound would do: it caps the distance a falling piece can
/// drop, so that the search for that distance ends. The standard pieces stay within 3.
pub const MAX_OFFSET: usize = 16;

/// Cell `(x, y)` of a `w`-wide row-major grid lies inside a `w * h` buffer.
proof fn lemma_index_bounds(w: int, h: int, x: int, y: int)
    requires
        0 <= x < w,
        0 <= y < h,
    ensures
        0 <= y * w + x < w * h,
{
    assert(0 <= y * w) by (nonlinear_arith)
        requires
            0 <= y,
            0 <= w,
    ;
    assert(y * w + x < w * h) by (nonlinear_arith)
        requires
            0 <= x < w,
            0 <= y < h,
    ;
}

/// Distinct cells of a `w`-wide grid have distinct buffer indices.
proof fn lemma_index_inj(w: int, x1: int, y1: int, x2: int, y2: int)
    requires
        0 <= x1 < w,
        0 <= x2 < w,
        0 <= y1,
        0 <= y2,
        y1 * w + x1 == y2 * w + x2,
    ensures
        x1 == x2,
        y1 == y2,
{
    if y1 < y2 {
        assert(y2 * w >= y1 * w + w) by (nonlinear_arith)
            requires
                y1 < y2,
                0 <= w,
        ;
    } else if y2 < y1 {
        assert(y1 * w >= y2 * w + w) by (nonlinear_arith)
            requires
                y2 < y1,
                0 <= w,
        ;
    }
}

/// Two boards of one width agree on the occupied count of a row's prefix when they
/// agree on the row's cells.
proof fn lemma_filled_prefix_eq(a: Board, b: Board, y: int, n: int)
    requires
        a.width == b.width,
        a.height == b.height,
        forall|x: int| a.in_bounds(x, y) ==> #[trigger] a.cell(x, y) == b.cell(x, y),
    ensures
        a.filled_prefix(y, n) == b.filled_prefix(y, n),
    decreases n,
{
    if n > 0 {
        lemma_filled_prefix_eq(a, b, y, n - 1);
    }
}

/// The shape data of one piece type.
pub struct PieceData {
    pub name: String,
    /// Width of the spawn orientation, used to centre the piece when it enters.
    pub initial_width: usize,
    /// For each orientation, the offsets of the piece's cells from its position.
    pub orientation: Vec<Vec<(usize, usize)>>,
    /// Kick table: for each current orientation and each rotation, the offsets to try in
    /// order; a positive second component points up.
    pub test_table: Vec<Vec<Vec<(isize, isize)>>>,
}

impl PieceData {
    pub open spec fn cells(self, o: int) -> Seq<(usize, usize)> {
        self.orientation@[o]@
    }

    pub open spec fn kicks(self, o: int, rot: int) -> Seq<(isize, isize)> {
        self.test_table@[o]@[rot]@
    }

    pub open spec fn has_kicks(self, o: int, rot: int) -> bool {
        0 <= o < self.test_table@.len() && 0 <= rot < self.test_table@[o]@.len()
    }

    /// Every orientation has a cell, no cell sits more than `MAX_OFFSET` below the piece's
    /// position, and no kick lifts the piece by more than `MAX_OFFSET`.
    pub open spec fn wf(self) -> bool {
        &&& forall|o: int| 0 <= o < self.orientation@.len() ==> #[trigger] self.cells(o).len() > 0
        &&& forall|o: int, i: int|
            0 <= o < self.orientation@.len() && 0 <= i < self.cells(o).len() ==> #[trigger] self.cells(
                o,
            )[i].1 <= MAX_OFFSET
        &&& forall|o: int, rot: int, k: int|
            self.has_kicks(o, rot) && 0 <= k < self.kicks(o, rot).len() ==> #[trigger] self.kicks(
                o,
                rot,
            )[k].1 <= MAX_OFFSET
    }
}

pub open spec fn fits_isize(v: int) -> bool {
    isize::MIN <= v <= isize::MAX
}

/// The position tried for kick offset `k` after translating `pos` by `tr`.
pub open spec fn kick_candidate(pos: (isize, isize), tr: (isize, isize), k: (isize, isize)) -> (int, int) {
    (pos.0 + tr.0 + k.0, pos.1 + tr.1 - k.1)
}

/// Some cell among the first `n` of orientation `o`, placed at `pos`, lands on `(x, y)`.
pub open spec fn covers(pd: PieceData, pos: (int, int), o: int, x: int, y: int, n: int) -> bool {
    exists|i: int|
        0 <= i < n && #[trigger] pd.cells(o)[i].0 + pos.0 == x && pd.cells(o)[i].1 + pos.1 == y
}

/// A fixed-size grid of cells; `None` is empty, `Some(c)` holds colour `c`.
pub struct Board {
    pub width: usize,
    pub height: usize,
    /// Row-major cells: cell `(x, y)` is at `y * width + x`.
    pub board: Vec<Option<usize>>,
}

impl Board {
    pub open spec fn wf(self) -> bool {
        &&& self.width * self.height <= MAX_CELLS
        &&& self.board@.len() == self.width * self.height
    }

    pub open spec fn in_bounds(self, x: int, y: int) -> bool {
        0 <= x < self.width && 0 <= y < self.height
    }

    pub open spec fn cell(self, x: int, y: int) -> Option<usize> {
        self.board@[y * self.width + x]
    }

    pub open spec fn occupied(self, x: int, y: int) -> bool {
        self.in_bounds(x, y) && self.cell(x, y) is Some
    }

    /// Number of occupied cells among the first `n` of row `y`.
    pub open spec fn filled_prefix(self, y: int, n: int) -> nat
        decreases n,
    {
        if n <= 0 {
            0
        } else {
            self.filled_prefix(y, n - 1) + if self.occupied(n - 1, y) { 1nat } else { 0nat }
        }
    }

    pub open spec fn row_count(self, y: int) -> nat {
        self.filled_prefix(y, self.width as int)
    }

    /// Same dimensions, still well formed.
    pub open spec fn same_shape(self, other: Board) -> bool {
        &&& self.wf()
        &&& self.width == other.width
        &&& self.height == other.height
    }

    pub fn new(width: usize, height: usize) -> (r: Self)
        requires
            width * height <= MAX_CELLS,
        ensures
            r.wf(),
            r.width == width,
            r.height == height,
            forall|x: int, y: int| r.in_bounds(x, y) ==> #[trigger] r.cell(x, y) is None,
    {
        let r = Board { board: vec![None; width * height], width, height };
        proof {
            assert forall|x: int, y: int| r.in_bounds(x, y) implies #[trigger] r.cell(x, y) is None by {
                lemma_index_bounds(width as int, height as int, x, y);
            }
        }
        r
    }

    /// Empties every cell.
    pub fn clear(&mut self)
        requires
            old(self).wf(),
        ensures
            final(self).same_shape(*old(self)),
            forall|x: int, y: int| final(self).in_bounds(x, y) ==> #[trigger] final(self).cell(x, y) is None,
    {
        let n = self.board.len();
        let mut i: usize = 0;
        while i < n
            invariant
                self.same_shape(*old(self)),
                n == self.board@.len(),
                i <= n,
                forall|j: int| 0 <= j < i ==> #[trigger] self.board@[j] is None,
            decreases n - i,
        {
            self.board[i] = None;
            i += 1;
        }
        proof {
            assert forall|x: int, y: int| self.in_bounds(x, y) implies #[trigger] self.cell(x, y) is None by {
                lemma_index_bounds(self.width as int, self.height as int, x, y);
            }
        }
    }

    /// The cell at `(x, y)`, or `None` when the coordinates are off the board.
    pub fn get_cell(&self, x: usize, y: usize) -> (r: Option<&Option<usize>>)
        requires
            self.wf(),
        ensures
            r == (if self.in_bounds(x as int, y as int) {
                Some(&self.cell(x as int, y as int))
            } else {
                None
            }),
    {
        if x >= self.width || y >= self.height {
            return None;
        }
        proof {
            lemma_index_bounds(self.width as int, self.height as int, x as int, y as int);
        }
        Some(&self.board[y * self.width + x])
    }

    /// The cell at `(x, y)` for writing, or `None` when the coordinates are off the board.
    pub fn get_cell_mut(&mut self, x: usize, y: usize) -> (r: Option<&mut Option<usize>>)
        requires
            old(self).wf(),
        ensures
            final(self).width == old(self).width,
            final(self).height == old(self).height,
            r is Some == old(self).in_bounds(x as int, y as int),
            r is None ==> *final(self) == *old(self),
            r matches Some(c) ==> {
                &&& *c == old(self).cell(x as int, y as int)
                &&& final(self).board@ == old(self).board@.update(y * old(self).width + x, *final(c))
            },
    {
        if x >= self.width || y >= self.height {
            return None;
        }
        proof {
            lemma_index_bounds(self.width as int, self.height as int, x as int, y as int);
        }
        Some(&mut self.board[y * self.width + x])
    }

    /// Writes `v` at `(x, y)`; returns false, changing nothing, when the coordinates are off the board.
    pub fn set_cell(&mut self, x: usize, y: usize, v: Option<usize>) -> (r: bool)
        requires
            old(self).wf(),
        ensures
            final(self).same_shape(*old(self)),
            r == old(self).in_bounds(x as int, y as int),
            forall|x2: int, y2: int|
                final(self).in_bounds(x2, y2) ==> #[trigger] final(self).cell(x2, y2) == (if x2 == x
                    && y2 == y {
                    v
                } else {
                    old(self).cell(x2, y2)
                }),
    {
        if x >= self.width || y >= self.height {
            return false;
        }
        proof {
            lemma_index_bounds(self.width as int, self.height as int, x as int, y as int);
        }
        self.board[y * self.width + x] = v;
        proof {
            assert forall|x2: int, y2: int| self.in_bounds(x2, y2) implies #[trigger] self.cell(x2, y2) == (
            if x2 == x && y2 == y {
                v
            } else {
                old(self).cell(x2, y2)
            }) by {
                lemma_index_bounds(self.width as int, self.height as int, x2, y2);
                if y2 * self.width + x2 == y * self.width + x {
                    lemma_index_inj(self.width as int, x2, y2, x as int, y as int);
                }
            }
        }
        true
    }

    /// Number of occupied cells in row `y` (zero for a row off the board).
    pub fn get_row_filled_count(&self, y: usize) -> (r: usize)
        requires
            self.wf(),
        ensures
            r == self.row_count(y as int),
    {
        let mut count: usize = 0;
        let mut x: usize = 0;
        while x < self.width
            invariant
                self.wf(),
                x <= self.width,
                count == self.filled_prefix(y as int, x as int),
                count <= x,
            decreases self.width - x,
        {
            if let Some(cell) = self.get_cell(x, y) {
                if cell.is_some() {
                    count += 1;
                }
            }
            x += 1;
        }
        count
    }

    /// Copies row `src_y` over row `dst_y`.
    pub fn copy_row(&mut self, src_y: usize, dst_y: usize)
        requires
            old(self).wf(),
            src_y < old(self).height,
            dst_y < old(self).height,
        ensures
            final(self).same_shape(*old(self)),
            forall|x: int, y: int|
                final(self).in_bounds(x, y) ==> #[trigger] final(self).cell(x, y) == (if y == dst_y {
                    old(self).cell(x, src_y as int)
                } else {
                    old(self).cell(x, y)
                }),
    {
        let mut x: usize = 0;
        while x < self.width
            invariant
                self.same_shape(*old(self)),
                src_y < self.height,
                dst_y < self.height,
                x <= self.width,
                forall|x2: int, y2: int|
                    self.in_bounds(x2, y2) ==> #[trigger] self.cell(x2, y2) == (if y2 == dst_y && x2
                        < x {
                        old(self).cell(x2, src_y as int)
                    } else {
                        old(self).cell(x2, y2)
                    }),
            decreases self.width - x,
        {
            let v = *self.get_cell(x, src_y).unwrap();
            self.set_cell(x, dst_y, v);
            x += 1;
        }
    }

    /// Empties row `y`; a row off the board is left alone.
    pub fn clear_row(&mut self, y: usize)
        requires
            old(self).wf(),
        ensures
            final(self).same_shape(*old(self)),
            forall|x2: int, y2: int|
                final(self).in_bounds(x2, y2) ==> #[trigger] final(self).cell(x2, y2) == (if y2 == y {
                    None
                } else {
                    old(self).cell(x2, y2)
                }),
    {
        let mut x: usize = 0;
        while x < self.width
            invariant
                self.same_shape(*old(self)),
                x <= self.width,
                forall|x2: int, y2: int|
                    self.in_bounds(x2, y2) ==> #[trigger] self.cell(x2, y2) == (if y2 == y && x2 < x {
                        None
                    } else {
                        old(self).cell(x2, y2)
                    }),
            decreases self.width - x,
        {
            self.set_cell(x, y, None);
            x += 1;
        }
    }

    pub open spec fn is_full(self, y: int) -> bool {
        self.row_count(y) != 0 && self.row_count(y) == self.width
    }

    pub open spec fn is_partial(self, y: int) -> bool {
        self.row_count(y) != 0 && self.row_count(y) != self.width
    }

    /// The rows that compaction keeps among the bottom `n`, bottom first.
    pub open spec fn kept_rows(self, n: int) -> Seq<int>
        decreases n,
    {
        if n <= 0 {
            seq![]
        } else {
            self.kept_rows(n - 1) + if self.is_partial(self.height - n) {
                seq![self.height - n]
            } else {
                seq![]
            }
        }
    }

    /// The number of full rows among the bottom `n`.
    pub open spec fn full_rows(self, n: int) -> nat
        decreases n,
    {
        if n <= 0 {
            0
        } else {
            self.full_rows(n - 1) + if self.is_full(self.height - n) { 1nat } else { 0nat }
        }
    }

    /// `b` is this board after compaction, which reported `r`.
    pub open spec fn compacts_into(self, b: Board, r: (usize, usize)) -> bool {
        &&& b.same_shape(self)
        &&& r.0 == self.full_rows(self.height as int)
        &&& r.1 == self.kept_rows(self.height as int).len()
        &&& forall|x: int, y: int|
            b.in_bounds(x, y) ==> #[trigger] b.cell(x, y) == (if y >= self.height - r.1 {
                self.cell(x, self.kept_rows(self.height as int)[self.height - 1 - y])
            } else {
                None
            })
    }

    /// Compaction keeps exactly the partly filled rows among the bottom `n`, listed from
    /// the bottom up: full rows and empty rows are dropped, and the kept rows stay in order.
    pub proof fn lemma_kept_rows(self, n: int)
        requires
            0 <= n <= self.height,
        ensures
            forall|i: int, j: int|
                0 <= i < j < self.kept_rows(n).len() ==> #[trigger] self.kept_rows(n)[i]
                    > #[trigger] self.kept_rows(n)[j],
            forall|i: int|
                0 <= i < self.kept_rows(n).len() ==> self.height - n <= #[trigger] self.kept_rows(n)[i]
                    < self.height && self.is_partial(self.kept_rows(n)[i]),
            forall|y: int|
                self.height - n <= y < self.height && #[trigger] self.is_partial(y) ==> self.kept_rows(
                    n,
                ).contains(y),
        decreases n,
    {
        if n > 0 {
            self.lemma_kept_rows(n - 1);
            let k = self.kept_rows(n);
            let k0 = self.kept_rows(n - 1);
            let y0 = self.height - n;
            if self.is_partial(y0) {
                assert(k == k0.push(y0));
                assert(k[k.len() - 1] == y0);
                assert forall|y: int| self.height - n <= y < self.height && #[trigger] self.is_partial(y) implies k.contains(y) by {
                    if y == y0 {
                        assert(k[k.len() - 1] == y);
                    } else {
                        let i = choose|i: int| 0 <= i < k0.len() && k0[i] == y;
                        assert(k[i] == y);
                    }
                }
            } else {
                assert(k == k0);
            }
        }
    }

    /// Removes the full rows: scanning from the bottom, each partly filled row moves down to
    /// the next free slot of a cursor that starts at the bottom row; full rows and empty rows
    /// are dropped; every row above the cursor ends empty.
    /// Returns the number of full rows and the number of rows kept.
    pub fn clear_filled_rows(&mut self) -> (r: (usize, usize))
        requires
            old(self).wf(),
        ensures
            old(self).compacts_into(*final(self), r),
    {
        let ghost o = *old(self);
        let h = self.height;
        let mut cleared: usize = 0;
        let mut kept: usize = 0;
        let mut n: usize = 0;
        while n < h
            invariant
                self.same_shape(o),
                h == o.height,
                n <= h,
                kept + cleared <= n,
                kept == o.kept_rows(n as int).len(),
                cleared == o.full_rows(n as int),
                forall|i: int| 0 <= i < kept ==> h - n <= #[trigger] o.kept_rows(n as int)[i] < h,
                forall|x: int, y: int|
                    self.in_bounds(x, y) && y < h - kept ==> #[trigger] self.cell(x, y) == o.cell(x, y),
                forall|x: int, y: int|
                    self.in_bounds(x, y) && y >= h - kept ==> #[trigger] self.cell(x, y) == o.cell(
                        x,
                        o.kept_rows(n as int)[h - 1 - y],
                    ),
            decreases h - n,
        {
            let src = h - 1 - n;
            let filled = self.get_row_filled_count(src);
            proof {
                lemma_filled_prefix_eq(*self, o, src as int, self.width as int);
            }
            if filled != 0 {
                if filled != self.width {
                    let ghost before = *self;
                    self.copy_row(src, h - 1 - kept);
                    kept += 1;
                    proof {
                        assert(o.kept_rows(n + 1) == o.kept_rows(n as int).push(src as int));
                        assert forall|x: int, y: int| self.in_bounds(x, y) && y < h - kept implies #[trigger] self.cell(x, y) == o.cell(x, y) by {
                            assert(before.cell(x, y) == o.cell(x, y));
                        }
                        assert forall|x: int, y: int| self.in_bounds(x, y) && y >= h - kept implies #[trigger] self.cell(x, y) == o.cell(x, o.kept_rows(n + 1)[h - 1 - y]) by {
                            if y == h - kept {
                                assert(before.cell(x, src as int) == o.cell(x, src as int));
                            } else {
                                assert(before.cell(x, y) == o.cell(x, o.kept_rows(n as int)[h - 1 - y]));
                            }
                        }
                    }
                } else {
                    cleared += 1;
                    assert(o.kept_rows(n + 1) == o.kept_rows(n as int));
                }
            } else {
                assert(o.kept_rows(n + 1) == o.kept_rows(n as int));
            }
            n += 1;
        }
        let top = h - kept;
        let mut y: usize = 0;
        while y < top
            invariant
                self.same_shape(o),
                h == o.height,
                top == h - kept,
                y <= top,
                kept == o.kept_rows(h as int).len(),
                forall|x2: int, y2: int|
                    self.in_bounds(x2, y2) && y2 < y ==> #[trigger] self.cell(x2, y2) is None,
                forall|x2: int, y2: int|
                    self.in_bounds(x2, y2) && y2 >= top ==> #[trigger] self.cell(x2, y2) == o.cell(
                        x2,
                        o.kept_rows(h as int)[h - 1 - y2],
                    ),
            decreases top - y,
        {
            self.clear_row(y);
            y += 1;
        }
        (cleared, kept)
    }

    pub open spec fn free(self, x: int, y: int) -> bool {
        self.in_bounds(x, y) && self.cell(x, y) is None
    }

    /// The piece cell at offset `c` from `pos` is on the board and empty.
    pub open spec fn free_at(self, c: (usize, usize), pos: (int, int)) -> bool {
        self.free(c.0 + pos.0, c.1 + pos.1)
    }

    /// Orientation `o` of `pd` placed at `pos` lies on the board and on empty cells only.
    pub open spec fn fits(self, pd: PieceData, pos: (int, int), o: int) -> bool {
        &&& 0 <= o < pd.orientation@.len()
        &&& forall|i: int| 0 <= i < pd.cells(o).len() ==> #[trigger] self.free_at(pd.cells(o)[i], pos)
    }

    pub open spec fn candidate_ok(self, pd: PieceData, c: (int, int), o: int) -> bool {
        fits_isize(c.0) && fits_isize(c.1) && self.fits(pd, c, o)
    }

    /// The first accepted kick candidate from index `k` on.
    pub open spec fn first_kick(
        self,
        pd: PieceData,
        pos: (isize, isize),
        o: int,
        tr: (isize, isize),
        rot: int,
        k: int,
    ) -> Option<((isize, isize), usize)>
        decreases pd.kicks(o, rot).len() - k,
    {
        if k < 0 || k >= pd.kicks(o, rot).len() {
            None
        } else {
            let c = kick_candidate(pos, tr, pd.kicks(o, rot)[k]);
            if self.candidate_ok(pd, c, (o + rot) % 4) {
                Some(((c.0 as isize, c.1 as isize), ((o + rot) % 4) as usize))
            } else {
                self.first_kick(pd, pos, o, tr, rot, k + 1)
            }
        }
    }

    /// Where a translation by `tr` followed by rotation `rot` takes the piece, if anywhere.
    pub open spec fn move_result(
        self,
        pd: PieceData,
        pos: (isize, isize),
        o: int,
        tr: (isize, isize),
        rot: int,
    ) -> Option<((isize, isize), usize)> {
        if pd.has_kicks(o, rot) {
            self.first_kick(pd, pos, o, tr, rot, 0)
        } else {
            None
        }
    }

    /// Whether orientation `orientation` of `piece_data` fits at `position`.
    pub fn test_piece(&self, piece_data: &PieceData, position: (isize, isize), orientation: usize) -> (r: bool)
        requires
            self.wf(),
        ensures
            r == self.fits(*piece_data, (position.0 as int, position.1 as int), orientation as int),
    {
        let (x, y) = position;
        if orientation >= piece_data.orientation.len() {
            return false;
        }
        let cells = &piece_data.orientation[orientation];
        let mut i: usize = 0;
        while i < cells.len()
            invariant
                self.wf(),
                orientation < piece_data.orientation@.len(),
                cells@ == piece_data.cells(orientation as int),
                (x, y) == position,
                i <= cells@.len(),
                forall|j: int|
                    0 <= j < i ==> #[trigger] self.free_at(
                        piece_data.cells(orientation as int)[j],
                        (x as int, y as int),
                    ),
            decreases cells@.len() - i,
        {
            let (cell_dx, cell_dy) = cells[i];
            let ghost c = piece_data.cells(orientation as int)[i as int];
            match (cell_dx.checked_add_signed(x), cell_dy.checked_add_signed(y)) {
                (Some(x2), Some(y2)) => {
                    match self.get_cell(x2, y2) {
                        Some(cell) => {
                            if cell.is_some() {
                                assert(!self.free_at(c, (x as int, y as int)));
                                return false;
                            }
                        },
                        None => {
                            assert(!self.free_at(c, (x as int, y as int)));
                            return false;
                        },
                    }
                },
                _ => {
                    assert(!self.free_at(c, (x as int, y as int)));
                    return false;
                },
            }
            i += 1;
        }
        true
    }

    /// Tries a translation by `translation` then a rotation by `rotation` quarter turns
    /// clockwise: the kick offsets for the current orientation and rotation are tried in
    /// table order and the first placement that fits is returned with its orientation.
    pub fn test_move_piece(
        &self,
        piece_data: &PieceData,
        position: (isize, isize),
        orientation: usize,
        translation: (isize, isize),
        rotation: usize,
    ) -> (r: Option<((isize, isize), usize)>)
        requires
            self.wf(),
        ensures
            r == self.move_result(*piece_data, position, orientation as int, translation, rotation as int),
    {
        if orientation >= piece_data.test_table.len() {
            return None;
        }
        if rotation >= piece_data.test_table[orientation].len() {
            return None;
        }
        let table = &piece_data.test_table[orientation][rotation];
        let new_orientation = (orientation % 4 + rotation % 4) % 4;
        proof {
            vstd::arithmetic::div_mod::lemma_add_mod_noop(orientation as int, rotation as int, 4);
        }
        let ghost o = orientation as int;
        let ghost rot = rotation as int;
        let mut k: usize = 0;
        while k < table.len()
            invariant
                self.wf(),
                piece_data.has_kicks(o, rot),
                o == orientation,
                rot == rotation,
                table@ == piece_data.kicks(o, rot),
                new_orientation == (o + rot) % 4,
                k <= table@.len(),
                self.first_kick(*piece_data, position, o, translation, rot, 0) == self.first_kick(
                    *piece_data,
                    position,
                    o,
                    translation,
                    rot,
                    k as int,
                ),
            decreases table@.len() - k,
        {
            let (test_dx, test_dy) = table[k];
            let nx: i128 = position.0 as i128 + translation.0 as i128 + test_dx as i128;
            let ny: i128 = position.1 as i128 + translation.1 as i128 - test_dy as i128;
            if nx >= isize::MIN as i128 && nx <= isize::MAX as i128 && ny >= isize::MIN as i128 && ny
                <= isize::MAX as i128 {
                let new_position = (nx as isize, ny as isize);
                assert(kick_candidate(position, translation, piece_data.kicks(o, rot)[k as int]) == (
                nx as int, ny as int));
                if self.test_piece(piece_data, new_position, new_orientation) {
                    assert(self.first_kick(*piece_data, position, o, translation, rot, k as int) == Some(
                    (new_position, new_orientation)));
                    return Some((new_position, new_orientation));
                }
            }
            k += 1;
        }
        None
    }

    /// Writes `color_id` into every cell of the placed piece that lies on the board; cells
    /// off the board are skipped.
    pub fn lock_piece(
        &mut self,
        piece_data: &PieceData,
        position: (isize, isize),
        orientation: usize,
        color_id: usize,
    )
        requires
            old(self).wf(),
        ensures
            final(self).same_shape(*old(self)),
            forall|x: int, y: int|
                final(self).in_bounds(x, y) ==> #[trigger] final(self).cell(x, y) == (if orientation
                    < piece_data.orientation@.len() && covers(
                    *piece_data,
                    (position.0 as int, position.1 as int),
                    orientation as int,
                    x,
                    y,
                    piece_data.cells(orientation as int).len() as int,
                ) {
                    Some(color_id)
                } else {
                    old(self).cell(x, y)
                }),
    {
        if orientation >= piece_data.orientation.len() {
            return;
        }
        let ghost pos = (position.0 as int, position.1 as int);
        let ghost o = orientation as int;
        let (x, y) = position;
        let cells = &piece_data.orientation[orientation];
        let mut i: usize = 0;
        while i < cells.len()
            invariant
                self.same_shape(*old(self)),
                orientation < piece_data.orientation@.len(),
                cells@ == piece_data.cells(o),
                pos == (x as int, y as int),
                i <= cells@.len(),
                forall|x2: int, y2: int|
                    self.in_bounds(x2, y2) ==> #[trigger] self.cell(x2, y2) == (if covers(
                        *piece_data,
                        pos,
                        o,
                        x2,
                        y2,
                        i as int,
                    ) {
                        Some(color_id)
                    } else {
                        old(self).cell(x2, y2)
                    }),
            decreases cells@.len() - i,
        {
            let ghost before = *self;
            let (cell_dx, cell_dy) = cells[i];
            match (cell_dx.checked_add_signed(x), cell_dy.checked_add_signed(y)) {
                (Some(x2), Some(y2)) => {
                    self.set_cell(x2, y2, Some(color_id));
                },
                _ => {},
            }
            proof {
                assert forall|x2: int, y2: int| self.in_bounds(x2, y2) implies #[trigger] self.cell(x2, y2) == (
                if covers(*piece_data, pos, o, x2, y2, i + 1) {
                    Some(color_id)
                } else {
                    old(self).cell(x2, y2)
                }) by {
                    let hit = piece_data.cells(o)[i as int].0 + pos.0 == x2
                        && piece_data.cells(o)[i as int].1 + pos.1 == y2;
                    if hit {
                        assert(covers(*piece_data, pos, o, x2, y2, i + 1));
                    } else if covers(*piece_data, pos, o, x2, y2, i + 1) {
                        let j = choose|j: int|
                            0 <= j < i + 1 && #[trigger] piece_data.cells(o)[j].0 + pos.0 == x2
                                && piece_data.cells(o)[j].1 + pos.1 == y2;
                        assert(covers(*piece_data, pos, o, x2, y2, i as int));
                    } else {
                        assert(!covers(*piece_data, pos, o, x2, y2, i as int));
                    }
                    assert(before.cell(x2, y2) == (if covers(*piece_data, pos, o, x2, y2, i as int) {
                        Some(color_id)
                    } else {
                        old(self).cell(x2, y2)
                    }));
                }
            }
            i += 1;
        }
    }

    /// Kick candidate `k` is accepted.
    pub open spec fn kick_accepted(
        self,
        pd: PieceData,
        pos: (isize, isize),
        o: int,
        tr: (isize, isize),
        rot: int,
        k: int,
    ) -> bool {
        self.candidate_ok(pd, kick_candidate(pos, tr, pd.kicks(o, rot)[k]), (o + rot) % 4)
    }

    proof fn lemma_first_kick_from(
        self,
        pd: PieceData,
        pos: (isize, isize),
        o: int,
        tr: (isize, isize),
        rot: int,
        k: int,
    )
        requires
            0 <= k <= pd.kicks(o, rot).len(),
        ensures
            match self.first_kick(pd, pos, o, tr, rot, k) {
                Some(res) => exists|j: int|
                    k <= j < pd.kicks(o, rot).len() && #[trigger] self.kick_accepted(pd, pos, o, tr, rot, j)
                        && (forall|i: int| k <= i < j ==> !self.kick_accepted(pd, pos, o, tr, rot, i))
                        && (res.0.0 as int, res.0.1 as int) == kick_candidate(pos, tr, pd.kicks(o, rot)[j]) && res.1 == (o + rot)
                        % 4,
                None => forall|j: int|
                    k <= j < pd.kicks(o, rot).len() ==> !#[trigger] self.kick_accepted(pd, pos, o, tr, rot, j),
            },
        decreases pd.kicks(o, rot).len() - k,
    {
        if k < pd.kicks(o, rot).len() {
            self.lemma_first_kick_from(pd, pos, o, tr, rot, k + 1);
            if self.kick_accepted(pd, pos, o, tr, rot, k) {
                assert(self.kick_accepted(pd, pos, o, tr, rot, k));
            } else {
                match self.first_kick(pd, pos, o, tr, rot, k + 1) {
                    Some(res) => {
                        let j = choose|j: int|
                            k + 1 <= j < pd.kicks(o, rot).len() && #[trigger] self.kick_accepted(pd, pos, o, tr, rot, j)
                                && (forall|i: int| k + 1 <= i < j ==> !self.kick_accepted(pd, pos, o, tr, rot, i))
                                && (res.0.0 as int, res.0.1 as int) == kick_candidate(pos, tr, pd.kicks(o, rot)[j]) && res.1 == (o + rot)
                                % 4;
                        assert(forall|i: int| k <= i < j ==> !self.kick_accepted(pd, pos, o, tr, rot, i));
                    },
                    None => {},
                }
            }
        }
    }

    /// Kick resolution returns the first candidate in table order that fits: every earlier
    /// candidate is rejected, and when nothing is returned every candidate is rejected.
    pub proof fn lemma_first_kick(
        self,
        pd: PieceData,
        pos: (isize, isize),
        o: int,
        tr: (isize, isize),
        rot: int,
    )
        requires
            pd.has_kicks(o, rot),
        ensures
            match self.move_result(pd, pos, o, tr, rot) {
                Some(res) => exists|j: int|
                    0 <= j < pd.kicks(o, rot).len() && #[trigger] self.kick_accepted(pd, pos, o, tr, rot, j)
                        && (forall|i: int| 0 <= i < j ==> !self.kick_accepted(pd, pos, o, tr, rot, i))
                        && (res.0.0 as int, res.0.1 as int) == kick_candidate(pos, tr, pd.kicks(o, rot)[j]) && res.1 == (o + rot)
                        % 4,
                None => forall|j: int|
                    0 <= j < pd.kicks(o, rot).len() ==> !#[trigger] self.kick_accepted(pd, pos, o, tr, rot, j),
            },
    {
        self.lemma_first_kick_from(pd, pos, o, tr, rot, 0);
    }
}

} // verus!

verus! {

/// The falling piece: its type (an index into the piece table), position and orientation.
pub struct Piece {
    pub typ: usize,
    pub position: (isize, isize),
    pub orientation: usize,
}

/// A board together with the piece table and the piece currently falling, if any.
pub struct ExtendedBoard {
    pub piece_data: Vec<PieceData>,
    pub board: Board,
    pub current_piece: Option<Piece>,
    /// Row at which new pieces enter.
    pub start_y: isize,
}

impl ExtendedBoard {
    /// The piece table is well formed and fits the board's width, and the falling piece
    /// has a valid type and orientation and fits where it stands.
    pub open spec fn wf(self) -> bool {
        &&& self.board.wf()
        &&& forall|t: int| 0 <= t < self.piece_data@.len() ==> (#[trigger] self.piece_data@[t]).wf()
        &&& forall|t: int|
            0 <= t < self.piece_data@.len() ==> (#[trigger] self.piece_data@[t]).initial_width
                <= self.board.width
        &&& match self.current_piece {
            Some(p) => {
                &&& p.typ < self.piece_data@.len()
                &&& p.orientation < 4
                &&& self.board.fits(
                    self.piece_data@[p.typ as int],
                    (p.position.0 as int, p.position.1 as int),
                    p.orientation as int,
                )
            },
            None => true,
        }
    }

    /// Column at which a piece of type `t` enters: centred by its initial width.
    pub open spec fn spawn_x(self, t: int) -> int {
        (self.board.width - self.piece_data@[t].initial_width) / 2
    }

    /// Where moving the falling piece by `tr` and rotating it by `rot` would take it.
    pub open spec fn move_target(self, tr: (isize, isize), rot: int) -> Option<((isize, isize), usize)> {
        match self.current_piece {
            Some(p) => self.board.move_result(
                self.piece_data@[p.typ as int],
                p.position,
                p.orientation as int,
                tr,
                rot,
            ),
            None => None,
        }
    }

    /// The falling piece after a move by `tr` and `rot`: moved where the move succeeds,
    /// else as it was.
    pub open spec fn piece_after_move(self, tr: (isize, isize), rot: int) -> Option<Piece> {
        match (self.current_piece, self.move_target(tr, rot)) {
            (Some(p), Some(t)) => Some(Piece { typ: p.typ, position: t.0, orientation: t.1 }),
            _ => self.current_piece,
        }
    }

    /// The falling piece can move `d` rows down.
    pub open spec fn can_drop(self, d: int) -> bool {
        fits_isize(d) && self.move_target((0, d as isize), 0) is Some
    }

    /// `d` is the fast-drop distance: every drop of 1 to `d` rows succeeds and `d + 1` fails.
    pub open spec fn lands_at(self, d: int) -> bool {
        &&& d >= 0
        &&& forall|j: int| 1 <= j <= d ==> #[trigger] self.can_drop(j)
        &&& !self.can_drop(d + 1)
    }

    /// Only the falling piece may differ.
    pub open spec fn same_but_piece(self, other: ExtendedBoard) -> bool {
        &&& self.board == other.board
        &&& self.piece_data == other.piece_data
        &&& self.start_y == other.start_y
    }

    pub fn new(width: usize, height: usize, piece_data: Vec<PieceData>, start_y: isize) -> (r: Self)
        requires
            width * height <= MAX_CELLS,
            forall|t: int| 0 <= t < piece_data@.len() ==> (#[trigger] piece_data@[t]).wf(),
            forall|t: int| 0 <= t < piece_data@.len() ==> (#[trigger] piece_data@[t]).initial_width <= width,
        ensures
            r.wf(),
            r.board.width == width,
            r.board.height == height,
            r.piece_data == piece_data,
            r.start_y == start_y,
            r.current_piece is None,
            forall|x: int, y: int| r.board.in_bounds(x, y) ==> #[trigger] r.board.cell(x, y) is None,
    {
        ExtendedBoard { piece_data, board: Board::new(width, height), current_piece: None, start_y }
    }

    /// Empties the board and drops the falling piece.
    pub fn reset(&mut self)
        requires
            old(self).wf(),
        ensures
            final(self).wf(),
            final(self).board.same_shape(old(self).board),
            final(self).piece_data == old(self).piece_data,
            final(self).start_y == old(self).start_y,
            final(self).current_piece is None,
            forall|x: int, y: int|
                final(self).board.in_bounds(x, y) ==> #[trigger] final(self).board.cell(x, y) is None,
    {
        self.board.clear();
        self.current_piece = None;
    }

    /// Places a piece of type `typ` at `position` in its spawn orientation, if it fits there.
    pub fn add_piece(&mut self, typ: usize, position: (isize, isize)) -> (r: bool)
        requires
            old(self).wf(),
        ensures
            final(self).wf(),
            final(self).same_but_piece(*old(self)),
            r == (typ < old(self).piece_data@.len() && old(self).board.fits(
                old(self).piece_data@[typ as int],
                (position.0 as int, position.1 as int),
                0,
            )),
            final(self).current_piece == (if r {
                Some(Piece { typ, position, orientation: 0 })
            } else {
                old(self).current_piece
            }),
    {
        if typ < self.piece_data.len() {
            if self.board.test_piece(&self.piece_data[typ], position, 0) {
                self.current_piece = Some(Piece { typ, position, orientation: 0 });
                return true;
            }
        }
        false
    }

    /// Places a piece of type `typ` centred by its initial width on the start row, if it fits.
    pub fn add_piece_default_position(&mut self, typ: usize) -> (r: bool)
        requires
            old(self).wf(),
        ensures
            final(self).wf(),
            final(self).same_but_piece(*old(self)),
            r == (typ < old(self).piece_data@.len() && old(self).board.fits(
                old(self).piece_data@[typ as int],
                (old(self).spawn_x(typ as int), old(self).start_y as int),
                0,
            )),
            final(self).current_piece == (if r {
                Some(
                    Piece {
                        typ,
                        position: (old(self).spawn_x(typ as int) as isize, old(self).start_y),
                        orientation: 0,
                    },
                )
            } else {
                old(self).current_piece
            }),
    {
        if typ < self.piece_data.len() {
            let start_x = (self.board.width - self.piece_data[typ].initial_width) / 2;
            self.add_piece(typ, (start_x as isize, self.start_y))
        } else {
            false
        }
    }

    /// Moves the falling piece by `translation` and then rotates it by `rotation` quarter
    /// turns clockwise, kick-tested; returns whether it moved. Nothing changes when it does not.
    pub fn move_piece(&mut self, translation: (isize, isize), rotation: usize) -> (r: bool)
        requires
            old(self).wf(),
        ensures
            final(self).wf(),
            final(self).same_but_piece(*old(self)),
            r == old(self).move_target(translation, rotation as int) is Some,
            final(self).current_piece == old(self).piece_after_move(translation, rotation as int),
    {
        if let Some(p) = &self.current_piece {
            let typ = p.typ;
            let position = p.position;
            let orientation = p.orientation;
            let res = self.board.test_move_piece(&self.piece_data[typ], position, orientation, translation, rotation);
            if let Some((new_position, new_orientation)) = res {
                proof {
                    let pd = self.piece_data@[typ as int];
                    self.board.lemma_first_kick(pd, position, orientation as int, translation, rotation as int);
                }
                self.current_piece = Some(Piece { typ, position: new_position, orientation: new_orientation });
                return true;
            }
        }
        false
    }

    /// How many rows the falling piece can drop; zero without a falling piece.
    pub fn test_fast_drop(&self) -> (r: isize)
        requires
            self.wf(),
        ensures
            self.lands_at(r as int),
    {
        let mut dy: isize = 0;
        if let Some(p) = &self.current_piece {
            let pd = &self.piece_data[p.typ];
            let ghost o = p.orientation as int;
            let ghost c0 = pd.cells(o)[0];
            let ghost bound = self.board.height + MAX_OFFSET;
            proof {
                assert(pd.cells(o).len() > 0);
                assert(self.board.free_at(c0, (p.position.0 as int, p.position.1 as int)));
                assert(self.board.height <= MAX_CELLS) by {
                    assert(self.board.width * self.board.height >= self.board.height) by (nonlinear_arith)
                        requires
                            self.board.width >= 1,
                    ;
                }
            }
            loop
                invariant
                    self.wf(),
                    self.current_piece == Some(*p),
                    *pd == self.piece_data@[p.typ as int],
                    o == p.orientation,
                    c0 == pd.cells(o)[0],
                    p.position.1 + c0.1 >= 0,
                    bound == self.board.height + MAX_OFFSET,
                    bound <= MAX_CELLS + MAX_OFFSET,
                    0 <= dy < bound,
                    forall|j: int| 1 <= j <= dy ==> #[trigger] self.can_drop(j),
                ensures
                    0 <= dy,
                    forall|j: int| 1 <= j <= dy ==> #[trigger] self.can_drop(j),
                    !self.can_drop(dy + 1),
                decreases bound - dy,
            {
                let t = self.board.test_move_piece(pd, p.position, p.orientation, (0, dy + 1), 0);
                if t.is_none() {
                    break;
                }
                proof {
                    let tr = (0isize, (dy + 1) as isize);
                    self.board.lemma_first_kick(*pd, p.position, o, tr, 0);
                    let j = choose|j: int|
                        0 <= j < pd.kicks(o, 0).len() && #[trigger] self.board.kick_accepted(*pd, p.position, o, tr, 0, j)
                            && (forall|i: int| 0 <= i < j ==> !self.board.kick_accepted(*pd, p.position, o, tr, 0, i))
                            && (t.unwrap().0.0 as int, t.unwrap().0.1 as int) == kick_candidate(p.position, tr, pd.kicks(o, 0)[j])
                            && t.unwrap().1 == (o + 0) % 4;
                    let cand = kick_candidate(p.position, tr, pd.kicks(o, 0)[j]);
                    assert(pd.kicks(o, 0)[j].1 <= MAX_OFFSET);
                    assert(self.board.free_at(c0, cand));
                }
                dy += 1;
            }
        }
        dy
    }

    /// Drops the falling piece as far as it goes, without locking it.
    pub fn fast_drop(&mut self)
        requires
            old(self).wf(),
        ensures
            final(self).wf(),
            final(self).same_but_piece(*old(self)),
            forall|d: int|
                #[trigger] old(self).lands_at(d) ==> final(self).current_piece == (if d > 0 {
                    old(self).piece_after_move((0, d as isize), 0)
                } else {
                    old(self).current_piece
                }),
    {
        let dy = self.test_fast_drop();
        proof {
            assert forall|d: int| #[trigger] self.lands_at(d) implies d == dy by {
                if d < dy {
                    assert(self.can_drop(d + 1));
                } else if d > dy {
                    assert(self.can_drop(dy + 1));
                }
            }
        }
        if dy > 0 {
            self.move_piece((0, dy), 0);
        }
    }

    /// Whether a piece is falling and cannot move down.
    pub fn is_land(&self) -> (r: bool)
        requires
            self.wf(),
        ensures
            r == (self.current_piece is Some && !self.can_drop(1)),
    {
        if self.current_piece.is_some() {
            let d = self.test_fast_drop();
            proof {
                if d > 0 {
                    assert(self.can_drop(1));
                }
            }
            d == 0
        } else {
            false
        }
    }

    /// `b` is this board's grid with the falling piece written in, coloured by its type.
    pub open spec fn locks_into(self, b: Board) -> bool {
        &&& b.same_shape(self.board)
        &&& match self.current_piece {
            Some(p) => forall|x: int, y: int|
                b.in_bounds(x, y) ==> #[trigger] b.cell(x, y) == (if covers(
                    self.piece_data@[p.typ as int],
                    (p.position.0 as int, p.position.1 as int),
                    p.orientation as int,
                    x,
                    y,
                    self.piece_data@[p.typ as int].cells(p.orientation as int).len() as int,
                ) {
                    Some(p.typ)
                } else {
                    self.board.cell(x, y)
                }),
            None => b == self.board,
        }
    }

    /// Writes the falling piece into the board, coloured by its type, and removes it.
    pub fn lock_piece(&mut self)
        requires
            old(self).wf(),
        ensures
            final(self).wf(),
            final(self).piece_data == old(self).piece_data,
            final(self).start_y == old(self).start_y,
            final(self).current_piece is None,
            old(self).locks_into(final(self).board),
    {
        if let Some(p) = &self.current_piece {
            self.board.lock_piece(&self.piece_data[p.typ], p.position, p.orientation, p.typ);
        }
        self.current_piece = None;
    }
}

} // verus!
