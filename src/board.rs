use vstd::prelude::*;

verus! {

/// The mathematical model of a board: a row-major grid of owner identifiers.
pub struct BoardModel {
    pub width: int,
    pub height: int,
    pub cells: Seq<usize>,
}

impl BoardModel {
    pub open spec fn valid(self) -> bool {
        &&& self.width > 0
        &&& self.height > 0
        &&& self.cells.len() == self.width * self.height
    }

    pub open spec fn in_range(self, x: int, y: int) -> bool {
        0 <= x < self.width && 0 <= y < self.height
    }

    pub open spec fn index(self, x: int, y: int) -> int {
        y * self.width + x
    }

    pub open spec fn owner(self, x: int, y: int) -> usize {
        self.cells[self.index(x, y)]
    }

    pub open spec fn with_owner(self, x: int, y: int, agent: usize) -> BoardModel {
        BoardModel { cells: self.cells.update(self.index(x, y), agent), ..self }
    }

    /// Every cell left of the middle column is owned by `left`, every other by `right`.
    pub open spec fn partitioned(self, left: usize, right: usize) -> bool {
        forall|x: int, y: int|
            #![trigger self.owner(x, y)]
            self.in_range(x, y) ==> self.owner(x, y) == (if x < self.width / 2 {
                left
            } else {
                right
            })
    }

    /// A cell that lies on the board and belongs to someone other than `agent`.
    pub open spec fn claimable(self, x: int, y: int, agent: usize) -> bool {
        self.in_range(x, y) && self.owner(x, y) != agent
    }

    /// The first claimable cell of the half-open box `[bx, tx) x [by, ty)`, scanning
    /// columns left to right and, within a column, rows top to bottom.
    pub open spec fn is_first_claimable(
        self,
        bx: int,
        by: int,
        tx: int,
        ty: int,
        agent: usize,
        x: int,
        y: int,
    ) -> bool {
        &&& bx <= x < tx
        &&& by <= y < ty
        &&& self.claimable(x, y, agent)
        &&& forall|x2: int, y2: int|
            #![trigger self.claimable(x2, y2, agent)]
            bx <= x2 < tx && by <= y2 < ty && scans_before(x2, y2, x, y) ==> !self.claimable(
                x2,
                y2,
                agent,
            )
    }

    pub open spec fn first_claimable(
        self,
        bx: int,
        by: int,
        tx: int,
        ty: int,
        agent: usize,
    ) -> Option<(int, int)> {
        if exists|p: (int, int)| self.is_first_claimable(bx, by, tx, ty, agent, p.0, p.1) {
            Some(choose|p: (int, int)| self.is_first_claimable(bx, by, tx, ty, agent, p.0, p.1))
        } else {
            None
        }
    }

    /// The board after the capture resolver ran on the box for `agent`.
    pub open spec fn after_claim(
        self,
        bx: int,
        by: int,
        tx: int,
        ty: int,
        agent: usize,
    ) -> BoardModel {
        match self.first_claimable(bx, by, tx, ty, agent) {
            Some(p) => self.with_owner(p.0, p.1, agent),
            None => self,
        }
    }
}

/// The scan order of the capture resolver: column by column, then row by row.
pub open spec fn scans_before(x1: int, y1: int, x2: int, y2: int) -> bool {
    x1 < x2 || (x1 == x2 && y1 < y2)
}

/// Index of an in-range cell lies inside the flat cell sequence.
pub proof fn lemma_index_in_bounds(m: BoardModel, x: int, y: int)
    requires
        m.valid(),
        m.in_range(x, y),
    ensures
        0 <= m.index(x, y) < m.cells.len(),
{
    assert(0 <= y * m.width + x < m.width * m.height) by (nonlinear_arith)
        requires
            0 <= x < m.width,
            0 <= y < m.height,
    ;
}

/// At most one cell satisfies the "first claimable" description.
pub proof fn lemma_first_claimable_unique(
    m: BoardModel,
    bx: int,
    by: int,
    tx: int,
    ty: int,
    agent: usize,
    x: int,
    y: int,
)
    requires
        m.is_first_claimable(bx, by, tx, ty, agent, x, y),
    ensures
        m.first_claimable(bx, by, tx, ty, agent) == Some((x, y)),
{
    let p = choose|p: (int, int)| m.is_first_claimable(bx, by, tx, ty, agent, p.0, p.1);
    assert(m.is_first_claimable(bx, by, tx, ty, agent, (x, y).0, (x, y).1));
    assert(m.is_first_claimable(bx, by, tx, ty, agent, p.0, p.1));
    if scans_before(p.0, p.1, x, y) {
        assert(!m.claimable(p.0, p.1, agent));
    } else if scans_before(x, y, p.0, p.1) {
        assert(!m.claimable(x, y, agent));
    }
}

/// A box without a claimable cell has no first claimable cell.
pub proof fn lemma_nothing_claimable(
    m: BoardModel,
    bx: int,
    by: int,
    tx: int,
    ty: int,
    agent: usize,
)
    requires
        forall|x: int, y: int|
            bx <= x < tx && by <= y < ty ==> !#[trigger] m.claimable(x, y, agent),
    ensures
        m.first_claimable(bx, by, tx, ty, agent) is None,
{
    assert(!exists|p: (int, int)| m.is_first_claimable(bx, by, tx, ty, agent, p.0, p.1));
}

proof fn lemma_first_from(
    m: BoardModel,
    bx: int,
    by: int,
    tx: int,
    ty: int,
    agent: usize,
    x: int,
    y: int,
)
    requires
        bx <= x < tx,
        by <= y < ty,
        m.claimable(x, y, agent),
    ensures
        m.first_claimable(bx, by, tx, ty, agent) is Some,
    decreases x - bx, y - by,
{
    if exists|x2: int, y2: int|
        bx <= x2 < x && by <= y2 < ty && #[trigger] m.claimable(x2, y2, agent) {
        let (x2, y2) = choose|x2: int, y2: int|
            bx <= x2 < x && by <= y2 < ty && #[trigger] m.claimable(x2, y2, agent);
        lemma_first_from(m, bx, by, tx, ty, agent, x2, y2);
    } else if exists|y2: int| by <= y2 < y && #[trigger] m.claimable(x, y2, agent) {
        let y2 = choose|y2: int| by <= y2 < y && #[trigger] m.claimable(x, y2, agent);
        lemma_first_from(m, bx, by, tx, ty, agent, x, y2);
    } else {
        assert forall|x2: int, y2: int|
            bx <= x2 < tx && by <= y2 < ty && scans_before(x2, y2, x, y) implies !#[trigger] m.claimable(
            x2,
            y2,
            agent,
        ) by {
            if x2 == x {
                assert(by <= y2 < y);
            }
        }
        lemma_first_claimable_unique(m, bx, by, tx, ty, agent, x, y);
    }
}

/// The scan finds a cell exactly when the box holds a cell on the board that belongs
/// to someone other than `agent`.
pub proof fn lemma_first_claimable_iff_any(
    m: BoardModel,
    bx: int,
    by: int,
    tx: int,
    ty: int,
    agent: usize,
)
    ensures
        m.first_claimable(bx, by, tx, ty, agent) is Some <==> exists|x: int, y: int|
            bx <= x < tx && by <= y < ty && #[trigger] m.claimable(x, y, agent),
{
    if exists|x: int, y: int| bx <= x < tx && by <= y < ty && #[trigger] m.claimable(x, y, agent) {
        let (x, y) = choose|x: int, y: int|
            bx <= x < tx && by <= y < ty && #[trigger] m.claimable(x, y, agent);
        lemma_first_from(m, bx, by, tx, ty, agent, x, y);
    } else {
        lemma_nothing_claimable(m, bx, by, tx, ty, agent);
    }
}

/// An ownership grid of fixed size, stored row by row.
pub struct Board {
    width: usize,
    height: usize,
    cells: Vec<usize>,
}

impl View for Board {
    type V = BoardModel;

    closed spec fn view(&self) -> BoardModel {
        BoardModel { width: self.width as int, height: self.height as int, cells: self.cells@ }
    }
}

impl Board {
    /// A board whose left half (columns below `width / 2`) belongs to `left_owner`
    /// and whose right half belongs to `right_owner`.
    pub fn new(width: usize, height: usize, left_owner: usize, right_owner: usize) -> (r: Board)
        requires
            width > 0,
            height > 0,
            width * height <= usize::MAX,
        ensures
            r@.valid(),
            r@.width == width,
            r@.height == height,
            r@.partitioned(left_owner, right_owner),
    {
        let mut cells: Vec<usize> = Vec::new();
        let half: usize = width / 2;
        let mut y: usize = 0;
        while y < height
            invariant
                0 <= y <= height,
                half == width / 2,
                width * height <= usize::MAX,
                cells@.len() == y * width,
                forall|k: int|
                    0 <= k < cells@.len() ==> cells@[k] == (if k % (width as int) < half {
                        left_owner
                    } else {
                        right_owner
                    }),
            decreases height - y,
        {
            let mut x: usize = 0;
            while x < width
                invariant
                    0 <= x <= width,
                    0 <= y < height,
                    half == width / 2,
                    width * height <= usize::MAX,
                    cells@.len() == y * width + x,
                    forall|k: int|
                        0 <= k < cells@.len() ==> cells@[k] == (if k % (width as int) < half {
                            left_owner
                        } else {
                            right_owner
                        }),
                decreases width - x,
            {
                proof {
                    let w = width as int;
                    let yy = y as int;
                    let xx = x as int;
                    assert((yy * w + xx) % w == xx) by (nonlinear_arith)
                        requires
                            0 <= xx < w,
                            0 <= yy,
                    ;
                }
                if x < half {
                    cells.push(left_owner);
                } else {
                    cells.push(right_owner);
                }
                x = x + 1;
            }
            proof {
                assert(y * width + width == (y + 1) * width) by (nonlinear_arith);
            }
            y = y + 1;
        }
        proof {
            assert(cells@.len() == width * height) by (nonlinear_arith)
                requires
                    cells@.len() == y * width,
                    y == height,
            ;
        }
        let r = Board { width, height, cells };
        proof {
            assert forall|x: int, y: int| #[trigger] r@.in_range(x, y) implies r@.owner(x, y) == (
            if x < r@.width / 2 {
                left_owner
            } else {
                right_owner
            }) by {
                lemma_index_in_bounds(r@, x, y);
                let w = width as int;
                assert((y * w + x) % w == x) by (nonlinear_arith)
                    requires
                        0 <= x < w,
                        0 <= y,
                ;
            }
        }
        r
    }

    pub fn width(&self) -> (r: usize)
        ensures
            r == self@.width,
    {
        self.width
    }

    pub fn height(&self) -> (r: usize)
        ensures
            r == self@.height,
    {
        self.height
    }

    /// The owner of cell `(x, y)`; the cell must lie on the board.
    pub fn owner_at(&self, x: usize, y: usize) -> (r: usize)
        requires
            self@.valid(),
            self@.in_range(x as int, y as int),
        ensures
            r == self@.owner(x as int, y as int),
    {
        proof {
            lemma_index_in_bounds(self@, x as int, y as int);
            assert(0 <= y * self.width <= y * self.width + x) by (nonlinear_arith)
                requires
                    0 <= x,
                    0 <= y,
                    0 <= self.width,
            ;
        }
        let len = self.cells.len();
        proof {
            assert(y * self.width + x < len);
        }
        self.cells[y * self.width + x]
    }

    /// Hands cell `(x, y)` to `agent`; the cell must lie on the board.
    pub fn set_owner(&mut self, x: usize, y: usize, agent: usize)
        requires
            old(self)@.valid(),
            old(self)@.in_range(x as int, y as int),
        ensures
            final(self)@ == old(self)@.with_owner(x as int, y as int, agent),
            final(self)@.valid(),
    {
        proof {
            lemma_index_in_bounds(self@, x as int, y as int);
            assert(0 <= y * self.width <= y * self.width + x) by (nonlinear_arith)
                requires
                    0 <= x,
                    0 <= y,
                    0 <= self.width,
            ;
        }
        let len = self.cells.len();
        proof {
            assert(y * self.width + x < len);
        }
        let idx = y * self.width + x;
        self.cells.set(idx, agent);
    }

    /// Scans the cells of the half-open box `[bx, tx) x [by, ty)`, columns outer and
    /// rows inner, skipping cells off the board, and hands the first cell not owned by
    /// `agent` to `agent`. Returns that cell, or `None` (board untouched) if every
    /// cell of the box that lies on the board is already owned by `agent`.
    pub fn claim_first_in(&mut self, bx: i64, by: i64, tx: i64, ty: i64, agent: usize) -> (r:
        Option<(usize, usize)>)
        requires
            old(self)@.valid(),
        ensures
            final(self)@.valid(),
            final(self)@ == old(self)@.after_claim(
                bx as int,
                by as int,
                tx as int,
                ty as int,
                agent,
            ),
            r is Some <==> old(self)@.first_claimable(
                bx as int,
                by as int,
                tx as int,
                ty as int,
                agent,
            ) is Some,
            r matches Some(c) ==> old(self)@.first_claimable(
                bx as int,
                by as int,
                tx as int,
                ty as int,
                agent,
            ) == Some((c.0 as int, c.1 as int)),
    {
        let ghost m = self@;
        let ghost (bxi, byi, txi, tyi) = (bx as int, by as int, tx as int, ty as int);
        let w = self.width as i128;
        let h = self.height as i128;
        let x0: i128 = if bx < 0 { 0 } else { bx as i128 };
        let x1: i128 = if (tx as i128) < w { tx as i128 } else { w };
        let y0: i128 = if by < 0 { 0 } else { by as i128 };
        let y1: i128 = if (ty as i128) < h { ty as i128 } else { h };
        if x0 >= x1 || y0 >= y1 {
            proof {
                assert forall|x: int, y: int|
                    bxi <= x < txi && byi <= y < tyi implies !#[trigger] m.claimable(x, y, agent) by {}
                lemma_nothing_claimable(m, bxi, byi, txi, tyi, agent);
            }
            return None;
        }
        let xs = x0 as usize;
        let xe = x1 as usize;
        let ys = y0 as usize;
        let ye = y1 as usize;
        let mut x: usize = xs;
        while x < xe
            invariant
                self@ == m,
                old(self)@ == m,
                m.valid(),
                (bxi, byi, txi, tyi) == (bx as int, by as int, tx as int, ty as int),
                xs <= x <= xe,
                ys < ye,
                xs == (if bxi < 0 { 0 } else { bxi }),
                xe == (if txi < m.width { txi } else { m.width }),
                ys == (if byi < 0 { 0 } else { byi }),
                ye == (if tyi < m.height { tyi } else { m.height }),
                forall|x2: int, y2: int|
                    bxi <= x2 < x && byi <= y2 < tyi ==> !#[trigger] m.claimable(x2, y2, agent),
            decreases xe - x,
        {
            let mut y: usize = ys;
            while y < ye
                invariant
                    self@ == m,
                    old(self)@ == m,
                    m.valid(),
                    (bxi, byi, txi, tyi) == (bx as int, by as int, tx as int, ty as int),
                    xs <= x < xe,
                    ys <= y <= ye,
                    xs == (if bxi < 0 { 0 } else { bxi }),
                    xe == (if txi < m.width { txi } else { m.width }),
                    ys == (if byi < 0 { 0 } else { byi }),
                    ye == (if tyi < m.height { tyi } else { m.height }),
                    forall|x2: int, y2: int|
                        bxi <= x2 < x && byi <= y2 < tyi ==> !#[trigger] m.claimable(x2, y2, agent),
                    forall|y2: int| byi <= y2 < y ==> !#[trigger] m.claimable(x as int, y2, agent),
                decreases ye - y,
            {
                if self.owner_at(x, y) != agent {
                    self.set_owner(x, y, agent);
                    proof {
                        let (xi, yi) = (x as int, y as int);
                        assert forall|x2: int, y2: int|
                            bxi <= x2 < txi && byi <= y2 < tyi && scans_before(x2, y2, xi, yi)
                            implies !#[trigger] m.claimable(x2, y2, agent) by {
                            if x2 == xi {
                                assert(!m.claimable(xi, y2, agent));
                            }
                        }
                        lemma_first_claimable_unique(m, bxi, byi, txi, tyi, agent, xi, yi);
                    }
                    return Some((x, y));
                }
                y = y + 1;
            }
            proof {
                assert forall|x2: int, y2: int|
                    bxi <= x2 < x + 1 && byi <= y2 < tyi implies !#[trigger] m.claimable(x2, y2, agent) by {
                    if x2 == x && y2 < y {
                        assert(!m.claimable(x as int, y2, agent));
                    }
                }
            }
            x = x + 1;
        }
        proof {
            assert forall|x2: int, y2: int|
                bxi <= x2 < txi && byi <= y2 < tyi implies !#[trigger] m.claimable(x2, y2, agent) by {}
            lemma_nothing_claimable(m, bxi, byi, txi, tyi, agent);
        }
        None
    }
}

} // verus!
