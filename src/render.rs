use vstd::prelude::*;

use crate::game::{GameModel, GameState, BACKGROUND_COLOR, BLACK, WHITE};

verus! {

/// One call on the host's drawing surface, in length units and packed RGBA colours.
#[derive(Clone, Copy, Debug, PartialEq, Eq, Structural)]
pub enum DrawCommand {
    Clear { color: u32 },
    FillRect { x: i64, y: i64, w: i64, h: i64, color: u32 },
    FillRectBorder { x: i64, y: i64, w: i64, h: i64, color: u32 },
    FillCircle { x: i64, y: i64, r: i64, color: u32 },
    FillCircleBorder { x: i64, y: i64, r: i64, color: u32 },
}

/// The filled square of cell `(x, y)`, in the cell colour of its owner.
pub open spec fn cell_fill(m: GameModel, x: int, y: int) -> DrawCommand {
    DrawCommand::FillRect {
        x: (x * m.cell_size) as i64,
        y: (y * m.cell_size) as i64,
        w: m.cell_size as i64,
        h: m.cell_size as i64,
        color: m.players[m.board.owner(x, y) as int].cell_color,
    }
}

/// The black outline of cell `(x, y)`.
pub open spec fn cell_border(m: GameModel, x: int, y: int) -> DrawCommand {
    DrawCommand::FillRectBorder {
        x: (x * m.cell_size) as i64,
        y: (y * m.cell_size) as i64,
        w: m.cell_size as i64,
        h: m.cell_size as i64,
        color: BLACK,
    }
}

/// The disc of player `i`, in its body colour.
pub open spec fn player_fill(m: GameModel, i: int) -> DrawCommand {
    DrawCommand::FillCircle {
        x: m.players[i].position.x,
        y: m.players[i].position.y,
        r: m.radius as i64,
        color: m.players[i].color,
    }
}

/// The white outline of player `i`.
pub open spec fn player_border(m: GameModel, i: int) -> DrawCommand {
    DrawCommand::FillCircleBorder {
        x: m.players[i].position.x,
        y: m.players[i].position.y,
        r: m.radius as i64,
        color: WHITE,
    }
}

/// The board part of a frame, drawing its first `n` cells in row-major order: a
/// clear, then for each cell its filled square and its outline.
pub open spec fn board_picture_prefix(m: GameModel, n: int) -> Seq<DrawCommand> {
    seq![DrawCommand::Clear { color: BACKGROUND_COLOR }] + Seq::new(
        (2 * n) as nat,
        |j: int|
            {
                let k = j / 2;
                let x = k % m.board.width;
                let y = k / m.board.width;
                if j % 2 == 0 {
                    cell_fill(m, x, y)
                } else {
                    cell_border(m, x, y)
                }
            },
    )
}

/// The board part of a frame: every cell.
pub open spec fn board_picture(m: GameModel) -> Seq<DrawCommand> {
    board_picture_prefix(m, m.board.cells.len() as int)
}

proof fn lemma_row_major(k: int, w: int, x: int, y: int)
    requires
        w > 0,
        0 <= x < w,
        0 <= y,
        k == y * w + x,
    ensures
        k % w == x,
        k / w == y,
{
    vstd::arithmetic::div_mod::lemma_fundamental_div_mod_converse(k, w, y, x);
}

impl GameState {
    /// The background and the board: a clear, then for each cell in row-major order
    /// its filled square and its outline.
    pub fn board_draw_commands(&self) -> (r: Vec<DrawCommand>)
        requires
            self.wf(),
        ensures
            r@ == board_picture(self@),
    {
        let ghost m = self@;
        let board = self.board();
        let w = board.width();
        let h = board.height();
        let cs = self.cell_size();
        let mut out: Vec<DrawCommand> = Vec::new();
        out.push(DrawCommand::Clear { color: BACKGROUND_COLOR });
        proof {
            assert(out@ =~= board_picture_prefix(m, 0));
        }
        let mut by: usize = 0;
        while by < h
            invariant
                self@ == m,
                board@ == m.board,
                m.valid(),
                w == m.board.width,
                h == m.board.height,
                cs == m.cell_size,
                0 <= by <= h,
                out@ == board_picture_prefix(m, by * w),
            decreases h - by,
        {
            let mut bx: usize = 0;
            while bx < w
                invariant
                    self@ == m,
                    board@ == m.board,
                    m.valid(),
                    w == m.board.width,
                    h == m.board.height,
                    cs == m.cell_size,
                    0 <= by < h,
                    0 <= bx <= w,
                    out@ == board_picture_prefix(m, by * w + bx),
                decreases w - bx,
            {
                proof {
                    let k = by * w + bx;
                    lemma_row_major(k, w as int, bx as int, by as int);
                    crate::board::lemma_index_in_bounds(m.board, bx as int, by as int);
                    assert(m.board.cells[m.board.index(bx as int, by as int)] < 2);
                    assert(0 <= bx <= bx * cs <= m.screen_width) by (nonlinear_arith)
                        requires
                            0 <= bx < w,
                            cs > 0,
                            m.screen_width == w * cs,
                    ;
                    assert(0 <= by <= by * cs <= m.screen_height) by (nonlinear_arith)
                        requires
                            0 <= by < h,
                            cs > 0,
                            m.screen_height == h * cs,
                    ;
                }
                let x = bx as i64 * cs;
                let y = by as i64 * cs;
                let owner = board.owner_at(bx, by);
                let color = self.player(owner).cell_color;
                let ghost prev = out@;
                out.push(DrawCommand::FillRect { x, y, w: cs, h: cs, color });
                out.push(DrawCommand::FillRectBorder { x, y, w: cs, h: cs, color: BLACK });
                proof {
                    let k = by * w + bx;
                    lemma_row_major(k, w as int, bx as int, by as int);
                    let next = board_picture_prefix(m, k + 1);
                    let tail = Seq::new(
                        (2 * (k + 1)) as nat,
                        |j: int|
                            {
                                let kk = j / 2;
                                let x = kk % m.board.width;
                                let y = kk / m.board.width;
                                if j % 2 == 0 {
                                    cell_fill(m, x, y)
                                } else {
                                    cell_border(m, x, y)
                                }
                            },
                    );
                    assert(next == seq![DrawCommand::Clear { color: BACKGROUND_COLOR }] + tail);
                    assert(tail[2 * k] == cell_fill(m, bx as int, by as int));
                    assert(tail[2 * k + 1] == cell_border(m, bx as int, by as int));
                    assert(out@.len() == next.len());
                    assert forall|j: int| 0 <= j < out@.len() implies out@[j] == next[j] by {
                        if j == 0 {
                        } else if j < prev.len() {
                            assert(prev[j] == board_picture_prefix(m, k)[j]);
                            assert(next[j] == tail[j - 1]);
                        } else if j == prev.len() {
                            assert(next[j] == tail[2 * k]);
                        } else {
                            assert(next[j] == tail[2 * k + 1]);
                        }
                    }
                    assert(out@ =~= next);
                }
                bx = bx + 1;
            }
            proof {
                assert(by * w + w == (by + 1) * w) by (nonlinear_arith);
            }
            by = by + 1;
        }
        proof {
            assert(by * w == m.board.cells.len()) by (nonlinear_arith)
                requires
                    by == h,
                    m.board.cells.len() == w * h,
            ;
        }
        out
    }

    /// The two players, each as a filled disc and its outline, player 0 first.
    pub fn player_draw_commands(&self) -> (r: Vec<DrawCommand>)
        requires
            self.wf(),
        ensures
            r@ == seq![
                player_fill(self@, 0),
                player_border(self@, 0),
                player_fill(self@, 1),
                player_border(self@, 1),
            ],
    {
        let radius = self.player_radius();
        let mut out: Vec<DrawCommand> = Vec::new();
        let mut i: usize = 0;
        while i < 2
            invariant
                0 <= i <= 2,
                self.wf(),
                radius == self@.radius,
                out@.len() == 2 * i,
                forall|j: int|
                    0 <= j < i ==> #[trigger] out@[2 * j] == player_fill(self@, j) && out@[2 * j
                        + 1] == player_border(self@, j),
            decreases 2 - i,
        {
            let p = self.player(i);
            out.push(
                DrawCommand::FillCircle {
                    x: p.position.x,
                    y: p.position.y,
                    r: radius,
                    color: p.color,
                },
            );
            out.push(
                DrawCommand::FillCircleBorder {
                    x: p.position.x,
                    y: p.position.y,
                    r: radius,
                    color: WHITE,
                },
            );
            i = i + 1;
        }
        proof {
            assert(out@[2 * 0int] == player_fill(self@, 0));
            assert(out@[2 * 1int] == player_fill(self@, 1));
            assert(out@ =~= seq![
                player_fill(self@, 0),
                player_border(self@, 0),
                player_fill(self@, 1),
                player_border(self@, 1),
            ]);
        }
        out
    }
}

} // verus!
