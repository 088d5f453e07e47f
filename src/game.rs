use vstd::prelude::*;

use vstd::arithmetic::div_mod::lemma_fundamental_div_mod_converse;

use crate::board::{Board, BoardModel};
use crate::geometry::Vector2;

verus! {

/// The fixed-point value standing for 1.0 in a direction component.
pub const DIRECTION_ONE: i64 = 1_000_000;

/// Time steps are counted in ticks; this many make one second.
pub const TICKS_PER_SECOND: i64 = 1_000_000;

/// cos(45 degrees) in direction units, rounded to the nearest unit.
pub const DIAGONAL: i64 = 707_107;

/// Length units per screen pixel.
pub const UNITS_PER_PIXEL: i64 = 1_000;

pub const DEFAULT_BOARD_HEIGHT: usize = 20;
pub const DEFAULT_BOARD_WIDTH: usize = 40;
pub const DEFAULT_CELL_SIZE: i64 = 20_000;
pub const DEFAULT_PLAYER_SPEED: i64 = 500_000;

/// Colours are packed as 0xRRGGBBAA.
pub const BLACK: u32 = 0x000000FF;
pub const RED: u32 = 0xFF0000FF;
pub const BLUE: u32 = 0x0000FFFF;
pub const WHITE: u32 = 0xFFFFFFFF;

pub const BACKGROUND_COLOR: u32 = BLACK;
pub const PLAYER_1_COLOR: u32 = RED;
pub const PLAYER_2_COLOR: u32 = BLUE;
pub const PLAYER_1_CELL_COLOR: u32 = BLUE;
pub const PLAYER_2_CELL_COLOR: u32 = RED;

/// One of the two agents. `direction` is in units of `DIRECTION_ONE`, `speed` in
/// length units per second.
#[derive(Clone, Copy, Debug, PartialEq, Eq, Structural)]
pub struct Player {
    pub position: Vector2,
    pub direction: Vector2,
    pub speed: i64,
    pub color: u32,
    pub cell_color: u32,
}

/// `a / b` rounded toward zero, for `b > 0`.
pub open spec fn trunc_div(a: int, b: int) -> int {
    if a >= 0 {
        a / b
    } else {
        -((-a) / b)
    }
}

/// One velocity component, in length units per second.
pub open spec fn velocity_of(direction: int, speed: int) -> int {
    trunc_div(direction * speed, DIRECTION_ONE as int)
}

/// Distance covered in `dt` ticks at the given velocity.
pub open spec fn displacement(velocity: int, dt: int) -> int {
    trunc_div(velocity * dt, TICKS_PER_SECOND as int)
}

/// The mathematical model of the whole simulation.
pub struct GameModel {
    pub players: Seq<Player>,
    pub board: BoardModel,
    pub cell_size: int,
    pub screen_width: int,
    pub screen_height: int,
    pub radius: int,
}

/// A player that the simulation can step: its direction within unit bounds, its
/// speed negatable, its centre on the screen.
pub open spec fn player_ok(p: Player, screen_width: int, screen_height: int) -> bool {
    &&& direction_ok(p.direction)
    &&& p.speed >= -i64::MAX
    &&& 0 <= p.position.x <= screen_width
    &&& 0 <= p.position.y <= screen_height
}

pub open spec fn direction_ok(d: Vector2) -> bool {
    -DIRECTION_ONE <= d.x <= DIRECTION_ONE && -DIRECTION_ONE <= d.y <= DIRECTION_ONE
}

impl GameModel {
    pub open spec fn valid(self) -> bool {
        &&& self.players.len() == 2
        &&& self.board.valid()
        &&& self.cell_size > 0
        &&& self.radius > 0
        &&& self.screen_width == self.board.width * self.cell_size
        &&& self.screen_height == self.board.height * self.cell_size
        &&& self.screen_width + self.radius <= i64::MAX
        &&& self.screen_height + self.radius <= i64::MAX
        &&& forall|k: int| 0 <= k < self.board.cells.len() ==> #[trigger] self.board.cells[k] < 2
        &&& forall|i: int|
            0 <= i < 2 ==> player_ok(#[trigger] self.players[i], self.screen_width, self.screen_height)
    }

    /// The agent's circular footprint lies inside the screen.
    pub open spec fn contained(self, i: int) -> bool {
        let p = self.players[i];
        &&& self.radius <= p.position.x <= self.screen_width - self.radius
        &&& self.radius <= p.position.y <= self.screen_height - self.radius
    }

    /// A tentative coordinate whose footprint would leave `[0, extent]`.
    pub open spec fn out_of_bounds(self, n: int, extent: int) -> bool {
        n - self.radius < 0 || n + self.radius > extent
    }

    /// The cell that the capture resolver claims for agent `i` at `(px, py)`: the
    /// first cell, in scan order, of the footprint's cell box not owned by `i`.
    pub open spec fn footprint_claim(self, px: int, py: int, i: int) -> Option<(int, int)> {
        self.board.first_claimable(
            (px - self.radius) / self.cell_size,
            (py - self.radius) / self.cell_size,
            (px + self.radius) / self.cell_size,
            (py + self.radius) / self.cell_size,
            i as usize,
        )
    }

    /// The model after the capture resolver ran for agent `i` at `(px, py)`.
    pub open spec fn after_capture(self, px: int, py: int, i: int) -> GameModel {
        match self.footprint_claim(px, py, i) {
            Some(c) => GameModel { board: self.board.with_owner(c.0, c.1, i as usize), ..self },
            None => self,
        }
    }

    /// Both players with speed `speed`, all else unchanged.
    pub open spec fn with_speed(self, speed: i64) -> GameModel {
        GameModel { players: self.players.map_values(|p: Player| Player { speed, ..p }), ..self }
    }

    pub open spec fn with_player(self, i: int, p: Player) -> GameModel {
        GameModel { players: self.players.update(i, p), ..self }
    }

    /// The tentative x coordinate of agent `i` after `dt` ticks.
    pub open spec fn tentative_x(self, i: int, dt: int) -> int {
        let p = self.players[i];
        p.position.x + displacement(velocity_of(p.direction.x as int, p.speed as int), dt)
    }

    /// The tentative y coordinate of agent `i` after `dt` ticks.
    pub open spec fn tentative_y(self, i: int, dt: int) -> int {
        let p = self.players[i];
        p.position.y + displacement(velocity_of(p.direction.y as int, p.speed as int), dt)
    }

    /// Whether the x move of agent `i` is refused: by a wall, or because the
    /// capture resolver claimed a cell.
    pub open spec fn x_blocked(self, i: int, dt: int) -> bool {
        let nx = self.tentative_x(i, dt);
        self.out_of_bounds(nx, self.screen_width) || self.footprint_claim(
            nx,
            self.players[i].position.y as int,
            i,
        ) is Some
    }

    pub open spec fn y_blocked(self, i: int, dt: int) -> bool {
        let ny = self.tentative_y(i, dt);
        self.out_of_bounds(ny, self.screen_height) || self.footprint_claim(
            self.players[i].position.x as int,
            ny,
            i,
        ) is Some
    }

    /// Resolves the x axis of agent `i`: commit the move, or reverse the x direction
    /// (claiming a cell if the resolver found one).
    pub open spec fn resolve_x(self, i: int, dt: int) -> GameModel {
        let p = self.players[i];
        let nx = self.tentative_x(i, dt);
        if self.out_of_bounds(nx, self.screen_width) {
            self.with_player(
                i,
                Player { direction: Vector2 { x: (-p.direction.x) as i64, ..p.direction }, ..p },
            )
        } else if self.footprint_claim(nx, p.position.y as int, i) is Some {
            self.after_capture(nx, p.position.y as int, i).with_player(
                i,
                Player { direction: Vector2 { x: (-p.direction.x) as i64, ..p.direction }, ..p },
            )
        } else {
            self.with_player(i, Player { position: Vector2 { x: nx as i64, ..p.position }, ..p })
        }
    }

    /// Resolves the y axis of agent `i`, from the x position that `resolve_x` left.
    pub open spec fn resolve_y(self, i: int, dt: int) -> GameModel {
        let p = self.players[i];
        let ny = self.tentative_y(i, dt);
        if self.out_of_bounds(ny, self.screen_height) {
            self.with_player(
                i,
                Player { direction: Vector2 { y: (-p.direction.y) as i64, ..p.direction }, ..p },
            )
        } else if self.footprint_claim(p.position.x as int, ny, i) is Some {
            self.after_capture(p.position.x as int, ny, i).with_player(
                i,
                Player { direction: Vector2 { y: (-p.direction.y) as i64, ..p.direction }, ..p },
            )
        } else {
            self.with_player(i, Player { position: Vector2 { y: ny as i64, ..p.position }, ..p })
        }
    }

    /// One agent's part of a step: x first, then y.
    pub open spec fn agent_step(self, i: int, dt: int) -> GameModel {
        self.resolve_x(i, dt).resolve_y(i, dt)
    }

    /// One simulation step: agent 0, then agent 1.
    pub open spec fn step(self, dt: int) -> GameModel {
        self.agent_step(0, dt).agent_step(1, dt)
    }

    /// `n` successive steps of `dt` ticks each.
    pub open spec fn steps(self, dt: int, n: nat) -> GameModel
        decreases n,
    {
        if n == 0 {
            self
        } else {
            self.step(dt).steps(dt, (n - 1) as nat)
        }
    }

    /// Both agents lie inside the screen, and neither agent's footprint box holds a
    /// cell of the other agent: standing still, neither would capture anything.
    pub open spec fn settled(self) -> bool {
        forall|i: int|
            0 <= i < 2 ==> {
                &&& #[trigger] self.contained(i)
                &&& self.footprint_claim(
                    self.players[i].position.x as int,
                    self.players[i].position.y as int,
                    i,
                ) is None
            }
    }
}

/// `a / b` rounded toward zero.
fn div_toward_zero(a: i128, b: i128) -> (r: i128)
    requires
        b > 0,
        a > i128::MIN,
    ensures
        r == trunc_div(a as int, b as int),
{
    if a >= 0 {
        a / b
    } else {
        -((-a) / b)
    }
}

/// The distance covered in `dt` ticks at `velocity` units per second.
fn distance_in(velocity: i64, dt: i64) -> (r: i128)
    ensures
        r == displacement(velocity as int, dt as int),
        -0x4000_0000_0000_0000_0000_0000_0000_0000 <= r <= 0x4000_0000_0000_0000_0000_0000_0000_0000,
{
    proof {
        assert(-0x4000_0000_0000_0000_0000_0000_0000_0000 <= velocity * dt
            <= 0x4000_0000_0000_0000_0000_0000_0000_0000) by (nonlinear_arith)
            requires
                -0x8000_0000_0000_0000 <= velocity < 0x8000_0000_0000_0000,
                -0x8000_0000_0000_0000 <= dt < 0x8000_0000_0000_0000,
        ;
    }
    let a: i128 = velocity as i128 * dt as i128;
    proof {
        let b: int = if a >= 0 { a as int } else { -a };
        assert(0 <= b <= 0x4000_0000_0000_0000_0000_0000_0000_0000) by (nonlinear_arith)
            requires
                -0x8000_0000_0000_0000 <= velocity < 0x8000_0000_0000_0000,
                -0x8000_0000_0000_0000 <= dt < 0x8000_0000_0000_0000,
                a == velocity * dt,
                b == (if a >= 0 { a as int } else { -a }),
        ;
        assert(b * 1 == b);
        lemma_trunc_div_bound(a as int, b, TICKS_PER_SECOND as int);
        lemma_div_at_most(b, 0x4000_0000_0000_0000_0000_0000_0000_0000, TICKS_PER_SECOND as int);
    }
    div_toward_zero(a, TICKS_PER_SECOND as i128)
}

/// `a / b` rounded down, for `b > 0`.
fn div_floor(a: i64, b: i64) -> (r: i64)
    requires
        b > 0,
    ensures
        r == (a as int) / (b as int),
{
    if a >= 0 {
        a / b
    } else {
        let u: i64 = -(a + 1);
        let q: i64 = u / b;
        proof {
            let ui = u as int;
            let bi = b as int;
            vstd::arithmetic::div_mod::lemma_fundamental_div_mod(ui, bi);
            let rem = ui % bi;
            assert(0 <= rem < bi) by {
                vstd::arithmetic::div_mod::lemma_mod_bound(ui, bi);
            }
            assert(bi * q + rem == q * bi + rem) by (nonlinear_arith);
            assert(a == (-q - 1) * bi + (bi - rem - 1)) by (nonlinear_arith)
                requires
                    ui == q * bi + rem,
                    a == -ui - 1,
            ;
            vstd::arithmetic::div_mod::lemma_fundamental_div_mod_converse(
                a as int,
                bi,
                -q - 1,
                bi - rem - 1,
            );
        }
        -q - 1
    }
}

/// A quotient never exceeds the dividend bound divided out.
proof fn lemma_div_at_most(a: int, b: int, c: int)
    requires
        0 <= a <= b * c,
        c > 0,
        b >= 0,
    ensures
        0 <= a / c <= b,
{
    vstd::arithmetic::div_mod::lemma_fundamental_div_mod(a, c);
    vstd::arithmetic::div_mod::lemma_mod_bound(a, c);
    let q = a / c;
    assert(0 <= q <= b) by (nonlinear_arith)
        requires
            a == c * q + a % c,
            0 <= a % c < c,
            0 <= a <= b * c,
            c > 0,
    ;
}

/// Truncating division by a positive divisor keeps a bound on the magnitude.
proof fn lemma_trunc_div_bound(a: int, b: int, c: int)
    requires
        -(b * c) <= a <= b * c,
        c > 0,
        b >= 0,
    ensures
        -b <= trunc_div(a, c) <= b,
{
    if a >= 0 {
        lemma_div_at_most(a, b, c);
    } else {
        lemma_div_at_most(-a, b, c);
    }
}

/// The players at the start of a run: quarter width left and right, vertical centre,
/// heading at 45 and 225 degrees.
pub open spec fn initial_players(speed: i64, screen_width: i64, screen_height: i64) -> Seq<Player> {
    seq![
        Player {
            position: Vector2 { x: (screen_width / 4) as i64, y: (screen_height / 2) as i64 },
            direction: Vector2 { x: DIAGONAL, y: DIAGONAL },
            speed,
            color: PLAYER_1_COLOR,
            cell_color: PLAYER_1_CELL_COLOR,
        },
        Player {
            position: Vector2 { x: (screen_width / 4 * 3) as i64, y: (screen_height / 2) as i64 },
            direction: Vector2 { x: (-DIAGONAL) as i64, y: (-DIAGONAL) as i64 },
            speed,
            color: PLAYER_2_COLOR,
            cell_color: PLAYER_2_CELL_COLOR,
        },
    ]
}

impl Player {
    /// `direction * speed`, in length units per second (rounded toward zero).
    pub fn velocity(&self) -> (r: Vector2)
        requires
            direction_ok(self.direction),
            self.speed >= -i64::MAX,
        ensures
            r.x == velocity_of(self.direction.x as int, self.speed as int),
            r.y == velocity_of(self.direction.y as int, self.speed as int),
    {
        let s = self.speed as i128;
        let dx = self.direction.x as i128;
        let dy = self.direction.y as i128;
        let ghost abs_s: int = if s >= 0 { s as int } else { -s };
        proof {
            assert(-(abs_s * DIRECTION_ONE) <= dx * s <= abs_s * DIRECTION_ONE) by (nonlinear_arith)
                requires
                    -DIRECTION_ONE <= dx <= DIRECTION_ONE,
                    abs_s == (if s >= 0 { s as int } else { -s }),
            ;
            assert(-(abs_s * DIRECTION_ONE) <= dy * s <= abs_s * DIRECTION_ONE) by (nonlinear_arith)
                requires
                    -DIRECTION_ONE <= dy <= DIRECTION_ONE,
                    abs_s == (if s >= 0 { s as int } else { -s }),
            ;
            lemma_trunc_div_bound(dx * s, abs_s, DIRECTION_ONE as int);
            lemma_trunc_div_bound(dy * s, abs_s, DIRECTION_ONE as int);
            assert(abs_s * DIRECTION_ONE <= 0x8000_0000_0000_0000 * DIRECTION_ONE) by (nonlinear_arith)
                requires
                    0 <= abs_s <= 0x8000_0000_0000_0000,
            ;
        }
        let vx = div_toward_zero(dx * s, DIRECTION_ONE as i128);
        let vy = div_toward_zero(dy * s, DIRECTION_ONE as i128);
        Vector2 { x: vx as i64, y: vy as i64 }
    }
}

/// The running simulation: one board, two players and the fixed grid geometry.
pub struct GameState {
    players: Vec<Player>,
    board: Board,
    cell_size: i64,
    screen_width: i64,
    screen_height: i64,
    player_radius: i64,
}

impl View for GameState {
    type V = GameModel;

    closed spec fn view(&self) -> GameModel {
        GameModel {
            players: self.players@,
            board: self.board@,
            cell_size: self.cell_size as int,
            screen_width: self.screen_width as int,
            screen_height: self.screen_height as int,
            radius: self.player_radius as int,
        }
    }
}

impl GameState {
    pub open spec fn wf(&self) -> bool {
        self@.valid()
    }

    /// A board of `width x height` cells, the left half owned by
    /// `left_player_index` and the right half by `right_player_index`.
    pub fn new_board(
        left_player_index: usize,
        right_player_index: usize,
        width: usize,
        height: usize,
    ) -> (r: Board)
        requires
            width > 0,
            height > 0,
            width * height <= usize::MAX,
        ensures
            r@.valid(),
            r@.width == width,
            r@.height == height,
            r@.partitioned(left_player_index, right_player_index),
    {
        Board::new(width, height, left_player_index, right_player_index)
    }

    /// The two players in their starting places, both moving at `player_speed`.
    pub fn new_players(player_speed: i64, screen_width: i64, screen_height: i64) -> (r: Vec<Player>)
        requires
            screen_width >= 0,
            screen_height >= 0,
        ensures
            r@ == initial_players(player_speed, screen_width, screen_height),
    {
        let mut players: Vec<Player> = Vec::new();
        players.push(
            Player {
                position: Vector2 { x: screen_width / 4, y: screen_height / 2 },
                direction: Vector2 { x: DIAGONAL, y: DIAGONAL },
                speed: player_speed,
                color: PLAYER_1_COLOR,
                cell_color: PLAYER_1_CELL_COLOR,
            },
        );
        players.push(
            Player {
                position: Vector2 { x: screen_width / 4 * 3, y: screen_height / 2 },
                direction: Vector2 { x: -DIAGONAL, y: -DIAGONAL },
                speed: player_speed,
                color: PLAYER_2_COLOR,
                cell_color: PLAYER_2_CELL_COLOR,
            },
        );
        proof {
            assert(players@ =~= initial_players(player_speed, screen_width, screen_height));
        }
        players
    }

    /// A simulation on a `board_width x board_height` grid of square cells of side
    /// `cell_size`; the player radius is one cell.
    pub fn initialize(
        board_width: usize,
        board_height: usize,
        cell_size: i64,
        player_speed: i64,
    ) -> (r: GameState)
        requires
            board_width > 0,
            board_height > 0,
            board_width * board_height <= usize::MAX,
            cell_size > 0,
            player_speed >= -i64::MAX,
            (board_width + 1) * cell_size <= i64::MAX,
            (board_height + 1) * cell_size <= i64::MAX,
        ensures
            r.wf(),
            r@.board.width == board_width,
            r@.board.height == board_height,
            r@.board.partitioned(0, 1),
            r@.cell_size == cell_size,
            r@.radius == cell_size,
            board_width >= 4 && board_height >= 2 ==> r@.contained(0) && r@.contained(1),
            r@.screen_width == board_width * cell_size,
            r@.screen_height == board_height * cell_size,
            r@.players == initial_players(
                player_speed,
                (board_width * cell_size) as i64,
                (board_height * cell_size) as i64,
            ),
    {
        proof {
            assert(board_width <= (board_width + 1) * cell_size) by (nonlinear_arith)
                requires
                    cell_size > 0,
                    board_width > 0,
            ;
            assert(board_height <= (board_height + 1) * cell_size) by (nonlinear_arith)
                requires
                    cell_size > 0,
                    board_height > 0,
            ;
            assert((board_width + 1) * cell_size == board_width * cell_size + cell_size)
                by (nonlinear_arith);
            assert((board_height + 1) * cell_size == board_height * cell_size + cell_size)
                by (nonlinear_arith);
            assert(board_width * cell_size >= 0) by (nonlinear_arith)
                requires
                    cell_size > 0,
                    board_width > 0,
            ;
            assert(board_height * cell_size >= 0) by (nonlinear_arith)
                requires
                    cell_size > 0,
                    board_height > 0,
            ;
        }
        let screen_width: i64 = board_width as i64 * cell_size;
        let screen_height: i64 = board_height as i64 * cell_size;
        let players = Self::new_players(player_speed, screen_width, screen_height);
        let board = Self::new_board(0, 1, board_width, board_height);
        let r = GameState {
            players,
            board,
            cell_size,
            screen_width,
            screen_height,
            player_radius: cell_size,
        };
        proof {
            if board_width >= 4 && board_height >= 2 {
                let w = screen_width as int;
                let h = screen_height as int;
                let c = cell_size as int;
                vstd::arithmetic::div_mod::lemma_fundamental_div_mod(w, 4);
                vstd::arithmetic::div_mod::lemma_fundamental_div_mod(h, 2);
                assert(w >= 4 * c) by (nonlinear_arith)
                    requires
                        w == board_width * c,
                        board_width >= 4,
                        c > 0,
                ;
                assert(h >= 2 * c) by (nonlinear_arith)
                    requires
                        h == board_height * c,
                        board_height >= 2,
                        c > 0,
                ;
                assert(w / 4 >= c);
                assert(h / 2 >= c);
            }
            assert forall|k: int|
                0 <= k < r@.board.cells.len() implies #[trigger] r@.board.cells[k] < 2 by {
                let w = r@.board.width;
                let x = k % w;
                let y = k / w;
                vstd::arithmetic::div_mod::lemma_fundamental_div_mod(k, w);
                vstd::arithmetic::div_mod::lemma_mod_bound(k, w);
                assert(0 <= y < r@.board.height) by (nonlinear_arith)
                    requires
                        k == w * y + x,
                        0 <= x < w,
                        0 <= k < w * r@.board.height,
                ;
                assert(k == y * w + x) by (nonlinear_arith)
                    requires
                        k == w * y + x,
                ;
                assert(r@.board.in_range(x, y));
                assert(r@.board.owner(x, y) < 2);
            }
        }
        r
    }

    /// The default simulation: a 40 x 20 board of 20-pixel cells, players at
    /// 500 pixels per second.
    pub fn new() -> (r: GameState)
        ensures
            r.wf(),
            r@.board.width == DEFAULT_BOARD_WIDTH,
            r@.board.height == DEFAULT_BOARD_HEIGHT,
            r@.board.partitioned(0, 1),
            r@.settled(),
            r@.cell_size == DEFAULT_CELL_SIZE,
            r@.radius == DEFAULT_CELL_SIZE,
            r@.screen_width == DEFAULT_BOARD_WIDTH * DEFAULT_CELL_SIZE,
            r@.screen_height == DEFAULT_BOARD_HEIGHT * DEFAULT_CELL_SIZE,
            r@.players == initial_players(
                DEFAULT_PLAYER_SPEED,
                (DEFAULT_BOARD_WIDTH * DEFAULT_CELL_SIZE) as i64,
                (DEFAULT_BOARD_HEIGHT * DEFAULT_CELL_SIZE) as i64,
            ),
    {
        let r = Self::initialize(
            DEFAULT_BOARD_WIDTH,
            DEFAULT_BOARD_HEIGHT,
            DEFAULT_CELL_SIZE,
            DEFAULT_PLAYER_SPEED,
        );
        proof {
            let m = r@;
            let b = m.board;
            assert(m.players[0].position.x == 200_000 && m.players[0].position.y == 200_000);
            assert(m.players[1].position.x == 600_000 && m.players[1].position.y == 200_000);
            assert forall|i: int| 0 <= i < 2 implies {
                &&& #[trigger] m.contained(i)
                &&& m.footprint_claim(
                    m.players[i].position.x as int,
                    m.players[i].position.y as int,
                    i,
                ) is None
            } by {
                let px = m.players[i].position.x as int;
                let py = m.players[i].position.y as int;
                let bx = (px - 20_000) / 20_000;
                let tx = (px + 20_000) / 20_000;
                let by = (py - 20_000) / 20_000;
                let ty = (py + 20_000) / 20_000;
                lemma_fundamental_div_mod_converse(180_000, 20_000, 9, 0);
                lemma_fundamental_div_mod_converse(220_000, 20_000, 11, 0);
                lemma_fundamental_div_mod_converse(580_000, 20_000, 29, 0);
                lemma_fundamental_div_mod_converse(620_000, 20_000, 31, 0);
                assert(by == 9 && ty == 11);
                if i == 0 {
                    assert(bx == 9 && tx == 11);
                } else {
                    assert(bx == 29 && tx == 31);
                }
                assert forall|x: int, y: int|
                    bx <= x < tx && by <= y < ty implies !#[trigger] b.claimable(x, y, i as usize) by {
                    assert(b.in_range(x, y) ==> b.owner(x, y) == i as usize);
                }
                crate::board::lemma_nothing_claimable(b, bx, by, tx, ty, i as usize);
            }
        }
        r
    }

    /// The capture resolver: if the cell box under a player of index `player_index`
    /// centred at `(px, py)` holds a cell owned by the other player, the first such
    /// cell in scan order passes to `player_index` and the result is `true`.
    ///
    /// The footprint is the box of cells from `floor((p - r) / cell)` up to, but not
    /// including, `floor((p + r) / cell)` on each axis. Every cell of that box counts
    /// as covered, whether or not the disc itself reaches it: a single predictable
    /// scan rather than an exact circle test per cell (see
    /// `geometry::circle_intersects_rect`).
    pub fn player_eats_enemy_cell(&mut self, px: i64, py: i64, player_index: usize) -> (r: bool)
        requires
            old(self).wf(),
            player_index < 2,
            i64::MIN + old(self)@.radius <= px <= i64::MAX - old(self)@.radius,
            i64::MIN + old(self)@.radius <= py <= i64::MAX - old(self)@.radius,
        ensures
            final(self).wf(),
            final(self)@ == old(self)@.after_capture(px as int, py as int, player_index as int),
            r == old(self)@.footprint_claim(px as int, py as int, player_index as int) is Some,
    {
        let ghost m = self@;
        let r = self.player_radius;
        let cs = self.cell_size;
        let bx = div_floor(px - r, cs);
        let by = div_floor(py - r, cs);
        let tx = div_floor(px + r, cs);
        let ty = div_floor(py + r, cs);
        let claimed = self.board.claim_first_in(bx, by, tx, ty, player_index);
        proof {
            let c = m.footprint_claim(px as int, py as int, player_index as int);
            if c is Some {
                let cc = c.unwrap();
                let bm = m.board;
                let (bx, by, tx, ty) = (
                    (px - m.radius) / m.cell_size,
                    (py - m.radius) / m.cell_size,
                    (px + m.radius) / m.cell_size,
                    (py + m.radius) / m.cell_size,
                );
                assert(bm.is_first_claimable(bx, by, tx, ty, player_index, cc.0, cc.1));
                crate::board::lemma_index_in_bounds(bm, cc.0, cc.1);
                assert(self@.board == m.board.with_owner(cc.0, cc.1, player_index));
                assert(self@ == m.after_capture(px as int, py as int, player_index as int));
                assert forall|k: int|
                    0 <= k < self@.board.cells.len() implies #[trigger] self@.board.cells[k] < 2 by {
                    if k != m.board.index(cc.0, cc.1) {
                        assert(self@.board.cells[k] == m.board.cells[k]);
                    }
                }
            }
        }
        claimed.is_some()
    }

    /// One player's part of a step, x axis then y axis: each axis either commits its
    /// tentative coordinate or, on a wall or a capture, reverses that direction
    /// component and keeps the coordinate.
    fn step_player(&mut self, i: usize, dt: i64)
        requires
            old(self).wf(),
            i < 2,
        ensures
            final(self).wf(),
            final(self)@ == old(self)@.agent_step(i as int, dt as int),
    {
        let ghost m0 = self@;
        let p = self.players[i];
        let vel = p.velocity();
        let rad = self.player_radius as i128;
        let dx = distance_in(vel.x, dt);
        let nx: i128 = p.position.x as i128 + dx;
        let mut np = p;
        if nx - rad < 0 || nx + rad > self.screen_width as i128 {
            np.direction.x = -p.direction.x;
        } else if self.player_eats_enemy_cell(nx as i64, p.position.y, i) {
            np.direction.x = -p.direction.x;
        } else {
            np.position.x = nx as i64;
        }
        self.players.set(i, np);
        let ghost m1 = self@;
        proof {
            assert(m1 == m0.resolve_x(i as int, dt as int));
            assert forall|j: int|
                0 <= j < 2 implies player_ok(#[trigger] m1.players[j], m1.screen_width, m1.screen_height) by {
                if j != i {
                    assert(m1.players[j] == m0.players[j]);
                }
            }
            assert(m1.valid());
        }
        let p = self.players[i];
        let dy = distance_in(vel.y, dt);
        let ny: i128 = p.position.y as i128 + dy;
        let mut np = p;
        if ny - rad < 0 || ny + rad > self.screen_height as i128 {
            np.direction.y = -p.direction.y;
        } else if self.player_eats_enemy_cell(p.position.x, ny as i64, i) {
            np.direction.y = -p.direction.y;
        } else {
            np.position.y = ny as i64;
        }
        self.players.set(i, np);
        proof {
            let m2 = self@;
            assert(m2 == m1.resolve_y(i as int, dt as int));
            assert forall|j: int|
                0 <= j < 2 implies player_ok(#[trigger] m2.players[j], m2.screen_width, m2.screen_height) by {
                if j != i {
                    assert(m2.players[j] == m1.players[j]);
                }
            }
        }
    }

    /// Advances the simulation by `dt` ticks: player 0 moves, then player 1.
    pub fn update(&mut self, dt: i64)
        requires
            old(self).wf(),
        ensures
            final(self).wf(),
            final(self)@ == old(self)@.step(dt as int),
    {
        self.step_player(0, dt);
        self.step_player(1, dt);
    }

    /// Gives both players the speed `speed`, effective from the next `update`.
    pub fn set_player_speed(&mut self, speed: i64)
        requires
            old(self).wf(),
            speed >= -i64::MAX,
        ensures
            final(self).wf(),
            final(self)@ == old(self)@.with_speed(speed),
    {
        let ghost m = self@;
        let mut i: usize = 0;
        proof {
            assert(self.players@ =~= Seq::new(
                2,
                |j: int|
                    if j < i {
                        Player { speed, ..m.players[j] }
                    } else {
                        m.players[j]
                    },
            ));
        }
        while i < self.players.len()
            invariant
                0 <= i <= 2,
                self.players@.len() == 2,
                self@ == (GameModel {
                    players: Seq::new(
                        2,
                        |j: int|
                            if j < i {
                                Player { speed, ..m.players[j] }
                            } else {
                                m.players[j]
                            },
                    ),
                    ..m
                }),
                m.valid(),
            decreases 2 - i,
        {
            let mut p = self.players[i];
            p.speed = speed;
            self.players.set(i, p);
            proof {
                assert(self.players@ =~= Seq::new(
                    2,
                    |j: int|
                        if j < i + 1 {
                            Player { speed, ..m.players[j] }
                        } else {
                            m.players[j]
                        },
                ));
            }
            i = i + 1;
        }
        proof {
            assert(self@.players =~= m.with_speed(speed).players);
            assert forall|j: int|
                0 <= j < 2 implies player_ok(#[trigger] self@.players[j], self@.screen_width, self@.screen_height) by {
                assert(self@.players[j] == Player { speed, ..m.players[j] });
            }
        }
    }

    /// Points player `index` in `direction`, effective from the next `update`.
    pub fn set_player_direction(&mut self, index: usize, direction: Vector2)
        requires
            old(self).wf(),
            index < 2,
            direction_ok(direction),
        ensures
            final(self).wf(),
            final(self)@ == old(self)@.with_player(
                index as int,
                Player { direction, ..old(self)@.players[index as int] },
            ),
    {
        let ghost m = self@;
        let mut p = self.players[index];
        p.direction = direction;
        self.players.set(index, p);
        proof {
            assert forall|j: int|
                0 <= j < 2 implies player_ok(#[trigger] self@.players[j], self@.screen_width, self@.screen_height) by {
                if j != index {
                    assert(self@.players[j] == m.players[j]);
                }
            }
        }
    }

    /// Player `index` as it stands.
    pub fn player(&self, index: usize) -> (r: Player)
        requires
            self.wf(),
            index < 2,
        ensures
            r == self@.players[index as int],
    {
        self.players[index]
    }

    pub fn board(&self) -> (r: &Board)
        ensures
            r@ == self@.board,
    {
        &self.board
    }

    pub fn cell_size(&self) -> (r: i64)
        ensures
            r == self@.cell_size,
    {
        self.cell_size
    }

    pub fn screen_width(&self) -> (r: i64)
        ensures
            r == self@.screen_width,
    {
        self.screen_width
    }

    pub fn screen_height(&self) -> (r: i64)
        ensures
            r == self@.screen_height,
    {
        self.screen_height
    }

    pub fn player_radius(&self) -> (r: i64)
        ensures
            r == self@.radius,
    {
        self.player_radius
    }
}

} // verus!
