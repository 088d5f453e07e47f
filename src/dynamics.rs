use vstd::prelude::*;

use crate::board::{lemma_index_in_bounds, BoardModel};
use crate::game::{player_ok, velocity_of, GameModel, Player};

verus! {

/// `b` equals `a` but possibly at index `k`, where it holds `agent`.
pub open spec fn same_but_one(a: Seq<usize>, b: Seq<usize>, k: int, agent: usize) -> bool {
    &&& a.len() == b.len()
    &&& forall|j: int| 0 <= j < a.len() && j != k ==> #[trigger] b[j] == a[j]
    &&& 0 <= k < a.len() ==> b[k] == a[k] || b[k] == agent
}

/// The same grid shape, with cells changed at most at index `k`, each changed cell
/// now held by `agent`.
pub open spec fn board_changed_at_most_at(
    a: BoardModel,
    b: BoardModel,
    k: int,
    agent: usize,
) -> bool {
    &&& b.valid()
    &&& a.width == b.width
    &&& a.height == b.height
    &&& same_but_one(a.cells, b.cells, k, agent)
}

/// The parts of the model that no step changes.
pub open spec fn same_frame(a: GameModel, b: GameModel) -> bool {
    &&& a.players.len() == b.players.len()
    &&& a.cell_size == b.cell_size
    &&& a.screen_width == b.screen_width
    &&& a.screen_height == b.screen_height
    &&& a.radius == b.radius
}

/// Index of the cell that the capture resolver claims, or -1 if none.
pub open spec fn claim_index(m: GameModel, px: int, py: int, i: int) -> int {
    match m.footprint_claim(px, py, i) {
        Some(c) => m.board.index(c.0, c.1),
        None => -1,
    }
}

/// The capture resolver changes at most one cell, and hands it to the acting agent.
pub proof fn lemma_capture_changes_one_cell(m: GameModel, px: int, py: int, i: int)
    requires
        m.board.valid(),
        0 <= i < 2,
    ensures
        board_changed_at_most_at(
            m.board,
            m.after_capture(px, py, i).board,
            claim_index(m, px, py, i),
            i as usize,
        ),
        same_frame(m, m.after_capture(px, py, i)),
        m.after_capture(px, py, i).players == m.players,
{
    match m.footprint_claim(px, py, i) {
        Some(c) => {
            let bm = m.board;
            let (bx, by, tx, ty) = (
                (px - m.radius) / m.cell_size,
                (py - m.radius) / m.cell_size,
                (px + m.radius) / m.cell_size,
                (py + m.radius) / m.cell_size,
            );
            assert(bm.is_first_claimable(bx, by, tx, ty, i as usize, c.0, c.1));
            lemma_index_in_bounds(bm, c.0, c.1);
        },
        None => {},
    }
}

/// Index of the cell claimed on the x axis of agent `i`'s move, or -1.
pub open spec fn x_claim_index(m: GameModel, i: int, dt: int) -> int {
    if m.out_of_bounds(m.tentative_x(i, dt), m.screen_width) {
        -1
    } else {
        claim_index(m, m.tentative_x(i, dt), m.players[i].position.y as int, i)
    }
}

/// Index of the cell claimed on the y axis of agent `i`'s move, or -1.
pub open spec fn y_claim_index(m: GameModel, i: int, dt: int) -> int {
    if m.out_of_bounds(m.tentative_y(i, dt), m.screen_height) {
        -1
    } else {
        claim_index(m, m.players[i].position.x as int, m.tentative_y(i, dt), i)
    }
}

proof fn lemma_resolve_x_cells(m: GameModel, i: int, dt: int)
    requires
        m.board.valid(),
        m.players.len() == 2,
        0 <= i < 2,
    ensures
        board_changed_at_most_at(
            m.board,
            m.resolve_x(i, dt).board,
            x_claim_index(m, i, dt),
            i as usize,
        ),
        same_frame(m, m.resolve_x(i, dt)),
        m.resolve_x(i, dt).players[1 - i] == m.players[1 - i],
{
    lemma_capture_changes_one_cell(m, m.tentative_x(i, dt), m.players[i].position.y as int, i);
}

proof fn lemma_resolve_y_cells(m: GameModel, i: int, dt: int)
    requires
        m.board.valid(),
        m.players.len() == 2,
        0 <= i < 2,
    ensures
        board_changed_at_most_at(
            m.board,
            m.resolve_y(i, dt).board,
            y_claim_index(m, i, dt),
            i as usize,
        ),
        same_frame(m, m.resolve_y(i, dt)),
        m.resolve_y(i, dt).players[1 - i] == m.players[1 - i],
{
    lemma_capture_changes_one_cell(m, m.players[i].position.x as int, m.tentative_y(i, dt), i);
}

/// `b` equals `a` at every index outside `ks`.
pub open spec fn unchanged_outside(a: Seq<usize>, b: Seq<usize>, ks: Seq<int>) -> bool {
    &&& a.len() == b.len()
    &&& forall|j: int| 0 <= j < a.len() && !ks.contains(j) ==> #[trigger] b[j] == a[j]
}

/// Every cell of `b` that differs from `a` is held by `agent`.
pub open spec fn changes_go_to(a: Seq<usize>, b: Seq<usize>, agent: usize) -> bool {
    forall|j: int| 0 <= j < a.len() && b[j] != a[j] ==> #[trigger] b[j] == agent
}

/// One agent's move changes the owner of at most two cells, one per axis, and each
/// changed cell passes to that agent.
pub proof fn lemma_agent_step_changes_at_most_two_cells(m: GameModel, i: int, dt: int)
    requires
        m.valid(),
        0 <= i < 2,
    ensures
        exists|ks: Seq<int>|
            ks.len() == 2 && #[trigger] unchanged_outside(
                m.board.cells,
                m.agent_step(i, dt).board.cells,
                ks,
            ),
        changes_go_to(m.board.cells, m.agent_step(i, dt).board.cells, i as usize),
{
    let mx = m.resolve_x(i, dt);
    lemma_resolve_x_cells(m, i, dt);
    lemma_resolve_y_cells(mx, i, dt);
    let ks = seq![x_claim_index(m, i, dt), y_claim_index(mx, i, dt)];
    let a = m.board.cells;
    let b = m.agent_step(i, dt).board.cells;
    assert forall|j: int| 0 <= j < a.len() && !ks.contains(j) implies #[trigger] b[j] == a[j] by {
        if j == ks[0] || j == ks[1] {
            assert(ks.contains(j));
        }
        assert(mx.board.cells[j] == a[j]);
    }
    assert(unchanged_outside(a, b, ks));
    assert forall|j: int|
        0 <= j < a.len() && b[j] != a[j] implies #[trigger] b[j] == i as usize by {
        assert(mx.board.cells[j] == a[j] || mx.board.cells[j] == i as usize);
    }
}

/// Every cell that differs between `a` and `b` and is held by `agent` in `b` lies in `ks`.
pub open spec fn gains_within(a: Seq<usize>, b: Seq<usize>, agent: usize, ks: Seq<int>) -> bool {
    forall|j: int| 0 <= j < a.len() && #[trigger] b[j] != a[j] && b[j] == agent ==> ks.contains(j)
}

/// One update changes the owner of at most two cells per agent: the cells that an
/// agent gains lie among two indices, and at most four cells change in all.
pub proof fn lemma_update_changes_at_most_two_cells_per_agent(m: GameModel, dt: int)
    requires
        m.valid(),
    ensures
        exists|ks: Seq<int>|
            ks.len() == 2 && #[trigger] gains_within(m.board.cells, m.step(dt).board.cells, 0, ks),
        exists|ks: Seq<int>|
            ks.len() == 2 && #[trigger] gains_within(m.board.cells, m.step(dt).board.cells, 1, ks),
        exists|ks: Seq<int>|
            ks.len() == 4 && #[trigger] unchanged_outside(
                m.board.cells,
                m.step(dt).board.cells,
                ks,
            ),
{
    let m0 = m;
    let mx0 = m0.resolve_x(0, dt);
    let m1 = m0.agent_step(0, dt);
    let mx1 = m1.resolve_x(1, dt);
    lemma_resolve_x_cells(m0, 0, dt);
    lemma_resolve_y_cells(mx0, 0, dt);
    lemma_resolve_x_cells(m1, 1, dt);
    lemma_resolve_y_cells(mx1, 1, dt);
    let ks = seq![
        x_claim_index(m0, 0, dt),
        y_claim_index(mx0, 0, dt),
        x_claim_index(m1, 1, dt),
        y_claim_index(mx1, 1, dt),
    ];
    let a = m.board.cells;
    let b = m.step(dt).board.cells;
    assert forall|j: int| 0 <= j < a.len() && !ks.contains(j) implies #[trigger] b[j] == a[j] by {
        if j == ks[0] || j == ks[1] || j == ks[2] || j == ks[3] {
            assert(ks.contains(j));
        }
        assert(mx0.board.cells[j] == a[j]);
        assert(m1.board.cells[j] == a[j]);
        assert(mx1.board.cells[j] == a[j]);
    }
    assert(unchanged_outside(a, b, ks));
    let ks0 = seq![ks[0], ks[1]];
    let ks1 = seq![ks[2], ks[3]];
    assert forall|j: int| 0 <= j < a.len() && #[trigger] b[j] != a[j] && b[j] == 0 implies ks0.contains(j) by {
        if j != ks[0] && j != ks[1] {
            assert(mx0.board.cells[j] == a[j]);
            assert(m1.board.cells[j] == a[j]);
            assert(mx1.board.cells[j] == a[j] || mx1.board.cells[j] == 1);
            assert(b[j] == mx1.board.cells[j] || b[j] == 1);
        } else if j == ks[0] {
            assert(ks0[0] == j);
        } else {
            assert(ks0[1] == j);
        }
    }
    assert(gains_within(a, b, 0, ks0));
    assert forall|j: int| 0 <= j < a.len() && #[trigger] b[j] != a[j] && b[j] == 1 implies ks1.contains(j) by {
        if j != ks[2] && j != ks[3] {
            assert(mx0.board.cells[j] == a[j] || mx0.board.cells[j] == 0);
            assert(m1.board.cells[j] == mx0.board.cells[j] || m1.board.cells[j] == 0);
            assert(mx1.board.cells[j] == m1.board.cells[j]);
            assert(b[j] == mx1.board.cells[j]);
        } else if j == ks[2] {
            assert(ks1[0] == j);
        } else {
            assert(ks1[1] == j);
        }
    }
    assert(gains_within(a, b, 1, ks1));
}

/// How one axis of agent `i`'s move resolves: if the move is blocked (by a wall or a
/// capture) the direction component is reversed and the coordinate kept; otherwise
/// the coordinate becomes the tentative one and the direction is kept. Never both.
pub proof fn lemma_direction_reversal(m: GameModel, i: int, dt: int)
    requires
        m.valid(),
        0 <= i < 2,
    ensures
        ({
            let p = m.players[i];
            let q = m.agent_step(i, dt).players[i];
            let mx = m.resolve_x(i, dt);
            &&& m.x_blocked(i, dt) ==> q.direction.x == -p.direction.x && q.position.x
                == p.position.x
            &&& !m.x_blocked(i, dt) ==> q.direction.x == p.direction.x && q.position.x
                == m.tentative_x(i, dt)
            &&& mx.y_blocked(i, dt) ==> q.direction.y == -p.direction.y && q.position.y
                == p.position.y
            &&& !mx.y_blocked(i, dt) ==> q.direction.y == p.direction.y && q.position.y
                == m.tentative_y(i, dt)
            &&& q.speed == p.speed
        }),
{
    let mx = m.resolve_x(i, dt);
    lemma_resolve_x_cells(m, i, dt);
    assert(mx.players[i].direction.y == m.players[i].direction.y);
    assert(mx.players[i].position.y == m.players[i].position.y);
    assert(mx.tentative_y(i, dt) == m.tentative_y(i, dt));
}

proof fn lemma_agent_step_keeps_contained(m: GameModel, i: int, dt: int)
    requires
        m.valid(),
        0 <= i < 2,
        m.contained(0),
        m.contained(1),
    ensures
        m.agent_step(i, dt).valid(),
        m.agent_step(i, dt).contained(0),
        m.agent_step(i, dt).contained(1),
{
    let mx = m.resolve_x(i, dt);
    let n = m.agent_step(i, dt);
    lemma_resolve_x_cells(m, i, dt);
    lemma_resolve_y_cells(mx, i, dt);
    assert(mx.players[1 - i] == m.players[1 - i]);
    assert(n.players[1 - i] == m.players[1 - i]);
    assert forall|k: int|
        0 <= k < mx.board.cells.len() implies #[trigger] mx.board.cells[k] < 2 by {
        assert(m.board.cells[k] < 2);
    }
    assert forall|k: int| 0 <= k < n.board.cells.len() implies #[trigger] n.board.cells[k] < 2 by {
        assert(mx.board.cells[k] < 2);
    }
    assert(mx.valid()) by {
        assert forall|j: int|
            0 <= j < 2 implies player_ok(#[trigger] mx.players[j], mx.screen_width, mx.screen_height) by {
            assert(player_ok(m.players[j], m.screen_width, m.screen_height));
        }
    }
    assert forall|j: int|
        0 <= j < 2 implies player_ok(#[trigger] n.players[j], n.screen_width, n.screen_height) by {
        assert(player_ok(mx.players[j], mx.screen_width, mx.screen_height));
    }
}

/// Once both agents' footprints lie inside the screen they stay inside after every
/// update: a coordinate is committed only where the footprint fits.
pub proof fn lemma_update_keeps_agents_on_screen(m: GameModel, dt: int)
    requires
        m.valid(),
        m.contained(0),
        m.contained(1),
    ensures
        m.step(dt).valid(),
        m.step(dt).contained(0),
        m.step(dt).contained(1),
{
    lemma_agent_step_keeps_contained(m, 0, dt);
    lemma_agent_step_keeps_contained(m.agent_step(0, dt), 1, dt);
}

/// Agent `i` covers no distance in `dt` ticks.
pub open spec fn standing(m: GameModel, i: int, dt: int) -> bool {
    m.tentative_x(i, dt) == m.players[i].position.x && m.tentative_y(i, dt)
        == m.players[i].position.y
}

proof fn lemma_standing_agent_step(m: GameModel, i: int, dt: int)
    requires
        m.valid(),
        m.settled(),
        0 <= i < 2,
        standing(m, i, dt),
    ensures
        m.agent_step(i, dt) == m,
{
    let p = m.players[i];
    assert(m.contained(i));
    let mx = m.resolve_x(i, dt);
    assert(mx.players =~= m.players);
    assert(mx == m);
    assert(m.resolve_y(i, dt).players =~= m.players);
}

/// From a settled state, updates during which no agent covers any distance (a zero
/// time step, or speed zero for both agents) change nothing, however many follow.
pub proof fn lemma_standing_still_changes_nothing(m: GameModel, dt: int, n: nat)
    requires
        m.valid(),
        m.settled(),
        dt == 0 || (m.players[0].speed == 0 && m.players[1].speed == 0),
    ensures
        m.steps(dt, n) == m,
    decreases n,
{
    lemma_no_motion_is_standing(m, 0, dt);
    lemma_no_motion_is_standing(m, 1, dt);
    lemma_standing_agent_step(m, 0, dt);
    lemma_standing_agent_step(m, 1, dt);
    if n > 0 {
        lemma_standing_still_changes_nothing(m, dt, (n - 1) as nat);
    }
}

/// From a settled state, after both speeds are set to zero, updates of any length
/// leave positions, directions and board as they were.
pub proof fn lemma_zero_speed_changes_nothing(m: GameModel, dt: int, n: nat)
    requires
        m.valid(),
        m.settled(),
    ensures
        m.with_speed(0).steps(dt, n) == m.with_speed(0),
{
    let z = m.with_speed(0);
    assert(m.contained(0) && m.contained(1));
    lemma_speed_change_keeps_contained(m, 0);
    assert(z.players[0] == Player { speed: 0, ..m.players[0] });
    assert(z.players[1] == Player { speed: 0, ..m.players[1] });
    assert(z.settled()) by {
        assert forall|j: int| 0 <= j < 2 implies {
            &&& #[trigger] z.contained(j)
            &&& z.footprint_claim(
                z.players[j].position.x as int,
                z.players[j].position.y as int,
                j,
            ) is None
        } by {
            assert(m.contained(j));
            assert(z.players[j] == Player { speed: 0, ..m.players[j] });
        }
    }
    lemma_standing_still_changes_nothing(z, dt, n);
}

proof fn lemma_no_motion_is_standing(m: GameModel, i: int, dt: int)
    requires
        m.valid(),
        0 <= i < 2,
        dt == 0 || m.players[i].speed == 0,
    ensures
        standing(m, i, dt),
{
    let p = m.players[i];
    let vx = velocity_of(p.direction.x as int, p.speed as int);
    let vy = velocity_of(p.direction.y as int, p.speed as int);
    if dt == 0 {
        assert(vx * dt == 0 && vy * dt == 0) by (nonlinear_arith)
            requires
                dt == 0,
        ;
    } else {
        assert(p.direction.x * p.speed == 0 && p.direction.y * p.speed == 0) by (nonlinear_arith)
            requires
                p.speed == 0,
        ;
        assert(vx == 0 && vy == 0);
        assert(vx * dt == 0 && vy * dt == 0) by (nonlinear_arith)
            requires
                vx == 0,
                vy == 0,
        ;
    }
}

proof fn lemma_standing_step_keeps_positions(m: GameModel, dt: int)
    requires
        m.valid(),
        m.contained(0),
        m.contained(1),
        standing(m, 0, dt),
        standing(m, 1, dt),
    ensures
        m.step(dt).valid(),
        m.step(dt).contained(0),
        m.step(dt).contained(1),
        m.step(dt).players[0].position == m.players[0].position,
        m.step(dt).players[1].position == m.players[1].position,
        m.step(dt).players[0].speed == m.players[0].speed,
        m.step(dt).players[1].speed == m.players[1].speed,
{
    let m1 = m.agent_step(0, dt);
    lemma_direction_reversal(m, 0, dt);
    lemma_agent_step_keeps_contained(m, 0, dt);
    lemma_resolve_x_cells(m, 0, dt);
    lemma_resolve_y_cells(m.resolve_x(0, dt), 0, dt);
    assert(m1.players[1] == m.players[1]);
    assert(standing(m1, 1, dt));
    lemma_direction_reversal(m1, 1, dt);
    lemma_agent_step_keeps_contained(m1, 1, dt);
    lemma_resolve_x_cells(m1, 1, dt);
    lemma_resolve_y_cells(m1.resolve_x(1, dt), 1, dt);
    assert(m.step(dt).players[0] == m1.players[0]);
}

/// Updates during which no agent covers any distance (a zero time step, or speed
/// zero for both agents) never move an agent whose footprint lies on the screen,
/// however many follow; only a direction may turn, when a capture happens.
pub proof fn lemma_standing_still_keeps_positions(m: GameModel, dt: int, n: nat)
    requires
        m.valid(),
        m.contained(0),
        m.contained(1),
        dt == 0 || (m.players[0].speed == 0 && m.players[1].speed == 0),
    ensures
        m.steps(dt, n).players[0].position == m.players[0].position,
        m.steps(dt, n).players[1].position == m.players[1].position,
    decreases n,
{
    if n > 0 {
        lemma_no_motion_is_standing(m, 0, dt);
        lemma_no_motion_is_standing(m, 1, dt);
        lemma_standing_step_keeps_positions(m, dt);
        lemma_standing_still_keeps_positions(m.step(dt), dt, (n - 1) as nat);
    }
}

/// A call that the host makes on the simulation between frames.
pub enum HostCall {
    Update(i64),
    SetSpeed(i64),
}

pub open spec fn host_call_ok(c: HostCall) -> bool {
    match c {
        HostCall::SetSpeed(speed) => speed >= -i64::MAX,
        HostCall::Update(_) => true,
    }
}

pub open spec fn apply_call(m: GameModel, c: HostCall) -> GameModel {
    match c {
        HostCall::Update(dt) => m.step(dt as int),
        HostCall::SetSpeed(speed) => m.with_speed(speed),
    }
}

/// The model after the host's calls, in order.
pub open spec fn run_calls(m: GameModel, calls: Seq<HostCall>) -> GameModel
    decreases calls.len(),
{
    if calls.len() == 0 {
        m
    } else {
        run_calls(apply_call(m, calls[0]), calls.drop_first())
    }
}

proof fn lemma_speed_change_keeps_contained(m: GameModel, speed: i64)
    requires
        m.valid(),
        m.contained(0),
        m.contained(1),
        speed >= -i64::MAX,
    ensures
        m.with_speed(speed).valid(),
        m.with_speed(speed).contained(0),
        m.with_speed(speed).contained(1),
{
    let z = m.with_speed(speed);
    assert forall|j: int|
        0 <= j < 2 implies player_ok(#[trigger] z.players[j], z.screen_width, z.screen_height) by {
        assert(player_ok(m.players[j], m.screen_width, m.screen_height));
        assert(z.players[j] == Player { speed, ..m.players[j] });
    }
    assert(z.players[0] == Player { speed, ..m.players[0] });
    assert(z.players[1] == Player { speed, ..m.players[1] });
}

/// Whatever the host calls, in any number and order (updates of any length, speed
/// changes), both agents' footprints stay inside the screen once they start there.
pub proof fn lemma_host_calls_keep_agents_on_screen(m: GameModel, calls: Seq<HostCall>)
    requires
        m.valid(),
        m.contained(0),
        m.contained(1),
        forall|k: int| 0 <= k < calls.len() ==> host_call_ok(#[trigger] calls[k]),
    ensures
        run_calls(m, calls).valid(),
        run_calls(m, calls).contained(0),
        run_calls(m, calls).contained(1),
    decreases calls.len(),
{
    if calls.len() > 0 {
        let next = apply_call(m, calls[0]);
        match calls[0] {
            HostCall::Update(dt) => lemma_update_keeps_agents_on_screen(m, dt as int),
            HostCall::SetSpeed(speed) => {
                assert(host_call_ok(calls[0]));
                lemma_speed_change_keeps_contained(m, speed);
            },
        }
        let rest = calls.drop_first();
        assert forall|k: int| 0 <= k < rest.len() implies host_call_ok(#[trigger] rest[k]) by {
            assert(rest[k] == calls[k + 1]);
        }
        lemma_host_calls_keep_agents_on_screen(next, rest);
    }
}

} // verus!
