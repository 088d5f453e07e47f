use territory::board::Board;
use territory::game::{
    GameState, Player, BACKGROUND_COLOR, BLACK, DIAGONAL, DIRECTION_ONE, PLAYER_1_CELL_COLOR,
    PLAYER_1_COLOR, PLAYER_2_CELL_COLOR, PLAYER_2_COLOR, TICKS_PER_SECOND, WHITE,
};
use territory::render::DrawCommand;
use territory::geometry::{circle_intersects_rect, Vector2};

fn cells_of(board: &Board) -> Vec<usize> {
    let mut cells = Vec::new();
    for y in 0..board.height() {
        for x in 0..board.width() {
            cells.push(board.owner_at(x, y));
        }
    }
    cells
}

fn contained(g: &GameState, p: &Player) -> bool {
    let r = g.player_radius();
    r <= p.position.x
        && p.position.x <= g.screen_width() - r
        && r <= p.position.y
        && p.position.y <= g.screen_height() - r
}

#[test]
fn board_new_splits_left_and_right() {
    let b = Board::new(5, 3, 0, 1);
    assert_eq!(b.width(), 5);
    assert_eq!(b.height(), 3);
    for y in 0..3 {
        for x in 0..5 {
            let expected = if x < 2 { 0 } else { 1 };
            assert_eq!(b.owner_at(x, y), expected);
        }
    }
}

#[test]
fn board_new_with_other_owners() {
    let b = Board::new(4, 2, 7, 3);
    assert_eq!(b.owner_at(0, 0), 7);
    assert_eq!(b.owner_at(1, 1), 7);
    assert_eq!(b.owner_at(2, 0), 3);
    assert_eq!(b.owner_at(3, 1), 3);
}

#[test]
fn board_single_column_belongs_to_right_owner() {
    let b = Board::new(1, 1, 0, 1);
    assert_eq!(b.owner_at(0, 0), 1);
}

#[test]
fn set_owner_changes_one_cell() {
    let mut b = Board::new(4, 2, 0, 1);
    b.set_owner(3, 1, 0);
    assert_eq!(b.owner_at(3, 1), 0);
    assert_eq!(b.owner_at(3, 0), 1);
    assert_eq!(b.owner_at(2, 1), 1);
}

#[test]
fn claim_takes_first_cell_in_column_order() {
    let mut b = Board::new(4, 4, 0, 1);
    // box covers columns 1..3 and rows 1..3; first enemy cell is column 2, row 1
    let r = b.claim_first_in(1, 1, 3, 3, 0);
    assert_eq!(r, Some((2, 1)));
    assert_eq!(b.owner_at(2, 1), 0);
    assert_eq!(b.owner_at(2, 2), 1);
}

#[test]
fn claim_scans_rows_within_a_column() {
    let mut b = Board::new(4, 4, 0, 1);
    b.set_owner(2, 0, 0);
    let r = b.claim_first_in(2, 0, 4, 4, 0);
    assert_eq!(r, Some((2, 1)));
}

#[test]
fn claim_skips_cells_off_the_board() {
    let mut b = Board::new(4, 2, 0, 1);
    let r = b.claim_first_in(-3, -3, 1, 1, 1);
    assert_eq!(r, Some((0, 0)));
    assert_eq!(b.owner_at(0, 0), 1);
    let mut c = Board::new(4, 2, 0, 1);
    assert_eq!(c.claim_first_in(4, 0, 9, 2, 0), None);
    assert_eq!(c.claim_first_in(-5, -5, 0, 0, 0), None);
}

#[test]
fn claim_reports_none_on_own_ground() {
    let mut b = Board::new(6, 3, 0, 1);
    let before = cells_of(&b);
    assert_eq!(b.claim_first_in(0, 0, 3, 3, 0), None);
    assert_eq!(cells_of(&b), before);
}

#[test]
fn claim_on_empty_box_changes_nothing() {
    let mut b = Board::new(6, 3, 0, 1);
    assert_eq!(b.claim_first_in(4, 1, 4, 3, 0), None);
    assert_eq!(b.claim_first_in(5, 2, 3, 1, 0), None);
}

#[test]
fn circle_inside_rect_counts() {
    assert!(circle_intersects_rect(0, 10, 0, 10, 5, 5, 0));
}

#[test]
fn circle_touching_rect_edge_counts() {
    assert!(circle_intersects_rect(0, 10, 0, 10, 13, 5, 3));
    assert!(!circle_intersects_rect(0, 10, 0, 10, 14, 5, 3));
}

#[test]
fn circle_near_corner() {
    // distance from (13, 14) to corner (10, 10) is 5
    assert!(circle_intersects_rect(0, 10, 0, 10, 13, 14, 5));
    assert!(!circle_intersects_rect(0, 10, 0, 10, 13, 14, 4));
    assert!(!circle_intersects_rect(0, 10, 0, 10, -4, -4, 5));
}

#[test]
fn velocity_is_direction_times_speed() {
    let p = Player {
        position: Vector2 { x: 0, y: 0 },
        direction: Vector2 { x: DIAGONAL, y: -DIAGONAL },
        speed: 500_000,
        color: 0,
        cell_color: 0,
    };
    let v = p.velocity();
    assert_eq!(v.x, 353_553);
    assert_eq!(v.y, -353_553);
}

#[test]
fn default_start_layout() {
    let g = GameState::new();
    assert_eq!(g.screen_width(), 800_000);
    assert_eq!(g.screen_height(), 400_000);
    assert_eq!(g.cell_size(), 20_000);
    assert_eq!(g.player_radius(), 20_000);
    let first = g.player(0);
    let second = g.player(1);
    assert_eq!(first.position, Vector2 { x: 200_000, y: 200_000 });
    assert_eq!(second.position, Vector2 { x: 600_000, y: 200_000 });
    assert_eq!(first.direction, Vector2 { x: DIAGONAL, y: DIAGONAL });
    assert_eq!(second.direction, Vector2 { x: -DIAGONAL, y: -DIAGONAL });
    assert_eq!(first.speed, 500_000);
    assert_eq!(g.board().width(), 40);
    assert_eq!(g.board().height(), 20);
    assert_eq!(g.board().owner_at(19, 5), 0);
    assert_eq!(g.board().owner_at(20, 5), 1);
}

#[test]
fn initialize_uses_given_grid() {
    let g = GameState::initialize(8, 4, 10, 7);
    assert_eq!(g.screen_width(), 80);
    assert_eq!(g.screen_height(), 40);
    assert_eq!(g.player(0).position, Vector2 { x: 20, y: 20 });
    assert_eq!(g.player(1).position, Vector2 { x: 60, y: 20 });
    assert_eq!(g.player(1).speed, 7);
    assert_eq!(g.board().owner_at(3, 3), 0);
    assert_eq!(g.board().owner_at(4, 0), 1);
}

#[test]
fn one_small_step_moves_both_players_by_velocity() {
    let mut g = GameState::new();
    let before = cells_of(g.board());
    g.update(1_000);
    // velocity 353_553 units per second for 1_000 ticks of a million per second
    assert_eq!(g.player(0).position, Vector2 { x: 200_353, y: 200_353 });
    assert_eq!(g.player(1).position, Vector2 { x: 599_647, y: 199_647 });
    assert_eq!(g.player(0).direction, Vector2 { x: DIAGONAL, y: DIAGONAL });
    assert_eq!(cells_of(g.board()), before);
    assert_eq!(TICKS_PER_SECOND, 1_000_000);
}

#[test]
fn charging_player_captures_first_enemy_cell_and_bounces() {
    let mut g = GameState::new();
    g.set_player_direction(0, Vector2 { x: DIRECTION_ONE, y: 0 });
    let mut frames = 0;
    loop {
        let x_before = g.player(0).position.x;
        g.update(10_000);
        frames += 1;
        assert!(frames < 100);
        if g.board().owner_at(20, 9) == 0 {
            let p = g.player(0);
            assert_eq!(p.direction.x, -DIRECTION_ONE);
            assert_eq!(p.position.x, x_before);
            assert_eq!(x_before, 395_000);
            assert_eq!(g.board().owner_at(20, 10), 1);
            break;
        }
        assert_eq!(g.player(0).direction.x, DIRECTION_ONE);
    }
    assert_eq!(frames, 40);
}

#[test]
fn zero_speed_keeps_everything_still() {
    let mut g = GameState::new();
    g.set_player_speed(0);
    let first = g.player(0);
    let second = g.player(1);
    let before = cells_of(g.board());
    for _ in 0..10 {
        g.update(1_000_000);
    }
    assert_eq!(g.player(0), first);
    assert_eq!(g.player(1), second);
    assert_eq!(cells_of(g.board()), before);
}

#[test]
fn zero_time_step_keeps_everything_still() {
    let mut g = GameState::new();
    let first = g.player(0);
    let second = g.player(1);
    let before = cells_of(g.board());
    for _ in 0..5 {
        g.update(0);
    }
    assert_eq!(g.player(0), first);
    assert_eq!(g.player(1), second);
    assert_eq!(cells_of(g.board()), before);
}

#[test]
fn long_run_keeps_players_on_screen_and_rules_per_frame() {
    let mut g = GameState::new();
    for _ in 0..3000 {
        let old = [g.player(0), g.player(1)];
        let before = cells_of(g.board());
        g.update(16_667);
        let after = cells_of(g.board());
        let changed = before.iter().zip(after.iter()).filter(|(a, b)| a != b).count();
        assert!(changed <= 4);
        for i in 0..2 {
            let p = g.player(i);
            assert!(contained(&g, &p));
            let o = old[i];
            if p.direction.x != o.direction.x {
                assert_eq!(p.direction.x, -o.direction.x);
                assert_eq!(p.position.x, o.position.x);
            }
            if p.direction.y != o.direction.y {
                assert_eq!(p.direction.y, -o.direction.y);
                assert_eq!(p.position.y, o.position.y);
            }
        }
    }
}

#[test]
fn wall_bounce_reverses_direction() {
    let mut g = GameState::new();
    g.set_player_direction(1, Vector2 { x: 0, y: -DIRECTION_ONE });
    g.set_player_direction(0, Vector2 { x: 0, y: 0 });
    // player 1 starts at y = 200_000 with radius 20_000: 180_000 units to the top
    g.update(360_000);
    assert_eq!(g.player(1).position.y, 20_000);
    assert_eq!(g.player(1).direction.y, -DIRECTION_ONE);
    g.update(1_000);
    assert_eq!(g.player(1).position.y, 20_000);
    assert_eq!(g.player(1).direction.y, DIRECTION_ONE);
}

#[test]
fn speed_change_applies_to_both_players() {
    let mut g = GameState::new();
    g.set_player_speed(-250);
    assert_eq!(g.player(0).speed, -250);
    assert_eq!(g.player(1).speed, -250);
}

#[test]
fn board_commands_cover_every_cell_in_row_order() {
    let g = GameState::initialize(4, 2, 10, 5);
    let c = g.board_draw_commands();
    assert_eq!(c.len(), 1 + 2 * 8);
    assert_eq!(c[0], DrawCommand::Clear { color: BACKGROUND_COLOR });
    assert_eq!(c[1], DrawCommand::FillRect { x: 0, y: 0, w: 10, h: 10, color: PLAYER_1_CELL_COLOR });
    assert_eq!(c[2], DrawCommand::FillRectBorder { x: 0, y: 0, w: 10, h: 10, color: BLACK });
    // cell (3, 1) is the last one
    assert_eq!(c[15], DrawCommand::FillRect { x: 30, y: 10, w: 10, h: 10, color: PLAYER_2_CELL_COLOR });
    assert_eq!(c[16], DrawCommand::FillRectBorder { x: 30, y: 10, w: 10, h: 10, color: BLACK });
}

#[test]
fn board_commands_follow_captures() {
    let mut g = GameState::new();
    g.set_player_direction(0, Vector2 { x: DIRECTION_ONE, y: 0 });
    for _ in 0..40 {
        g.update(10_000);
    }
    assert_eq!(g.board().owner_at(20, 9), 0);
    let c = g.board_draw_commands();
    let k = 9 * 40 + 20;
    assert_eq!(
        c[1 + 2 * k],
        DrawCommand::FillRect { x: 400_000, y: 180_000, w: 20_000, h: 20_000, color: PLAYER_1_CELL_COLOR }
    );
}

#[test]
fn player_commands_draw_both_players() {
    let g = GameState::new();
    let c = g.player_draw_commands();
    assert_eq!(
        c,
        vec![
            DrawCommand::FillCircle { x: 200_000, y: 200_000, r: 20_000, color: PLAYER_1_COLOR },
            DrawCommand::FillCircleBorder { x: 200_000, y: 200_000, r: 20_000, color: WHITE },
            DrawCommand::FillCircle { x: 600_000, y: 200_000, r: 20_000, color: PLAYER_2_COLOR },
            DrawCommand::FillCircleBorder { x: 600_000, y: 200_000, r: 20_000, color: WHITE },
        ]
    );
}

#[test]
fn footprint_box_covers_cells_the_disc_misses() {
    // a disc of radius 10 centred at (49, 49) on 10-unit cells has the cell box
    // [3, 5) x [3, 5); its corner cell (3, 3) lies outside the disc but is covered
    assert!(!circle_intersects_rect(30, 40, 30, 40, 49, 49, 10));
    let mut b = Board::new(8, 8, 1, 1);
    assert_eq!(b.claim_first_in(3, 3, 5, 5, 0), Some((3, 3)));
    assert_eq!(b.owner_at(3, 3), 0);
}

#[test]
fn speed_zero_after_moving_keeps_everything_still() {
    let mut g = GameState::new();
    for _ in 0..50 {
        g.update(16_667);
    }
    g.set_player_speed(0);
    g.update(1_000_000);
    let first = g.player(0);
    let second = g.player(1);
    let before = cells_of(g.board());
    for _ in 0..10 {
        g.update(1_000_000);
    }
    assert_eq!(g.player(0).position, first.position);
    assert_eq!(g.player(1).position, second.position);
    assert_eq!(cells_of(g.board()), before);
}

#[test]
fn resolver_off_screen_claims_nothing() {
    let mut g = GameState::new();
    let before = cells_of(g.board());
    assert!(!g.player_eats_enemy_cell(200_000, 200_000, 0));
    assert!(!g.player_eats_enemy_cell(900_000, 200_000, 0));
    assert!(!g.player_eats_enemy_cell(-100_000, 200_000, 1));
    assert!(!g.player_eats_enemy_cell(200_000, -300_000, 1));
    assert!(!g.player_eats_enemy_cell(200_000, 900_000, 1));
    assert_eq!(cells_of(g.board()), before);
}

#[test]
fn resolver_partly_off_screen_claims_the_cell_on_the_board() {
    let mut g = GameState::new();
    // box covers columns -1..1 and rows -1..1: only cell (0, 0) lies on the board
    assert!(g.player_eats_enemy_cell(0, 10_000, 1));
    assert_eq!(g.board().owner_at(0, 0), 1);
    assert_eq!(g.board().owner_at(0, 1), 0);
    assert_eq!(g.board().owner_at(1, 0), 0);
    // the cell is now its own: nothing more to claim there
    assert!(!g.player_eats_enemy_cell(0, 10_000, 1));
}

#[test]
fn mixed_speed_changes_and_updates_keep_players_on_screen() {
    let mut g = GameState::new();
    let speeds = [500_000, 2_000_000, -750_000, 0, 9_000_000, 120_000];
    for round in 0..600 {
        if round % 50 == 0 {
            g.set_player_speed(speeds[(round / 50) % speeds.len()]);
        }
        g.update(((round % 7) as i64 + 1) * 9_000);
        for i in 0..2 {
            let p = g.player(i);
            assert!(contained(&g, &p));
        }
    }
}
