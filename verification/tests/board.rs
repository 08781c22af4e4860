use factory_sim::board::{
    ivec2, manhattan, same_tile, tile_of, vec3, vec3_to_ivec2, Entity, GameBoard, IVec2, Vec2,
};

fn block(b: &mut GameBoard, x: i32, y: i32) {
    let idx = b.ls_to_idx(IVec2::new(x, y));
    b.board[idx] = Some(Entity { index: 1 });
}

fn is_move(a: IVec2, b: IVec2) -> bool {
    let (dx, dy) = (b.x - a.x, b.y - a.y);
    dx.abs() <= 1 && dy.abs() <= 1 && (dx, dy) != (0, 0)
}

#[test]
fn new_board_is_empty() {
    let b = GameBoard::new(ivec2(1, 2), [3, 5], ivec2(0, 0), ivec2(2, 4));
    assert_eq!(b.board.len(), 15);
    assert_eq!(b.has_blobby.len(), 15);
    assert!(b.board.iter().all(|t| t.is_none()));
    assert_eq!(b.position, ivec2(1, 2));
}

#[test]
fn default_board_is_24_by_24() {
    let b = GameBoard::default();
    assert_eq!(b.size, [24, 24]);
    assert_eq!(b.position, ivec2(-12, -12));
    assert_eq!(b.board.len(), 576);
}

#[test]
fn index_is_row_major() {
    let b = GameBoard::new(ivec2(0, 0), [3, 5], ivec2(0, 0), ivec2(0, 0));
    assert_eq!(b.ls_to_idx(ivec2(0, 0)), 0);
    assert_eq!(b.ls_to_idx(ivec2(2, 0)), 2);
    assert_eq!(b.ls_to_idx(ivec2(0, 1)), 3);
    assert_eq!(b.ls_to_idx(ivec2(2, 4)), 14);
    assert_eq!(b.idx_to_ls(14), ivec2(2, 4));
    assert_eq!(b.idx_to_ls(3), ivec2(0, 1));
}

#[test]
fn index_clamps_to_the_nearest_tile() {
    let b = GameBoard::default();
    assert_eq!(b.ls_to_idx(ivec2(-1, 5)), b.ls_to_idx(ivec2(0, 5)));
    assert_eq!(b.ls_to_idx(ivec2(24, 5)), b.ls_to_idx(ivec2(23, 5)));
    assert_eq!(b.ls_to_idx(ivec2(5, -7)), b.ls_to_idx(ivec2(5, 0)));
    assert_eq!(b.ls_to_idx(ivec2(5, 1000)), b.ls_to_idx(ivec2(5, 23)));
    assert_eq!(b.ls_to_idx(ivec2(i32::MIN, i32::MAX)), b.ls_to_idx(ivec2(0, 23)));
    assert_eq!(b.ls_to_idx(ivec2(200, 200)), 575);
}

#[test]
fn index_round_trips_on_the_board() {
    let b = GameBoard::new(ivec2(0, 0), [4, 3], ivec2(0, 0), ivec2(0, 0));
    for idx in 0..12 {
        assert_eq!(b.ls_to_idx(b.idx_to_ls(idx)), idx);
    }
}

#[test]
fn world_and_board_coordinates_are_inverse() {
    let b = GameBoard::default();
    assert_eq!(b.ls_to_ws(ivec2(0, 0)), ivec2(-12, -12));
    assert_eq!(b.ws_to_ls(ivec2(-12, -12)), ivec2(0, 0));
    for p in [ivec2(3, 4), ivec2(-100, 7), ivec2(i32::MAX, i32::MIN)] {
        assert_eq!(b.ws_to_ls(b.ls_to_ws(p)), p);
        assert_eq!(b.ls_to_ws(b.ws_to_ls(p)), p);
    }
}

#[test]
fn world_points_floor_to_tiles() {
    assert_eq!(tile_of(0), 0);
    assert_eq!(tile_of(999), 0);
    assert_eq!(tile_of(1000), 1);
    assert_eq!(tile_of(-1), -1);
    assert_eq!(tile_of(-1000), -1);
    assert_eq!(tile_of(-1001), -2);
    assert_eq!(tile_of(i64::MAX), i32::MAX);
    assert_eq!(tile_of(i64::MIN), i32::MIN);
    assert_eq!(vec3_to_ivec2(vec3(1500, 77, -2500)), ivec2(1, -3));
}

#[test]
fn a_point_within_a_tile_maps_to_that_tile() {
    let b = GameBoard::default();
    let centre = b.ls_to_ws_vec3(ivec2(5, 6));
    assert_eq!(centre, vec3(-6500, 0, -5500));
    assert_eq!(b.ws_vec3_to_ls(centre), ivec2(5, 6));
    assert_eq!(b.ws_vec3_to_ls(vec3(-7000, 0, -6000)), ivec2(5, 6));
    assert_eq!(b.ws_vec3_to_ls(vec3(-6001, 300, -5001)), ivec2(5, 6));
    assert_eq!(b.ws_vec3_to_ls(vec3(-6000, 0, -5000)), ivec2(6, 7));
}

#[test]
fn fractional_transforms_shift_by_the_origin() {
    let b = GameBoard::default();
    let ws = b.ls_to_ws_f(Vec2 { x: 2500, y: -300 });
    assert_eq!(ws, Vec2 { x: -9500, y: -12300 });
    assert_eq!(b.ws_to_ls_f(ws), Vec2 { x: 2500, y: -300 });
    assert_eq!(b.ls_f_to_ws_vec3(Vec2 { x: 2500, y: -300 }), vec3(-9000, 0, -11800));
    assert_eq!(b.ws_vec3_to_ls_f(vec3(-9500, 5, -12300)), Vec2 { x: 2500, y: -300 });
}

#[test]
fn successors_of_a_corner_and_of_the_middle() {
    let b = GameBoard::default();
    let s = b.successors(ivec2(0, 0));
    assert_eq!(s, vec![(ivec2(1, 0), 1), (ivec2(0, 1), 1), (ivec2(1, 1), 1)]);
    let m = b.successors(ivec2(5, 5));
    assert_eq!(
        m,
        vec![
            (ivec2(4, 5), 1),
            (ivec2(6, 5), 1),
            (ivec2(5, 4), 1),
            (ivec2(5, 6), 1),
            (ivec2(4, 4), 1),
            (ivec2(4, 6), 1),
            (ivec2(6, 4), 1),
            (ivec2(6, 6), 1),
        ]
    );
}

#[test]
fn successors_skip_occupied_tiles_and_the_far_edge() {
    let mut b = GameBoard::default();
    block(&mut b, 22, 23);
    let s = b.successors(ivec2(23, 23));
    assert_eq!(s, vec![(ivec2(23, 22), 1), (ivec2(22, 22), 1)]);
    assert!(b.successors(ivec2(i32::MAX, i32::MAX)).is_empty());
    assert!(b.successors(ivec2(i32::MIN, 0)).is_empty());
}

#[test]
fn manhattan_and_same_tile() {
    assert_eq!(manhattan(ivec2(0, 0), ivec2(3, -4)), 7);
    assert_eq!(manhattan(ivec2(i32::MIN, i32::MIN), ivec2(i32::MAX, i32::MAX)), u32::MAX);
    assert!(same_tile(ivec2(1, 2), ivec2(1, 2)));
    assert!(!same_tile(ivec2(1, 2), ivec2(2, 1)));
}

#[test]
fn path_on_empty_board_moves_diagonally() {
    let b = GameBoard::default();
    let (p, cost) = b.path(ivec2(0, 0), ivec2(3, 3)).unwrap();
    assert_eq!(p.first().copied(), Some(ivec2(0, 0)));
    assert_eq!(p.last().copied(), Some(ivec2(3, 3)));
    assert_eq!(cost as usize, p.len() - 1);
    assert_eq!(cost, 3);
}

#[test]
fn path_to_itself_is_a_single_waypoint() {
    let b = GameBoard::default();
    assert_eq!(b.path(ivec2(4, 4), ivec2(4, 4)), Some((vec![ivec2(4, 4)], 0)));
    assert_eq!(b.path(ivec2(-9, 40), ivec2(-9, 40)), Some((vec![ivec2(-9, 40)], 0)));
}

#[test]
fn path_avoids_occupied_tiles() {
    let mut b = GameBoard::default();
    for y in 0..23 {
        block(&mut b, 10, y);
    }
    let (p, cost) = b.path(ivec2(2, 2), ivec2(20, 2)).unwrap();
    assert_eq!(p[0], ivec2(2, 2));
    assert_eq!(*p.last().unwrap(), ivec2(20, 2));
    assert_eq!(cost as usize, p.len() - 1);
    for w in p.windows(2) {
        assert!(is_move(w[0], w[1]));
    }
    for t in &p[1..] {
        assert!(b.is_inside(*t));
        assert!(b.board[b.ls_to_idx(*t)].is_none());
    }
    assert!(p.contains(&ivec2(10, 23)));
    let mut seen = p.clone();
    seen.sort_by_key(|t| (t.x, t.y));
    seen.dedup();
    assert_eq!(seen.len(), p.len());
}

#[test]
fn path_to_walled_goal_is_none() {
    let mut b = GameBoard::default();
    for (x, y) in [(4, 4), (5, 4), (6, 4), (4, 5), (6, 5), (4, 6), (5, 6), (6, 6)] {
        block(&mut b, x, y);
    }
    assert!(b.path(ivec2(0, 0), ivec2(5, 5)).is_none());
    assert!(b.path(ivec2(5, 5), ivec2(0, 0)).is_none());
}

#[test]
fn path_to_an_occupied_or_outside_goal_is_none() {
    let mut b = GameBoard::default();
    block(&mut b, 7, 7);
    assert!(b.path(ivec2(0, 0), ivec2(7, 7)).is_none());
    assert!(b.path(ivec2(0, 0), ivec2(24, 3)).is_none());
    assert!(b.path(ivec2(0, 0), ivec2(-1, 0)).is_none());
    assert!(b.path(ivec2(0, 0), ivec2(i32::MAX, i32::MIN)).is_none());
}

#[test]
fn path_from_outside_enters_the_board() {
    let b = GameBoard::default();
    let (p, cost) = b.path(ivec2(-1, -1), ivec2(2, 2)).unwrap();
    assert_eq!(cost, 3);
    assert_eq!(p, vec![ivec2(-1, -1), ivec2(0, 0), ivec2(1, 1), ivec2(2, 2)]);
    assert!(b.path(ivec2(-5, -5), ivec2(2, 2)).is_none());
}

#[test]
fn destroy_clears_a_tile_and_is_idempotent() {
    let mut b = GameBoard::default();
    block(&mut b, 3, 3);
    let idx = b.ls_to_idx(ivec2(3, 3));
    b.destroy(idx);
    assert_eq!(b.board[idx], None);
    b.destroy(idx);
    assert_eq!(b.board[idx], None);
    assert!(b.board.iter().all(|t| t.is_none()));
}

#[test]
fn reset_has_blobby_clears_the_flags() {
    let mut b = GameBoard::default();
    b.has_blobby[5] = true;
    b.reset_has_blobby();
    assert_eq!(b.has_blobby.len(), 576);
    assert!(b.has_blobby.iter().all(|f| !f));
}

#[test]
fn clamping_twice_changes_nothing() {
    let b = GameBoard::new(ivec2(0, 0), [7, 4], ivec2(0, 0), ivec2(0, 0));
    for p in [ivec2(-3, 2), ivec2(9, 9), ivec2(3, -1), ivec2(6, 3), ivec2(i32::MAX, i32::MIN)] {
        let once = b.idx_to_ls(b.ls_to_idx(p));
        assert!(b.is_inside(once));
        assert_eq!(b.ls_to_idx(once), b.ls_to_idx(p));
        assert_eq!(b.idx_to_ls(b.ls_to_idx(once)), once);
    }
    assert_eq!(b.idx_to_ls(b.ls_to_idx(ivec2(-3, 2))), ivec2(0, 2));
    assert_eq!(b.idx_to_ls(b.ls_to_idx(ivec2(9, 9))), ivec2(6, 3));
}

#[test]
fn soundness_check_sees_a_broken_board() {
    let mut b = GameBoard::default();
    assert!(b.is_sound());
    b.board.pop();
    assert!(!b.is_sound());
    b.board.push(None);
    b.size = [0, 24];
    assert!(!b.is_sound());
    b.size = [usize::MAX, usize::MAX];
    assert!(!b.is_sound());
}

fn reachable_by_flooding(b: &GameBoard, start: IVec2, end: IVec2) -> bool {
    let mut seen = vec![start];
    let mut next = 0;
    while next < seen.len() {
        let here = seen[next];
        next += 1;
        if here == end {
            return true;
        }
        for dx in -1..=1 {
            for dy in -1..=1 {
                let there = ivec2(here.x + dx, here.y + dy);
                if (dx, dy) != (0, 0)
                    && b.is_inside(there)
                    && b.board[b.ls_to_idx(there)].is_none()
                    && !seen.contains(&there)
                {
                    seen.push(there);
                }
            }
        }
    }
    false
}

#[test]
fn path_agrees_with_flooding_on_scattered_boards() {
    let mut state: u64 = 0x2545_f491_4f6c_dd1d;
    let mut draw = move |n: u64| {
        state = state.wrapping_mul(6364136223846793005).wrapping_add(1442695040888963407);
        (state >> 33) % n
    };
    let mut found = 0;
    let mut missed = 0;
    for _ in 0..60 {
        let mut b = GameBoard::new(ivec2(0, 0), [9, 7], ivec2(0, 0), ivec2(0, 0));
        for _ in 0..(10 + draw(25)) {
            block(&mut b, draw(9) as i32, draw(7) as i32);
        }
        for _ in 0..40 {
            let start = ivec2(draw(11) as i32 - 1, draw(9) as i32 - 1);
            let end = ivec2(draw(11) as i32 - 1, draw(9) as i32 - 1);
            match b.path(start, end) {
                Some((p, cost)) => {
                    found += 1;
                    assert!(reachable_by_flooding(&b, start, end));
                    assert_eq!(p[0], start);
                    assert_eq!(*p.last().unwrap(), end);
                    assert_eq!(cost as usize, p.len() - 1);
                    for w in p.windows(2) {
                        assert!(is_move(w[0], w[1]));
                        assert!(b.is_inside(w[1]));
                        assert!(b.board[b.ls_to_idx(w[1])].is_none());
                    }
                    for (i, t) in p.iter().enumerate() {
                        assert!(!p[..i].contains(t));
                    }
                }
                None => {
                    missed += 1;
                    assert!(!reachable_by_flooding(&b, start, end));
                }
            }
        }
    }
    assert!(found > 100 && missed > 100);
}
