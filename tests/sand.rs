use sandtris::grain::{Grain, Rgba, ShapeType};
use sandtris::grid::{get_cell, get_count, init_sand, set_cell, SandGrid};
use sandtris::shape::{put_s, put_shape, ShapeError};
use sandtris::update::{decide, update_sand, update_sand_with, Motion};

fn white() -> Rgba {
    Rgba::new(255, 255, 255, 255)
}

fn red() -> Rgba {
    Rgba::new(200, 10, 10, 255)
}

fn empty_grid(rows: usize, cols: usize) -> SandGrid {
    vec![vec![Grain::new(white(), false); cols]; rows]
}

fn no_coins(rows: usize, cols: usize) -> Vec<Vec<bool>> {
    vec![vec![false; cols]; rows]
}

fn filled_at(sand: &SandGrid) -> Vec<(usize, usize)> {
    let mut out = Vec::new();
    for y in 0..sand.len() {
        for x in 0..sand[y].len() {
            if sand[y][x].full {
                out.push((y, x));
            }
        }
    }
    out
}

#[test]
fn single_grain_falls_one_row() {
    let mut sand = empty_grid(3, 5);
    sand[0][2] = Grain::new(red(), true);
    update_sand_with(&mut sand, &no_coins(3, 5));
    assert_eq!(filled_at(&sand), vec![(1, 2)]);
    assert_eq!(sand[1][2].color, red());
    assert!(!sand[0][2].full);
    assert_eq!(get_count(&sand), 1);
}

#[test]
fn second_tick_reaches_floor() {
    let mut sand = empty_grid(3, 5);
    sand[0][2] = Grain::new(red(), true);
    update_sand_with(&mut sand, &no_coins(3, 5));
    update_sand_with(&mut sand, &no_coins(3, 5));
    assert_eq!(filled_at(&sand), vec![(2, 2)]);
    assert_eq!(sand[2][2].color, red());
}

#[test]
fn floor_grain_never_moves() {
    let mut sand = empty_grid(4, 6);
    sand[3][0] = Grain::new(red(), true);
    sand[3][4] = Grain::new(white(), true);
    for _ in 0..5 {
        update_sand(&mut sand);
    }
    assert_eq!(filled_at(&sand), vec![(3, 0), (3, 4)]);
    assert_eq!(sand[3][0].color, red());
}

#[test]
fn floor_absorbs_grain_above_empty_floor() {
    let mut sand = empty_grid(2, 3);
    sand[0][1] = Grain::new(red(), true);
    update_sand_with(&mut sand, &no_coins(2, 3));
    assert_eq!(filled_at(&sand), vec![(1, 1)]);
    assert_eq!(sand[1][1].color, red());
}

#[test]
fn blocked_grain_slides_left_on_false_coin() {
    let mut sand = empty_grid(4, 7);
    sand[1][3] = Grain::new(red(), true);
    sand[2][3] = Grain::new(white(), true);
    sand[3] = vec![Grain::new(white(), true); 7];
    let before = get_count(&sand);
    update_sand_with(&mut sand, &no_coins(4, 7));
    assert!(!sand[1][3].full);
    assert!(sand[2][2].full);
    assert!(!sand[2][4].full);
    assert_eq!(sand[2][2].color, red());
    // the straight fall still runs and recolours the blocking grain
    assert_eq!(sand[2][3].color, red());
    assert_eq!(get_count(&sand), before);
}

#[test]
fn blocked_grain_slides_right_on_true_coin() {
    let mut sand = empty_grid(4, 7);
    sand[1][3] = Grain::new(red(), true);
    sand[2][3] = Grain::new(white(), true);
    sand[3] = vec![Grain::new(white(), true); 7];
    let mut coins = no_coins(4, 7);
    coins[2][3] = true;
    update_sand_with(&mut sand, &coins);
    assert!(!sand[1][3].full);
    assert!(sand[2][4].full);
    assert!(!sand[2][2].full);
    assert_eq!(sand[2][4].color, red());
}

#[test]
fn blocked_grain_takes_only_free_side() {
    let mut sand = empty_grid(4, 7);
    sand[1][3] = Grain::new(red(), true);
    sand[2][2] = Grain::new(white(), true);
    sand[2][3] = Grain::new(white(), true);
    sand[3] = vec![Grain::new(white(), true); 7];
    update_sand_with(&mut sand, &no_coins(4, 7));
    assert!(sand[2][4].full);
    assert_eq!(sand[2][4].color, red());
    assert!(!sand[1][3].full);
}

#[test]
fn blocked_grain_with_no_free_side_stays() {
    let mut sand = empty_grid(4, 7);
    sand[1][3] = Grain::new(red(), true);
    sand[2] = vec![Grain::new(white(), true); 7];
    sand[3] = vec![Grain::new(white(), true); 7];
    let before = sand.clone();
    update_sand_with(&mut sand, &no_coins(4, 7));
    assert_eq!(sand, before);
}

#[test]
fn edge_columns_never_slide() {
    for x in [0usize, 1, 5, 6] {
        let mut sand = empty_grid(4, 7);
        sand[1][x] = Grain::new(red(), true);
        sand[2][x] = Grain::new(white(), true);
        sand[3] = vec![Grain::new(white(), true); 7];
        let before = sand.clone();
        let mut coins = no_coins(4, 7);
        coins[2][x] = true;
        update_sand_with(&mut sand, &coins);
        assert_eq!(sand, before);
        assert_eq!(decide(&sand, 2, x, true), Motion::Stay);
    }
}

#[test]
fn decide_reports_each_motion() {
    let mut sand = empty_grid(3, 6);
    assert_eq!(decide(&sand, 1, 2, false), Motion::Stay);
    sand[0][2] = Grain::new(red(), true);
    assert_eq!(decide(&sand, 1, 2, false), Motion::Fall);
    sand[1][2] = Grain::new(red(), true);
    assert_eq!(decide(&sand, 1, 2, false), Motion::SlideLeft);
    assert_eq!(decide(&sand, 1, 2, true), Motion::SlideRight);
}

#[test]
fn same_coins_give_same_grids() {
    let mut a = empty_grid(20, 30);
    put_s(&vec![5, 2], red(), white(), &mut a, false);
    let mut b = a.clone();
    for t in 0..15 {
        let mut coins = no_coins(20, 30);
        for y in 0..20 {
            for x in 0..30 {
                coins[y][x] = (x * 7 + y * 3 + t) % 2 == 0;
            }
        }
        update_sand_with(&mut a, &coins);
        update_sand_with(&mut b, &coins);
        assert_eq!(a, b);
    }
}

#[test]
fn ticks_conserve_grains() {
    let mut sand = empty_grid(20, 30);
    put_s(&vec![5, 2], red(), white(), &mut sand, true);
    assert_eq!(get_count(&sand), 100);
    for _ in 0..40 {
        update_sand(&mut sand);
        assert_eq!(get_count(&sand), 100);
    }
}

#[test]
fn s_shape_fills_exactly_its_cells() {
    let mut sand = empty_grid(20, 30);
    put_s(&vec![3, 4], red(), white(), &mut sand, false);
    assert_eq!(get_count(&sand), 100);
    for y in 0..20 {
        for x in 0..30 {
            let top = (4..9).contains(&y) && (8..18).contains(&x);
            let bottom = (9..14).contains(&y) && (3..13).contains(&x);
            assert_eq!(sand[y][x].full, top || bottom, "cell ({}, {})", y, x);
            if top || bottom {
                assert_eq!(sand[y][x].color, red());
            }
        }
    }
}

#[test]
fn s_shape_variance_uses_only_two_colours() {
    let shade = Rgba::new(160, 8, 8, 255);
    let mut sand = empty_grid(12, 16);
    put_s(&vec![0, 0], red(), shade, &mut sand, true);
    for y in 0..12 {
        for x in 0..16 {
            if sand[y][x].full {
                assert!(sand[y][x].color == red() || sand[y][x].color == shade);
            }
        }
    }
    assert_eq!(get_count(&sand), 100);
}

#[test]
fn put_shape_stamps_s() {
    let mut sand = empty_grid(10, 15);
    assert_eq!(put_shape(ShapeType::S, vec![0, 0], red(), red(), &mut sand, false), Ok(()));
    assert_eq!(get_count(&sand), 100);
    assert!(sand[0][5].full && !sand[0][4].full && sand[9][9].full && !sand[9][10].full);
}

#[test]
fn other_shapes_are_refused_untouched() {
    for shape in [ShapeType::L, ShapeType::I, ShapeType::O] {
        let mut sand = empty_grid(10, 15);
        sand[2][2] = Grain::new(red(), true);
        let before = sand.clone();
        assert_eq!(
            put_shape(shape, vec![0, 0], red(), red(), &mut sand, false),
            Err(ShapeError::NotImplemented)
        );
        assert_eq!(sand, before);
    }
}

#[test]
fn init_sand_clears_to_white() {
    let mut sand = empty_grid(4, 5);
    sand[1][1] = Grain::new(red(), true);
    sand[3][4] = Grain::new(red(), true);
    init_sand(&mut sand, &(2, 5));
    assert_eq!(sand[1][1], Grain::new(white(), false));
    assert_eq!(sand[3][4], Grain::new(red(), true));
    assert_eq!(get_count(&sand), 1);
}

#[test]
fn count_of_empty_and_full_grids() {
    assert_eq!(get_count(&empty_grid(5, 7)), 0);
    assert_eq!(get_count(&vec![vec![Grain::new(red(), true); 7]; 5]), 35);
    assert_eq!(get_count(&Vec::new()), 0);
}

#[test]
fn set_and_get_cell() {
    let mut sand = empty_grid(3, 3);
    set_cell(&mut sand, 2, 1, Grain::new(red(), true));
    assert_eq!(get_cell(&sand, 2, 1), Grain::new(red(), true));
    assert_eq!(get_cell(&sand, 1, 1), Grain::new(white(), false));
}

#[test]
fn random_tie_slides_to_exactly_one_side() {
    for _ in 0..20 {
        let mut sand = empty_grid(4, 7);
        sand[1][3] = Grain::new(red(), true);
        sand[2][3] = Grain::new(white(), true);
        sand[3] = vec![Grain::new(white(), true); 7];
        update_sand(&mut sand);
        assert!(!sand[1][3].full);
        assert!(sand[2][2].full != sand[2][4].full);
        assert_eq!(get_count(&sand), 9);
    }
}
