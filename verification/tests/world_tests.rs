use terminal_runner::world::{Platform, World};

fn check_spacing(w: &World) {
    let h = w.screen_h as i64;
    let ps = &w.platforms;
    for i in 1..ps.len() {
        let prev = ps[i - 1];
        let p = ps[i];
        let gap = p.x as i64 - (prev.x as i64 + prev.width as i64);
        assert!((3..12).contains(&gap), "gap {}", gap);
        assert!((5..18).contains(&p.width));
        assert!(p.y_quarters as i64 >= 4 * (h / 5) && p.y_quarters as i64 <= 4 * (h - 4));
        let step = p.y_quarters as i64 - prev.y_quarters as i64;
        assert!(step.abs() <= 32, "step {}", step);
    }
    if let Some(last) = ps.last() {
        assert_eq!(last.x + last.width as u64, w.chunk_cursor);
        assert_eq!(last.y_quarters, w.last_plat_y);
    }
}

fn bare_world(screen_w: u16, screen_h: u16) -> World {
    let ground = 3 * screen_h as u32;
    World {
        platforms: vec![Platform { x: 0, y_quarters: ground, width: 60 }],
        chunk_cursor: 60,
        screen_w,
        screen_h,
        last_plat_y: ground,
        rng: rand::thread_rng(),
    }
}

#[test]
fn new_world_starts_with_ground_and_six_platforms() {
    let w = World::new(80, 24);
    assert_eq!(w.platforms.len(), 7);
    assert_eq!(w.platforms[0], Platform { x: 0, y_quarters: 72, width: 60 });
    check_spacing(&w);
}

#[test]
fn small_screen_world_is_well_spaced() {
    for _ in 0..50 {
        let w = World::new(40, 10);
        check_spacing(&w);
    }
}

#[test]
fn chunk_moves_target_to_within_eight_rows() {
    let mut w = bare_world(80, 24);
    // Target row 4 is 14 rows above the ground at row 18: it is held at 10.
    w.place_chunk(5, 4, 10);
    assert_eq!(w.platforms[1], Platform { x: 65, y_quarters: 40, width: 10 });
    assert_eq!(w.chunk_cursor, 75);
    assert_eq!(w.last_plat_y, 40);
    // Target row 19 is 9 rows below row 10: it is held at row 18.
    w.place_chunk(3, 19, 5);
    assert_eq!(w.platforms[2], Platform { x: 78, y_quarters: 72, width: 5 });
    assert_eq!(w.chunk_cursor, 83);
}

#[test]
fn chunk_keeps_a_reachable_target() {
    let mut w = bare_world(80, 24);
    w.place_chunk(11, 15, 17);
    assert_eq!(w.platforms[1], Platform { x: 71, y_quarters: 60, width: 17 });
    assert_eq!(w.chunk_cursor, 88);
}

#[test]
fn chunk_from_high_ground_lands_in_the_band() {
    // On a 10-row screen the ground (row 7.5) lies below the band of rows
    // 2 to 6: the platform is brought up into the band.
    let mut w = bare_world(40, 10);
    w.place_chunk(3, 5, 5);
    assert_eq!(w.platforms[1], Platform { x: 63, y_quarters: 20, width: 5 });
    w.place_chunk(3, 2, 5);
    assert_eq!(w.platforms[2].y_quarters, 8);
}

#[test]
fn random_chunks_vary() {
    let mut w = World::new(80, 24);
    for _ in 0..100 {
        w.generate_chunk();
    }
    check_spacing(&w);
    let first_gap = w.platforms[1].x - 60;
    let varied = (2..w.platforms.len()).any(|i| {
        let prev = w.platforms[i - 1];
        w.platforms[i].x - (prev.x + prev.width as u64) != first_gap
    });
    assert!(varied);
    let widths_vary = w.platforms[2..].iter().any(|p| p.width != w.platforms[1].width);
    assert!(widths_vary);
}

#[test]
fn update_generates_ahead_and_drops_passed_platforms() {
    let mut w = World::new(80, 24);
    w.update(500, 100);
    assert!(w.chunk_cursor >= 500 && w.chunk_cursor < 528);
    assert!(w.platforms.iter().all(|p| p.x + p.width as u64 > 100));
    assert!(!w.platforms.is_empty());
    check_spacing(&w);
}

#[test]
fn update_keeps_platforms_right_of_the_line() {
    let mut w = bare_world(80, 24);
    w.place_chunk(5, 10, 10); // 65..75
    w.place_chunk(5, 10, 10); // 80..90
    w.update(0, 74);
    assert_eq!(w.chunk_cursor, 90);
    assert_eq!(w.platforms.len(), 2);
    assert_eq!(w.platforms[0].x, 65);
    w.update(0, 75);
    assert_eq!(w.platforms.len(), 1);
    assert_eq!(w.platforms[0].x, 80);
    w.update(0, -5);
    assert_eq!(w.platforms.len(), 1);
}

#[test]
fn second_update_with_same_bounds_changes_nothing() {
    let mut w = World::new(80, 24);
    w.update(400, 150);
    let platforms = w.platforms.clone();
    let cursor = w.chunk_cursor;
    w.update(400, 150);
    assert_eq!(w.platforms, platforms);
    assert_eq!(w.chunk_cursor, cursor);
}

#[test]
fn update_stops_once_the_lookahead_is_reached() {
    let mut w = World::new(80, 24);
    let before = w.platforms.len();
    w.update(300, 0);
    // Every generated platform but the last ends short of column 300.
    let added = &w.platforms[before..];
    for p in &added[..added.len() - 1] {
        assert!(p.x + (p.width as u64) < 300);
    }
    assert!(w.chunk_cursor >= 300);
}
