use terminal_runner::game::{command_for, generate_stars, hud_line, Command, Game};
use terminal_runner::terminal::{Key, Terminal};

fn text(out: &[char]) -> String {
    out.iter().collect()
}

fn reference_stars(w: u16, h: u16) -> Vec<(u16, u16)> {
    let mut stars = Vec::new();
    let mut seed: u64 = w as u64 + ((h as u64) << 16) + 0xDEADBEEF;
    for _ in 0..(w as usize * h as usize / 25).max(10).min(80) {
        seed = seed.wrapping_mul(6364136223846793005).wrapping_add(1442695040888963407);
        let sx = (seed >> 16) as u16 % w;
        let sy = 2 + ((seed >> 32) as u16 % (h.saturating_sub(4)).max(1));
        stars.push((sx, sy));
    }
    stars
}

#[test]
fn stars_are_deterministic_and_inside_the_screen() {
    for &(w, h) in &[(80u16, 24u16), (40, 10), (1, 1), (200, 60), (7, 3)] {
        let stars = generate_stars(w, h);
        assert_eq!(stars, reference_stars(w, h));
        assert!(stars.len() >= 10 && stars.len() <= 80);
        for &(x, y) in &stars {
            assert!(x < w);
            assert!(y >= 2 && y < 2 + h.saturating_sub(4).max(1));
        }
    }
    assert_eq!(generate_stars(80, 24).len(), 76);
    assert_eq!(generate_stars(40, 10).len(), 16);
    assert_eq!(generate_stars(200, 60).len(), 80);
}

#[test]
fn first_star_of_80_by_24() {
    let seed: u64 = 80 + (24u64 << 16) + 0xDEADBEEF;
    let s = seed.wrapping_mul(6364136223846793005).wrapping_add(1442695040888963407);
    let expected = ((s >> 16) as u16 % 80, 2 + (s >> 32) as u16 % 20);
    assert_eq!(generate_stars(80, 24)[0], expected);
}

#[test]
fn keys_map_to_commands() {
    assert_eq!(command_for(Some(Key::Quit)), Command::Quit);
    assert_eq!(command_for(Some(Key::Space)), Command::Jump);
    assert_eq!(command_for(Some(Key::Up)), Command::Jump);
    assert_eq!(command_for(Some(Key::Unknown)), Command::Continue);
    assert_eq!(command_for(None), Command::Continue);
}

#[test]
fn status_line_text() {
    assert_eq!(text(&hud_line(123, "20", true)), " Distance: 123m  Speed: 20  [===]");
    assert_eq!(text(&hud_line(0, "55", false)), " Distance: 0m  Speed: 55  [ ~ ]");
}

#[test]
fn new_game_is_fresh() {
    let g = Game::new(80, 24);
    assert_eq!(g.score, 0);
    assert!(!g.dead);
    assert_eq!(g.frame_count, 0);
    assert_eq!(g.stars, generate_stars(80, 24));
    assert_eq!(g.world.platforms.len(), 7);
}

fn cell_update(row: usize, col: usize, ch: char) -> String {
    format!("\x1b[{};{}H{}", row + 1, col + 1, ch)
}

#[test]
fn frame_draws_ground_platform_player_and_status() {
    let g = Game::new(40, 10);
    let mut term = Terminal::init(40, 10);
    let cols: Vec<i32> = g.world.platforms.iter().map(|p| p.x as i32).collect();
    let out = text(&g.render(&mut term, &cols, 8, 6, true, "15"));
    // Ground line on the last row.
    assert!(out.contains(&cell_update(9, 39, '.')));
    // The ground platform: row 7 (30 quarter rows), columns 0 to 39.
    assert!(out.contains(&cell_update(7, 0, '=')));
    assert!(out.contains(&cell_update(7, 39, '=')));
    // Running pose at frame 0, and the shadow below it on the platform row.
    assert!(out.contains(&cell_update(6, 8, 'o')));
    assert!(out.contains(&cell_update(6, 9, '/')));
    assert!(out.contains(&cell_update(7, 8, '.')));
    // Status line.
    assert!(out.contains(&cell_update(0, 1, 'D')));
    assert!(out.ends_with("\x1b[?25l"));
    // Drawing the same frame again changes nothing on the screen.
    let again = text(&g.render(&mut term, &cols, 8, 6, true, "15"));
    assert_eq!(again, "\x1b[?25l");
}

#[test]
fn jumping_pose_and_second_running_pose() {
    let mut g = Game::new(40, 10);
    let mut term = Terminal::init(40, 10);
    let cols: Vec<i32> = g.world.platforms.iter().map(|p| p.x as i32 + 1000).collect();
    let out = text(&g.render(&mut term, &cols, 8, 4, false, "15"));
    assert!(out.contains(&cell_update(4, 8, 'o')));
    assert!(out.contains(&cell_update(4, 9, '^')));
    assert!(out.contains(&cell_update(5, 8, '.')));
    g.frame_count = 4;
    let mut term = Terminal::init(40, 10);
    let out = text(&g.render(&mut term, &cols, 8, 4, true, "15"));
    assert!(out.contains(&cell_update(4, 8, '\\')));
    assert!(out.contains(&cell_update(4, 9, 'o')));
}

#[test]
fn death_screen_is_centred() {
    let mut g = Game::new(40, 10);
    g.score = 42;
    let mut term = Terminal::init(40, 10);
    let out = text(&g.render_death(&mut term));
    // " GAME OVER " at column (40 - 11) / 2 = 14 of row 10 / 2 - 2 = 3.
    assert!(out.contains(&cell_update(3, 15, 'G')));
    // " You ran 42 meters! " (20 characters) from column 10 of row 4.
    assert!(out.contains(&cell_update(4, 11, 'Y')));
    assert!(out.contains(&cell_update(4, 19, '4')));
    assert!(out.contains(&cell_update(4, 20, '2')));
    // " Press any key to exit " from column 8 of row 6.
    assert!(out.contains(&cell_update(6, 9, 'P')));
}
